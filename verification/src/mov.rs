//! Boxes (atoms) of the movie container format.
//!
//! A box is a length-prefixed, type-tagged unit: a four-byte big-endian size
//! that counts the whole box, a four-byte type tag, then the payload.

use vstd::prelude::*;

verus! {

/// Number of bytes in a box header.
pub const HEADER_LEN: usize = 8;

/// Number of bytes a box must have to carry the sub-tag of a container start.
pub const SIGNATURE_LEN: usize = 12;

/// A four-byte tag, written as its four characters.
pub open spec fn fourcc(a: char, b: char, c: char, d: char) -> Seq<u8> {
    seq![a as u8, b as u8, c as u8, d as u8]
}

/// The type tags of the boxes that are recognised.
pub open spec fn atom_types() -> Seq<Seq<u8>> {
    seq![
        fourcc('f', 't', 'y', 'p'),
        fourcc('m', 'd', 'a', 't'),
        fourcc('m', 'o', 'o', 'v'),
        fourcc('p', 'n', 'o', 't'),
        fourcc('u', 'd', 't', 'a'),
        fourcc('u', 'u', 'i', 'd'),
        fourcc('m', 'o', 'o', 'f'),
        fourcc('f', 'r', 'e', 'e'),
        fourcc('s', 'k', 'i', 'p'),
        fourcc('j', 'P', '2', ' '),
        fourcc('w', 'i', 'd', 'e'),
        fourcc('l', 'o', 'a', 'd'),
        fourcc('c', 't', 'a', 'b'),
        fourcc('i', 'm', 'a', 'p'),
        fourcc('m', 'a', 't', 't'),
        fourcc('k', 'm', 'a', 't'),
        fourcc('c', 'l', 'i', 'p'),
        fourcc('c', 'r', 'g', 'n'),
        fourcc('s', 'y', 'n', 'c'),
        fourcc('c', 'h', 'a', 'p'),
        fourcc('t', 'm', 'c', 'd'),
        fourcc('s', 'c', 'p', 't'),
        fourcc('s', 's', 'r', 'c'),
        fourcc('P', 'I', 'C', 'T'),
    ]
}

/// The tag of the box that opens a file.
pub open spec fn file_type_tag() -> Seq<u8> {
    fourcc('f', 't', 'y', 'p')
}

/// The sub-tag that marks a file as a QuickTime movie.
pub open spec fn movie_brand() -> Seq<u8> {
    fourcc('q', 't', ' ', ' ')
}

/// The value of a four-byte big-endian unsigned integer.
pub open spec fn be32(b: Seq<u8>) -> nat
    recommends
        b.len() == 4,
{
    (b[0] as nat) * 0x100_0000 + (b[1] as nat) * 0x1_0000 + (b[2] as nat) * 0x100 + (b[3] as nat)
}

/// What a box header says: the size of the whole box and its type tag.
pub ghost struct HeaderView {
    pub size: nat,
    pub atom_type: Seq<u8>,
}

impl HeaderView {
    /// A header is that of a box when its type is recognised and its size
    /// covers at least the header and at most `max_chunk_size` bytes.
    pub open spec fn is_box(self, max_chunk_size: nat) -> bool {
        &&& atom_types().contains(self.atom_type)
        &&& HEADER_LEN <= self.size <= max_chunk_size
    }
}

/// The header held by the first eight bytes of `bytes`.
pub open spec fn header_of(bytes: Seq<u8>) -> HeaderView
    recommends
        bytes.len() >= HEADER_LEN,
{
    HeaderView { size: be32(bytes.subrange(0, 4)), atom_type: bytes.subrange(4, 8) }
}

/// A box of type `atom_type` whose bytes, header included, are `chunk` starts
/// a movie file when it is a file-type box that holds the movie brand in
/// bytes 8 to 11.
pub open spec fn is_container_start(atom_type: Seq<u8>, chunk: Seq<u8>) -> bool {
    &&& atom_type == file_type_tag()
    &&& chunk.len() >= SIGNATURE_LEN
    &&& chunk.subrange(8, 12) == movie_brand()
}

/// A decoded box header.
#[derive(Clone, Copy, Debug)]
pub struct BoxHeader {
    pub size: u32,
    pub atom_type: [u8; 4],
}

impl View for BoxHeader {
    type V = HeaderView;

    open spec fn view(&self) -> HeaderView {
        HeaderView { size: self.size as nat, atom_type: self.atom_type@ }
    }
}

/// The tag that the four ASCII characters write.
fn tag(a: char, b: char, c: char, d: char) -> (t: [u8; 4])
    requires
        a <= '\u{7f}',
        b <= '\u{7f}',
        c <= '\u{7f}',
        d <= '\u{7f}',
    ensures
        t@ == fourcc(a, b, c, d),
{
    [a as u8, b as u8, c as u8, d as u8]
}

/// Whether two tags are the same.
fn same_tag(x: &[u8; 4], y: &[u8; 4]) -> (same: bool)
    ensures
        same == (x@ == y@),
{
    let same = x[0] == y[0] && x[1] == y[1] && x[2] == y[2] && x[3] == y[3];
    assert(same == (x@ =~= y@));
    same
}

/// The recognised type number `i`.
fn atom_type_at(i: usize) -> (t: [u8; 4])
    requires
        i < atom_types().len(),
    ensures
        t@ == atom_types()[i as int],
{
    match i {
        0 => tag('f', 't', 'y', 'p'),
        1 => tag('m', 'd', 'a', 't'),
        2 => tag('m', 'o', 'o', 'v'),
        3 => tag('p', 'n', 'o', 't'),
        4 => tag('u', 'd', 't', 'a'),
        5 => tag('u', 'u', 'i', 'd'),
        6 => tag('m', 'o', 'o', 'f'),
        7 => tag('f', 'r', 'e', 'e'),
        8 => tag('s', 'k', 'i', 'p'),
        9 => tag('j', 'P', '2', ' '),
        10 => tag('w', 'i', 'd', 'e'),
        11 => tag('l', 'o', 'a', 'd'),
        12 => tag('c', 't', 'a', 'b'),
        13 => tag('i', 'm', 'a', 'p'),
        14 => tag('m', 'a', 't', 't'),
        15 => tag('k', 'm', 'a', 't'),
        16 => tag('c', 'l', 'i', 'p'),
        17 => tag('c', 'r', 'g', 'n'),
        18 => tag('s', 'y', 'n', 'c'),
        19 => tag('c', 'h', 'a', 'p'),
        20 => tag('t', 'm', 'c', 'd'),
        21 => tag('s', 'c', 'p', 't'),
        22 => tag('s', 's', 'r', 'c'),
        _ => tag('P', 'I', 'C', 'T'),
    }
}

/// Whether `atom_type` is the type tag of a recognised box.
pub fn is_valid_atom_type(atom_type: [u8; 4]) -> (valid: bool)
    ensures
        valid == atom_types().contains(atom_type@),
{
    let mut i: usize = 0;
    while i < 24
        invariant
            i <= 24,
            atom_types().len() == 24,
            forall|j: int| 0 <= j < i ==> atom_types()[j] != atom_type@,
        decreases 24 - i,
    {
        let known = atom_type_at(i);
        if same_tag(&atom_type, &known) {
            return true;
        }
        i += 1;
    }
    false
}

impl BoxHeader {
    /// Decodes the header at the start of `bytes` and leaves `bytes` as they
    /// are: nothing is consumed. There is no header where fewer than eight
    /// bytes are left.
    pub fn parse(bytes: &[u8]) -> (header: Option<BoxHeader>)
        ensures
            match header {
                Some(h) => bytes@.len() >= HEADER_LEN && h@ == header_of(bytes@),
                None => bytes@.len() < HEADER_LEN,
            },
    {
        if bytes.len() < HEADER_LEN {
            return None;
        }
        let b0: u32 = bytes[0] as u32;
        let b1: u32 = bytes[1] as u32;
        let b2: u32 = bytes[2] as u32;
        let b3: u32 = bytes[3] as u32;
        let size: u32 = b0 * 0x100_0000 + b1 * 0x1_0000 + b2 * 0x100 + b3;
        let atom_type = [bytes[4], bytes[5], bytes[6], bytes[7]];
        assert(atom_type@ =~= bytes@.subrange(4, 8));
        Some(BoxHeader { size, atom_type })
    }

    /// Whether this header is that of a well-formed box: a recognised type
    /// and a size between the header's length and `max_chunk_size`.
    pub fn is_box(&self, max_chunk_size: u64) -> (ok: bool)
        ensures
            ok == self@.is_box(max_chunk_size as nat),
    {
        is_valid_atom_type(self.atom_type) && HEADER_LEN as u64 <= self.size as u64
            && self.size as u64 <= max_chunk_size
    }
}

/// Whether the box of type `atom_type` whose bytes are `chunk` starts a movie
/// file.
pub fn starts_container(atom_type: &[u8; 4], chunk: &[u8]) -> (found: bool)
    ensures
        found == is_container_start(atom_type@, chunk@),
{
    let file_type = tag('f', 't', 'y', 'p');
    if !same_tag(atom_type, &file_type) || chunk.len() < SIGNATURE_LEN {
        return false;
    }
    let found = chunk[8] == 'q' as u8 && chunk[9] == 't' as u8 && chunk[10] == ' ' as u8
        && chunk[11] == ' ' as u8;
    assert(found == (chunk@.subrange(8, 12) =~= movie_brand()));
    found
}

} // verus!
