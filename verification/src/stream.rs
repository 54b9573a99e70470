//! What a scan recovers from a stream, stated over the stream's bytes.
//!
//! The scan probes the stream block by block. Where the box that opens a
//! movie file stands on a block boundary, the run of whole boxes from there
//! on is a file, and the scan goes on at the first block boundary behind it.

use crate::mov::{header_of, is_container_start, HeaderView, HEADER_LEN, SIGNATURE_LEN};
use crate::scanner::{lemma_next_cursor, next_cursor};
use vstd::prelude::*;

verus! {

/// What the chunk reader finds at a place in the stream.
pub ghost enum Probe {
    /// The stream ends before the header, or before the box, is complete.
    Truncated,
    /// The bytes there are not the header of a box.
    NotABox,
    /// A whole box with this header.
    Chunk(HeaderView),
}

/// What the chunk reader finds at `pos`, where no box may be larger than
/// `max_chunk_size`.
pub open spec fn probe(src: Seq<u8>, pos: nat, max_chunk_size: nat) -> Probe {
    if pos + HEADER_LEN > src.len() {
        Probe::Truncated
    } else {
        let header = header_of(src.subrange(pos as int, pos + HEADER_LEN));
        if !header.is_box(max_chunk_size) {
            Probe::NotABox
        } else if pos + header.size > src.len() {
            Probe::Truncated
        } else {
            Probe::Chunk(header)
        }
    }
}

/// Number of bytes in the run of whole boxes that starts at `pos`.
pub open spec fn episode_len(src: Seq<u8>, pos: nat, max_chunk_size: nat) -> nat
    decreases src.len() - pos,
{
    match probe(src, pos, max_chunk_size) {
        Probe::Chunk(header) => header.size + episode_len(src, pos + header.size, max_chunk_size),
        _ => 0,
    }
}

/// Whether a movie file starts at `pos`: a whole file-type box with the movie
/// brand.
pub open spec fn is_file_start(src: Seq<u8>, pos: nat, max_chunk_size: nat) -> bool {
    probe(src, pos, max_chunk_size) matches Probe::Chunk(header) && is_container_start(
        header.atom_type,
        src.subrange(pos as int, (pos + header.size) as int),
    )
}

/// Number of bytes of the stream from `pos` on.
pub open spec fn unread(src: Seq<u8>, pos: nat) -> nat {
    if pos < src.len() {
        (src.len() - pos) as nat
    } else {
        0
    }
}

/// A stretch of the source stream that was recovered as one file.
pub ghost struct Region {
    pub start: nat,
    pub len: nat,
}

/// The files that a scan recovers from `cursor` on, in the order in which
/// it finds them. The scan is over where the chunk reader finds the stream
/// truncated.
pub open spec fn regions(src: Seq<u8>, block_size: nat, max_chunk_size: nat, cursor: nat) -> Seq<
    Region,
>
    decreases unread(src, cursor),
    when block_size > 0
    via regions_terminates
{
    if probe(src, cursor, max_chunk_size) is Truncated {
        Seq::empty()
    } else if is_file_start(src, cursor, max_chunk_size) {
        let len = episode_len(src, cursor, max_chunk_size);
        seq![Region { start: cursor, len }] + regions(
            src,
            block_size,
            max_chunk_size,
            next_cursor(cursor, len, block_size),
        )
    } else {
        regions(src, block_size, max_chunk_size, cursor + block_size)
    }
}

/// Each file is at least a header long, so the scan resumes behind the
/// cursor.
#[via_fn]
proof fn regions_terminates(src: Seq<u8>, block_size: nat, max_chunk_size: nat, cursor: nat) {
    if is_file_start(src, cursor, max_chunk_size) {
        lemma_next_cursor(cursor, episode_len(src, cursor, max_chunk_size), block_size);
    }
}

/// The sum of `sizes`.
pub open spec fn total(sizes: Seq<nat>) -> nat
    decreases sizes.len(),
{
    if sizes.len() == 0 {
        0
    } else {
        sizes[0] + total(sizes.drop_first())
    }
}

/// Whether whole boxes of the sizes `sizes` stand one behind the other from
/// `pos` on.
pub open spec fn boxes_at(src: Seq<u8>, pos: nat, max_chunk_size: nat, sizes: Seq<nat>) -> bool
    decreases sizes.len(),
{
    if sizes.len() == 0 {
        true
    } else {
        match probe(src, pos, max_chunk_size) {
            Probe::Chunk(header) => header.size == sizes[0] && boxes_at(
                src,
                pos + sizes[0],
                max_chunk_size,
                sizes.drop_first(),
            ),
            _ => false,
        }
    }
}

/// Whether the scan passes over `pos`: the chunk reader gets its bytes
/// there, and no movie file starts there.
pub open spec fn passed_over(src: Seq<u8>, pos: nat, max_chunk_size: nat) -> bool {
    !(probe(src, pos, max_chunk_size) is Truncated) && !is_file_start(src, pos, max_chunk_size)
}

/// An episode copies whole boxes until something else follows: boxes that
/// stand one behind the other, with no box behind the last, are copied all
/// and alone.
pub proof fn lemma_episode_of_boxes(src: Seq<u8>, pos: nat, max_chunk_size: nat, sizes: Seq<nat>)
    requires
        boxes_at(src, pos, max_chunk_size, sizes),
        !(probe(src, pos + total(sizes), max_chunk_size) is Chunk),
    ensures
        episode_len(src, pos, max_chunk_size) == total(sizes),
    decreases sizes.len(),
{
    if sizes.len() > 0 {
        lemma_episode_of_boxes(src, pos + sizes[0], max_chunk_size, sizes.drop_first());
    }
}

/// An episode stays inside the stream.
pub proof fn lemma_episode_in_stream(src: Seq<u8>, pos: nat, max_chunk_size: nat)
    ensures
        episode_len(src, pos, max_chunk_size) > 0 ==> pos + episode_len(src, pos, max_chunk_size)
            <= src.len(),
        is_file_start(src, pos, max_chunk_size) ==> episode_len(src, pos, max_chunk_size)
            >= SIGNATURE_LEN,
    decreases src.len() - pos,
{
    if let Probe::Chunk(header) = probe(src, pos, max_chunk_size) {
        lemma_episode_in_stream(src, pos + header.size, max_chunk_size);
    }
}

/// The scan finds nothing behind the end of the stream.
pub proof fn lemma_nothing_behind_the_end(
    src: Seq<u8>,
    block_size: nat,
    max_chunk_size: nat,
    cursor: nat,
)
    requires
        block_size > 0,
        cursor + HEADER_LEN > src.len(),
    ensures
        regions(src, block_size, max_chunk_size, cursor) == Seq::<Region>::empty(),
{
}

/// A stream in which no movie file starts on a block boundary yields no
/// file: nothing is recovered, and the count of files is zero.
pub proof fn lemma_no_signature_no_file(
    src: Seq<u8>,
    block_size: nat,
    max_chunk_size: nat,
    cursor: nat,
)
    requires
        block_size > 0,
        cursor % block_size == 0,
        forall|pos: nat|
            pos >= cursor && pos % block_size == 0 ==> !#[trigger] is_file_start(
                src,
                pos,
                max_chunk_size,
            ),
    ensures
        regions(src, block_size, max_chunk_size, cursor) == Seq::<Region>::empty(),
    decreases unread(src, cursor),
{
    if !(probe(src, cursor, max_chunk_size) is Truncated) {
        lemma_next_block(cursor, block_size);
        lemma_no_signature_no_file(src, block_size, max_chunk_size, cursor + block_size);
    }
}

/// The block behind a block boundary begins on a block boundary.
proof fn lemma_next_block(cursor: nat, block_size: nat)
    requires
        block_size > 0,
        cursor % block_size == 0,
    ensures
        (cursor + block_size) % block_size == 0,
{
    vstd::arithmetic::div_mod::lemma_mod_multiples_vanish(1, cursor as int, block_size as int);
}

/// Blocks that the scan passes over do not change what it recovers.
pub proof fn lemma_passed_over(
    src: Seq<u8>,
    block_size: nat,
    max_chunk_size: nat,
    cursor: nat,
    start: nat,
)
    requires
        block_size > 0,
        cursor % block_size == 0,
        start % block_size == 0,
        cursor <= start,
        forall|pos: nat|
            cursor <= pos < start && pos % block_size == 0 ==> #[trigger] passed_over(
                src,
                pos,
                max_chunk_size,
            ),
    ensures
        regions(src, block_size, max_chunk_size, cursor) == regions(
            src,
            block_size,
            max_chunk_size,
            start,
        ),
    decreases start - cursor,
{
    if cursor < start {
        assert(passed_over(src, cursor, max_chunk_size));
        lemma_next_block(cursor, block_size);
        lemma_aligned_apart(cursor, start, block_size);
        lemma_passed_over(src, block_size, max_chunk_size, cursor + block_size, start);
    }
}

/// Two block boundaries are the same or at least a block apart.
proof fn lemma_aligned_apart(low: nat, high: nat, block_size: nat)
    requires
        block_size > 0,
        low % block_size == 0,
        high % block_size == 0,
        low < high,
    ensures
        low + block_size <= high,
{
    let d = block_size as int;
    vstd::arithmetic::div_mod::lemma_fundamental_div_mod(low as int, d);
    vstd::arithmetic::div_mod::lemma_fundamental_div_mod(high as int, d);
    let a = low as int / d;
    let b = high as int / d;
    assert(a < b) by (nonlinear_arith)
        requires
            d * a < d * b,
            d > 0,
    ;
    assert(d * a + d <= d * b) by (nonlinear_arith)
        requires
            a + 1 <= b,
            d > 0,
    ;
}

/// A movie file that starts on a block boundary with blocks before it that
/// the scan passes over, whose boxes stand one behind the other with no box
/// behind the last and no start of a file on a block boundary behind them,
/// is recovered as the one file of the stream, and holds just the bytes of
/// those boxes.
pub proof fn lemma_one_file(
    src: Seq<u8>,
    block_size: nat,
    max_chunk_size: nat,
    start: nat,
    sizes: Seq<nat>,
)
    requires
        block_size > 0,
        start % block_size == 0,
        forall|pos: nat|
            pos < start && pos % block_size == 0 ==> #[trigger] passed_over(
                src,
                pos,
                max_chunk_size,
            ),
        is_file_start(src, start, max_chunk_size),
        boxes_at(src, start, max_chunk_size, sizes),
        !(probe(src, start + total(sizes), max_chunk_size) is Chunk),
        forall|pos: nat|
            pos >= start + total(sizes) && pos % block_size == 0 ==> !#[trigger] is_file_start(
                src,
                pos,
                max_chunk_size,
            ),
    ensures
        regions(src, block_size, max_chunk_size, 0) == seq![
            Region { start, len: total(sizes) },
        ],
{
    let len = total(sizes);
    let resume = next_cursor(start, len, block_size);
    lemma_passed_over(src, block_size, max_chunk_size, 0, start);
    lemma_episode_of_boxes(src, start, max_chunk_size, sizes);
    lemma_next_cursor(start, len, block_size);
    lemma_no_signature_no_file(src, block_size, max_chunk_size, resume);
}

/// A stream that ends where a box of the file ends ends the episode, and
/// the scan, with nothing lost: the file holds every box up to the end of
/// the stream.
pub proof fn lemma_truncated_at_box_boundary(
    src: Seq<u8>,
    block_size: nat,
    max_chunk_size: nat,
    start: nat,
    sizes: Seq<nat>,
)
    requires
        block_size > 0,
        is_file_start(src, start, max_chunk_size),
        boxes_at(src, start, max_chunk_size, sizes),
        start + total(sizes) == src.len(),
    ensures
        regions(src, block_size, max_chunk_size, start) == seq![
            Region { start, len: total(sizes) },
        ],
        src.subrange(start as int, (start + total(sizes)) as int) == src.skip(start as int),
{
    let len = total(sizes);
    let resume = next_cursor(start, len, block_size);
    lemma_episode_of_boxes(src, start, max_chunk_size, sizes);
    lemma_next_cursor(start, len, block_size);
    lemma_nothing_behind_the_end(src, block_size, max_chunk_size, resume);
}

/// Whether `region` is a movie file as a scan recovers it: the run of boxes
/// that starts with a file-type box on a block boundary.
pub open spec fn is_recovered_file(
    region: Region,
    src: Seq<u8>,
    block_size: nat,
    max_chunk_size: nat,
) -> bool {
    &&& region.start % block_size == 0
    &&& is_file_start(src, region.start, max_chunk_size)
    &&& region.len == episode_len(src, region.start, max_chunk_size)
    &&& region.len >= SIGNATURE_LEN
    &&& region.start + region.len <= src.len()
}

/// Whether `files` are movie files as a scan from `cursor` on recovers
/// them, each behind the one before.
pub open spec fn in_order(
    files: Seq<Region>,
    src: Seq<u8>,
    block_size: nat,
    max_chunk_size: nat,
    cursor: nat,
) -> bool {
    &&& forall|i: int|
        0 <= i < files.len() ==> cursor <= (#[trigger] files[i]).start && is_recovered_file(
            files[i],
            src,
            block_size,
            max_chunk_size,
        )
    &&& forall|i: int, j: int|
        0 <= i < j < files.len() ==> (#[trigger] files[i]).start + files[i].len <= (
        #[trigger] files[j]).start
}

/// The files that a scan recovers lie in the stream, each the run of boxes
/// behind a file start on a block boundary, and each behind the one before:
/// no byte is recovered twice.
pub proof fn lemma_regions_in_order(
    src: Seq<u8>,
    block_size: nat,
    max_chunk_size: nat,
    cursor: nat,
)
    requires
        block_size > 0,
        cursor % block_size == 0,
    ensures
        in_order(
            regions(src, block_size, max_chunk_size, cursor),
            src,
            block_size,
            max_chunk_size,
            cursor,
        ),
    decreases unread(src, cursor),
{
    if is_file_start(src, cursor, max_chunk_size) {
        let len = episode_len(src, cursor, max_chunk_size);
        lemma_episode_in_stream(src, cursor, max_chunk_size);
        lemma_next_cursor(cursor, len, block_size);
        lemma_regions_in_order(
            src,
            block_size,
            max_chunk_size,
            next_cursor(cursor, len, block_size),
        );
    } else if !(probe(src, cursor, max_chunk_size) is Truncated) {
        lemma_next_block(cursor, block_size);
        lemma_regions_in_order(src, block_size, max_chunk_size, cursor + block_size);
    }
}

} // verus!
