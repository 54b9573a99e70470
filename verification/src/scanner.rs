//! The scan-and-recover engine as a state machine.
//!
//! The engine never touches the source stream itself. It says what it needs
//! read ([`Scanner::request`]), is handed what the stream held there
//! ([`Scanner::step`]), and says what is to be done with those bytes
//! ([`Effect`]). Whoever owns the stream performs the reads and the writes.

use crate::config::Config;
use crate::mov::{
    header_of, is_container_start, starts_container, BoxHeader, HeaderView, HEADER_LEN,
    SIGNATURE_LEN,
};
use vstd::prelude::*;

verus! {

/// What the engine is doing.
#[derive(Clone, Copy, Debug, PartialEq, Eq)]
pub enum Phase {
    /// Looking for the start of a file at the scan cursor.
    Scanning,
    /// Copying the boxes of the file that starts at the scan cursor.
    Recovering,
    /// The source stream is exhausted.
    Finished,
}

/// What the engine needs next.
#[derive(Clone, Copy, Debug, PartialEq, Eq)]
pub enum Request {
    /// The `len` bytes of the source stream that start at `offset`, or as
    /// many of them as the stream has.
    Read { offset: u64, len: usize },
    /// Nothing: the scan is over.
    Done,
}

/// What is to be done with the bytes that were handed to a step.
#[derive(Clone, Copy, Debug, PartialEq, Eq)]
pub enum Effect {
    /// Nothing.
    Nothing,
    /// Create the output file number `ordinal`, counted from zero, and write
    /// the first `len` bytes to it.
    Create { ordinal: u64, len: usize },
    /// Append the first `len` bytes to the open output file.
    Append { len: usize },
    /// Close the open output file.
    Close,
}

impl Effect {
    /// Number of bytes that the effect writes.
    pub open spec fn len(self) -> nat {
        match self {
            Effect::Create { len, .. } => len as nat,
            Effect::Append { len } => len as nat,
            _ => 0,
        }
    }
}

/// Number of blocks of `block_size` bytes that it takes to cover `len` bytes.
pub open spec fn blocks_spanned(len: nat, block_size: nat) -> nat
    recommends
        block_size > 0,
{
    ((len + block_size - 1) / (block_size as int)) as nat
}

/// Where the scan resumes once `len` bytes were recovered from `cursor`:
/// behind the blocks that the recovered bytes reach into.
pub open spec fn next_cursor(cursor: nat, len: nat, block_size: nat) -> nat
    recommends
        block_size > 0,
{
    cursor + block_size * blocks_spanned(len, block_size)
}

/// The state of the engine.
pub ghost struct ScannerView {
    pub block_size: nat,
    pub max_chunk_size: nat,
    pub dry_run: bool,
    pub phase: Phase,
    /// Offset of the block that is probed, or at which the file began that is
    /// being recovered.
    pub cursor: nat,
    /// Bytes of the current file that were recovered so far.
    pub copied: nat,
    /// The header of the box at the stream position, once it was read and
    /// found to be that of a box.
    pub pending: Option<HeaderView>,
    /// Files found so far.
    pub recovered: nat,
}

impl ScannerView {
    /// The engine before its first step: at the start of the stream, with
    /// nothing found.
    pub open spec fn start(block_size: nat, max_chunk_size: nat, dry_run: bool) -> ScannerView {
        ScannerView {
            block_size,
            max_chunk_size,
            dry_run,
            phase: Phase::Scanning,
            cursor: 0,
            copied: 0,
            pending: None,
            recovered: 0,
        }
    }

    /// The stream position: where the next box is looked for.
    pub open spec fn position(self) -> nat {
        self.cursor + self.copied
    }

    /// Number of bytes asked for: a header, or the box that the header
    /// announced.
    pub open spec fn wanted(self) -> nat {
        match self.pending {
            Some(h) => h.size,
            None => HEADER_LEN as nat,
        }
    }

    /// What the engine needs read before its next step.
    pub open spec fn request(self) -> Request {
        if self.phase is Finished {
            Request::Done
        } else {
            Request::Read { offset: self.position() as u64, len: self.wanted() as usize }
        }
    }

    /// What holds of every state that the engine gets into: the cursor is
    /// on a block boundary, the stream position is one that a stream can
    /// have, no more files were found than blocks were begun, a file that is
    /// being recovered has begun, and a header that is kept is that of a box.
    pub open spec fn wf(self) -> bool {
        &&& 0 < self.block_size <= u64::MAX
        &&& self.max_chunk_size <= u64::MAX
        &&& self.position() <= u64::MAX
        &&& self.cursor % self.block_size == 0
        &&& self.recovered <= self.cursor + 1
        &&& self.phase is Scanning ==> self.copied == 0 && self.recovered <= self.cursor
        &&& self.phase is Recovering ==> self.copied >= SIGNATURE_LEN
        &&& self.phase is Finished ==> self.pending is None
        &&& self.pending matches Some(h) ==> h.is_box(self.max_chunk_size) && h.size <= u32::MAX
    }

    /// Whether the stream held all the bytes that were asked for. No stream
    /// reaches beyond the largest offset.
    pub open spec fn delivered(self, data: Seq<u8>) -> bool {
        data.len() >= self.wanted() && self.position() + self.wanted() <= u64::MAX
    }

    /// The stream is exhausted: the scan is over.
    pub open spec fn finish(self) -> ScannerView {
        ScannerView { phase: Phase::Finished, pending: None, ..self }
    }

    /// Nothing starts at the cursor: on to the next block.
    pub open spec fn skip_block(self) -> ScannerView {
        let cursor = self.cursor + self.block_size;
        if cursor <= u64::MAX {
            ScannerView { cursor, pending: None, ..self }
        } else {
            self.finish()
        }
    }

    /// The file is complete: back to scanning, behind what was recovered.
    pub open spec fn end_episode(self) -> ScannerView {
        let cursor = next_cursor(self.cursor, self.copied, self.block_size);
        if cursor <= u64::MAX {
            ScannerView { phase: Phase::Scanning, cursor, copied: 0, pending: None, ..self }
        } else {
            self.finish()
        }
    }

    /// The stream ended before it gave what was asked for.
    pub open spec fn on_truncated(self) -> ScannerView {
        if self.phase is Recovering {
            self.end_episode()
        } else {
            self.finish()
        }
    }

    /// The bytes at the stream position are not the header of a box.
    pub open spec fn on_not_a_box(self) -> ScannerView {
        if self.phase is Recovering {
            self.end_episode()
        } else {
            self.skip_block()
        }
    }

    /// The box that `header` announced was read as `chunk`.
    pub open spec fn on_chunk(self, header: HeaderView, chunk: Seq<u8>) -> ScannerView {
        if self.phase is Recovering {
            ScannerView { copied: self.copied + header.size, pending: None, ..self }
        } else if is_container_start(header.atom_type, chunk) {
            ScannerView {
                phase: Phase::Recovering,
                copied: header.size,
                recovered: self.recovered + 1,
                pending: None,
                ..self
            }
        } else {
            self.skip_block()
        }
    }

    /// The state after a step that was handed `data`.
    pub open spec fn next(self, data: Seq<u8>) -> ScannerView {
        if self.phase is Finished {
            self
        } else if !self.delivered(data) {
            self.on_truncated()
        } else {
            match self.pending {
                None => {
                    let header = header_of(data);
                    if header.is_box(self.max_chunk_size) {
                        ScannerView { pending: Some(header), ..self }
                    } else {
                        self.on_not_a_box()
                    }
                },
                Some(header) => self.on_chunk(header, data.subrange(0, header.size as int)),
            }
        }
    }

    /// A bound on the steps that are left: every step lowers it.
    pub open spec fn effort(self) -> nat {
        if self.phase is Finished {
            0
        } else {
            (4 * (u64::MAX - self.position()) + (if self.phase is Recovering {
                2nat
            } else {
                0nat
            }) + (if self.pending is None {
                1nat
            } else {
                0nat
            }) + 1) as nat
        }
    }

    /// What a step that was handed `data` has done with it.
    pub open spec fn effect(self, data: Seq<u8>) -> Effect {
        if self.dry_run || self.phase is Finished {
            Effect::Nothing
        } else if !self.delivered(data) {
            if self.phase is Recovering {
                Effect::Close
            } else {
                Effect::Nothing
            }
        } else {
            match self.pending {
                None => if self.phase is Recovering && !header_of(data).is_box(
                    self.max_chunk_size,
                ) {
                    Effect::Close
                } else {
                    Effect::Nothing
                },
                Some(header) => if self.phase is Recovering {
                    Effect::Append { len: header.size as usize }
                } else if is_container_start(
                    header.atom_type,
                    data.subrange(0, header.size as int),
                ) {
                    Effect::Create { ordinal: self.recovered as u64, len: header.size as usize }
                } else {
                    Effect::Nothing
                },
            }
        }
    }
}

/// The engine: where the scan stands, and what it has found.
#[derive(Clone, Debug)]
pub struct Scanner {
    block_size: u64,
    max_chunk_size: u64,
    dry_run: bool,
    phase: Phase,
    cursor: u64,
    copied: u64,
    pending: Option<BoxHeader>,
    recovered: u64,
}

impl View for Scanner {
    type V = ScannerView;

    closed spec fn view(&self) -> ScannerView {
        ScannerView {
            block_size: self.block_size as nat,
            max_chunk_size: self.max_chunk_size as nat,
            dry_run: self.dry_run,
            phase: self.phase,
            cursor: self.cursor as nat,
            copied: self.copied as nat,
            pending: match self.pending {
                Some(h) => Some(h@),
                None => None,
            },
            recovered: self.recovered as nat,
        }
    }
}

impl Scanner {
    /// Whether the engine is in a state that it can get into. Every engine
    /// that [`Scanner::new`] made is, whatever steps it has taken.
    pub open spec fn wf(&self) -> bool {
        self@.wf()
    }

    /// An engine at the start of the stream, with nothing found.
    pub fn new(config: &Config) -> (scanner: Scanner)
        requires
            config.wf(),
        ensures
            scanner.wf(),
            scanner@ == ScannerView::start(
                config.block_size as nat,
                config.max_chunk_size as nat,
                config.dry_run,
            ),
    {
        Scanner {
            block_size: config.block_size,
            max_chunk_size: config.max_chunk_size,
            dry_run: config.dry_run,
            phase: Phase::Scanning,
            cursor: 0,
            copied: 0,
            pending: None,
            recovered: 0,
        }
    }

    /// What the engine is doing.
    pub fn phase(&self) -> (phase: Phase)
        ensures
            phase == self@.phase,
    {
        self.phase
    }

    /// The scan cursor: a multiple of the block size that never decreases.
    pub fn cursor(&self) -> (cursor: u64)
        ensures
            cursor == self@.cursor,
    {
        self.cursor
    }

    /// Number of bytes of the current file that were recovered so far.
    pub fn copied(&self) -> (copied: u64)
        ensures
            copied == self@.copied,
    {
        self.copied
    }

    /// Number of files found so far.
    pub fn recovered(&self) -> (recovered: u64)
        ensures
            recovered == self@.recovered,
    {
        self.recovered
    }

    /// What the engine needs read before its next step.
    pub fn request(&self) -> (request: Request)
        requires
            self.wf(),
        ensures
            request == self@.request(),
    {
        match self.phase {
            Phase::Finished => Request::Done,
            _ => {
                let len = match self.pending {
                    Some(h) => h.size as usize,
                    None => HEADER_LEN,
                };
                Request::Read { offset: self.cursor + self.copied, len }
            },
        }
    }

    /// Ends the scan.
    fn finish(&mut self)
        requires
            old(self).wf(),
        ensures
            final(self).wf(),
            final(self)@ == old(self)@.finish(),
    {
        self.phase = Phase::Finished;
        self.pending = None;
    }

    /// Moves the cursor on by one block, or ends the scan where there is no
    /// offset for the next block.
    fn skip_block(&mut self)
        requires
            old(self).wf(),
            old(self)@.phase is Scanning,
        ensures
            final(self).wf(),
            final(self)@ == old(self)@.skip_block(),
    {
        match self.cursor.checked_add(self.block_size) {
            Some(cursor) => {
                proof {
                    lemma_step_stays_aligned(self.cursor as nat, 1, self.block_size as nat);
                }
                self.cursor = cursor;
                self.pending = None;
            },
            None => self.finish(),
        }
    }

    /// Goes back to scanning, behind the blocks that the file reaches into.
    fn end_episode(&mut self)
        requires
            old(self).wf(),
            old(self)@.phase is Recovering,
        ensures
            final(self).wf(),
            final(self)@ == old(self)@.end_episode(),
    {
        proof {
            lemma_blocks_spanned(self.copied as nat, self.block_size as nat);
        }
        let blocks: u64 = (self.copied - 1) / self.block_size + 1;
        let resume = match blocks.checked_mul(self.block_size) {
            Some(span) => self.cursor.checked_add(span),
            None => None,
        };
        proof {
            assert(blocks * self.block_size == self.block_size * blocks) by (nonlinear_arith);
            lemma_step_stays_aligned(self.cursor as nat, blocks as nat, self.block_size as nat);
        }
        match resume {
            Some(cursor) => {
                self.phase = Phase::Scanning;
                self.cursor = cursor;
                self.copied = 0;
                self.pending = None;
            },
            None => self.finish(),
        }
    }

    /// Takes what the stream held at the place that [`Scanner::request`]
    /// named: `data` begins with those bytes, and is shorter than what was
    /// asked for only where the stream ends. Moves the engine on and says what
    /// is to be done with the bytes.
    pub fn step(&mut self, data: &[u8]) -> (effect: Effect)
        requires
            old(self).wf(),
        ensures
            final(self).wf(),
            final(self)@ == old(self)@.next(data@),
            effect == old(self)@.effect(data@),
    {
        if let Phase::Finished = self.phase {
            return Effect::Nothing;
        }
        let recovering = if let Phase::Recovering = self.phase {
            true
        } else {
            false
        };
        let position: u64 = self.cursor + self.copied;
        let wanted: u64 = match self.pending {
            Some(h) => h.size as u64,
            None => HEADER_LEN as u64,
        };
        if data.len() as u64 >= wanted && position <= u64::MAX - wanted {
            match self.pending {
                None => {
                    let header = BoxHeader::parse(data).unwrap();
                    if header.is_box(self.max_chunk_size) {
                        self.pending = Some(header);
                        Effect::Nothing
                    } else if recovering {
                        self.end_episode();
                        self.writing(Effect::Close)
                    } else {
                        self.skip_block();
                        Effect::Nothing
                    }
                },
                Some(header) => {
                    let len = header.size as usize;
                    if recovering {
                        self.copied = self.copied + wanted;
                        self.pending = None;
                        self.writing(Effect::Append { len })
                    } else if starts_container(&header.atom_type, &data[0..len]) {
                        let ordinal = self.recovered;
                        self.phase = Phase::Recovering;
                        self.copied = wanted;
                        self.recovered = ordinal + 1;
                        self.pending = None;
                        self.writing(Effect::Create { ordinal, len })
                    } else {
                        self.skip_block();
                        Effect::Nothing
                    }
                },
            }
        } else if recovering {
            self.end_episode();
            self.writing(Effect::Close)
        } else {
            self.finish();
            Effect::Nothing
        }
    }

    /// What becomes of `effect` under the run's settings: a dry run writes
    /// nothing.
    fn writing(&self, effect: Effect) -> (done: Effect)
        ensures
            done == if self.dry_run {
                Effect::Nothing
            } else {
                effect
            },
    {
        if self.dry_run {
            Effect::Nothing
        } else {
            effect
        }
    }
}

/// Counting blocks from the last byte recovered gives the number of blocks
/// that the recovered bytes reach into.
proof fn lemma_blocks_spanned(len: nat, block_size: nat)
    requires
        len > 0,
        block_size > 0,
    ensures
        blocks_spanned(len, block_size) == (len - 1) / (block_size as int) + 1,
        1 <= blocks_spanned(len, block_size) <= len,
{
    let d = block_size as int;
    vstd::arithmetic::div_mod::lemma_div_plus_one(len - 1, d);
}

/// A whole number of blocks further on, the cursor is still on a block
/// boundary.
proof fn lemma_step_stays_aligned(cursor: nat, blocks: nat, block_size: nat)
    requires
        block_size > 0,
        cursor % block_size == 0,
    ensures
        (cursor + block_size * blocks) % block_size == 0,
        blocks >= 1 ==> block_size * blocks >= block_size,
        block_size * 1 == block_size,
{
    vstd::arithmetic::div_mod::lemma_mod_multiples_vanish(
        blocks as int,
        cursor as int,
        block_size as int,
    );
    assert(blocks >= 1 ==> block_size * blocks >= block_size) by (nonlinear_arith)
        requires
            block_size > 0,
    ;
}

/// After `len` bytes were recovered from `cursor`, the scan resumes at
/// `cursor + block_size * ceil(len / block_size)`. That is the first block
/// boundary at or behind the end of what was recovered: no recovered byte is
/// scanned again, and no block that holds none of them is passed over.
pub proof fn lemma_next_cursor(cursor: nat, len: nat, block_size: nat)
    requires
        block_size > 0,
        len > 0,
    ensures
        cursor + len <= next_cursor(cursor, len, block_size) < cursor + len + block_size,
        cursor % block_size == 0 ==> next_cursor(cursor, len, block_size) % block_size == 0,
{
    let d = block_size as int;
    let blocks = blocks_spanned(len, block_size);
    lemma_blocks_spanned(len, block_size);
    if cursor % block_size == 0 {
        lemma_step_stays_aligned(cursor, blocks, block_size);
    }
    assert(block_size * blocks == d * ((len - 1) / d) + d) by (nonlinear_arith)
        requires
            blocks == (len - 1) / d + 1,
            d == block_size,
    ;
}

/// A step keeps the engine well-formed and its settings as they are. The
/// scan cursor stays on a block boundary and never moves back, and no file
/// that was found is forgotten.
pub proof fn lemma_next_wf(s: ScannerView, data: Seq<u8>)
    requires
        s.wf(),
    ensures
        s.next(data).wf(),
        s.next(data).block_size == s.block_size,
        s.next(data).max_chunk_size == s.max_chunk_size,
        s.next(data).dry_run == s.dry_run,
        s.next(data).cursor % s.block_size == 0,
        s.next(data).cursor >= s.cursor,
        s.next(data).recovered >= s.recovered,
{
    if !(s.phase is Finished) {
        lemma_step_stays_aligned(s.cursor, 1, s.block_size);
        if s.phase is Recovering {
            lemma_next_cursor(s.cursor, s.copied, s.block_size);
        }
    }
}

/// Every step brings the scan nearer to its end: the engine cannot run on
/// for ever, whatever it is fed.
pub proof fn lemma_step_progress(s: ScannerView, data: Seq<u8>)
    requires
        s.wf(),
        !(s.phase is Finished),
    ensures
        s.next(data).effort() < s.effort(),
{
    if s.phase is Recovering {
        lemma_next_cursor(s.cursor, s.copied, s.block_size);
    }
}

/// What the effects tell of the engine. A file is created where an episode
/// begins, with the box that begins it and a number one above that of the
/// file before; a box is appended where the episode goes on; the file is
/// closed where the episode ends. What is written is what was copied, and it
/// is at hand in the data. A dry run has no effects.
pub proof fn lemma_effect(s: ScannerView, data: Seq<u8>)
    requires
        s.wf(),
    ensures
        ({
            let t = s.next(data);
            let effect = s.effect(data);
            &&& effect.len() <= data.len()
            &&& s.dry_run ==> effect is Nothing
            &&& effect matches Effect::Create { ordinal, len } ==> {
                &&& s.phase is Scanning
                &&& t.phase is Recovering
                &&& ordinal == s.recovered
                &&& t.recovered == s.recovered + 1
                &&& t.cursor == s.cursor
                &&& t.copied == len
            }
            &&& effect matches Effect::Append { len } ==> {
                &&& s.phase is Recovering
                &&& t.phase is Recovering
                &&& t.cursor == s.cursor
                &&& t.copied == s.copied + len
            }
            &&& effect is Close ==> s.phase is Recovering && !(t.phase is Recovering)
            &&& s.phase is Recovering && !(t.phase is Recovering) && !s.dry_run ==> effect is Close
            &&& effect is Nothing && !s.dry_run ==> {
                &&& s.phase is Recovering <==> t.phase is Recovering
                &&& t.phase is Recovering ==> t.cursor == s.cursor && t.copied == s.copied
            }
        }),
{
}

/// The count of files goes up by one where an episode begins, before a byte
/// of the file is written, and nowhere else.
pub proof fn lemma_counted_once(s: ScannerView, data: Seq<u8>)
    requires
        s.wf(),
    ensures
        s.next(data).recovered == if s.phase is Scanning && s.next(data).phase is Recovering {
            s.recovered + 1
        } else {
            s.recovered
        },
{
}

/// Reading a header consumes nothing: whether the header is that of a box
/// or not, the box, if there is one, is read from where its header was
/// read, and an episode that goes on goes on from there.
pub proof fn lemma_header_is_peeked(s: ScannerView, data: Seq<u8>)
    requires
        s.wf(),
        !(s.phase is Finished),
        s.pending is None,
        s.delivered(data),
    ensures
        header_of(data).is_box(s.max_chunk_size) ==> {
            &&& s.next(data).pending == Some(header_of(data))
            &&& s.next(data).phase == s.phase
            &&& s.next(data).position() == s.position()
            &&& s.next(data).request() == (Request::Read {
                offset: s.position() as u64,
                len: header_of(data).size as usize,
            })
        },
        !header_of(data).is_box(s.max_chunk_size) ==> s.next(data) == s.on_not_a_box(),
{
}

/// Once a file of `copied` bytes that began at `cursor` is complete, the
/// scan resumes at `cursor + block_size * ceil(copied / block_size)`,
/// whether the file ended with the stream or with bytes that are no box.
pub proof fn lemma_episode_resumes(s: ScannerView, data: Seq<u8>)
    requires
        s.wf(),
        s.phase is Recovering,
        !(s.next(data).phase is Recovering),
    ensures
        ({
            let resume = s.cursor + s.block_size * blocks_spanned(s.copied, s.block_size);
            &&& s.next(data) == s.end_episode()
            &&& resume <= u64::MAX ==> {
                &&& s.next(data).phase is Scanning
                &&& s.next(data).cursor == resume
                &&& s.next(data).position() == resume
            }
            &&& resume > u64::MAX ==> s.next(data).phase is Finished
            &&& s.position() <= resume < s.position() + s.block_size
            &&& resume % s.block_size == 0
        }),
{
    lemma_next_cursor(s.cursor, s.copied, s.block_size);
}

/// A dry run steps as the run that writes does. Whatever the engine is
/// handed, the two settings lead to states that differ in nothing but the
/// setting itself, and ask for the same bytes. The dry run has no effect:
/// it creates no file and writes nothing.
pub proof fn lemma_dry_run_same_step(s: ScannerView, data: Seq<u8>)
    ensures
        ({
            let dry = ScannerView { dry_run: true, ..s };
            let wet = ScannerView { dry_run: false, ..s };
            &&& dry.next(data) == ScannerView { dry_run: true, ..wet.next(data) }
            &&& dry.request() == wet.request()
            &&& dry.effect(data) is Nothing
        }),
{
}

} // verus!
