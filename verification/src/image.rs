//! Recovery from a stream that is held in memory.
//!
//! [`recover`] feeds the engine from a slice of bytes and collects what the
//! engine says is to be written. What it hands back is what the scan of the
//! slice recovers, as [`crate::stream`] states it.

use crate::config::Config;
use crate::mov::{header_of, is_container_start, HEADER_LEN};
use crate::scanner::{
    lemma_next_wf, lemma_step_progress, next_cursor, Effect, Phase, Request, Scanner,
    ScannerView,
};
use crate::stream::{episode_len, is_file_start, probe, regions, Region};
use vstd::prelude::*;
use vstd::slice::{slice_subrange, slice_to_vec};

verus! {

/// What a read of `len` bytes at `offset` hands over: those bytes, or as many
/// of them as the stream has.
pub open spec fn read_at(src: Seq<u8>, offset: nat, len: nat) -> Seq<u8> {
    if offset >= src.len() {
        Seq::empty()
    } else if offset + len >= src.len() {
        src.subrange(offset as int, src.len() as int)
    } else {
        src.subrange(offset as int, (offset + len) as int)
    }
}

/// A file that was recovered from a stream.
#[derive(Clone, Debug)]
pub struct RecoveredFile {
    /// The name that the file is to have.
    pub name: String,
    /// Where in the stream the file began.
    pub offset: u64,
    /// What the file holds.
    pub data: Vec<u8>,
}

impl RecoveredFile {
    /// Whether this is output file number `ordinal` of a run under `config`
    /// and holds, byte for byte, the stretch `region` of `src`.
    pub open spec fn holds(&self, src: Seq<u8>, config: &Config, ordinal: nat, region: Region) -> bool {
        &&& self.name@ == config.spec_output_name(ordinal)
        &&& self.offset == region.start
        &&& self.data@ == src.subrange(region.start as int, (region.start + region.len) as int)
    }
}

/// What a run has recovered.
#[derive(Clone, Debug)]
pub struct Report {
    /// Number of files that were found.
    pub recovered: u64,
    /// The files that were written: all that were found, or none in a dry
    /// run.
    pub files: Vec<RecoveredFile>,
}

/// The files that a run under `config` finds in `src`.
pub open spec fn found(src: Seq<u8>, config: &Config) -> Seq<Region> {
    regions(src, config.block_size as nat, config.max_chunk_size as nat, 0)
}

/// Reads `len` bytes of `source` at `offset`, or as many of them as there
/// are.
pub fn read(source: &[u8], offset: u64, len: usize) -> (data: &[u8])
    ensures
        data@ == read_at(source@, offset as nat, len as nat),
{
    let n = source.len();
    if offset >= n as u64 {
        return slice_subrange(source, 0, 0);
    }
    let start = offset as usize;
    let end = if len >= n - start {
        n
    } else {
        start + len
    };
    slice_subrange(source, start, end)
}

/// What has been written when the engine is in state `s` and has completed
/// the files `done`: those files, and the part of the current one that was
/// copied. A dry run writes nothing.
spec fn written(
    files: Seq<RecoveredFile>,
    current: RecoveredFile,
    s: ScannerView,
    src: Seq<u8>,
    config: &Config,
    done: Seq<Region>,
) -> bool {
    if config.dry_run {
        files.len() == 0
    } else {
        &&& files.len() == done.len()
        &&& forall|i: int|
            0 <= i < files.len() ==> (#[trigger] files[i]).holds(src, config, i as nat, done[i])
        &&& s.phase is Recovering ==> current.holds(
            src,
            config,
            done.len(),
            Region { start: s.cursor, len: s.copied },
        )
    }
}

/// Whether `files` and `current` have become `files_after` and
/// `current_after` by carrying out `effect` on the `data` that was read at
/// `offset`.
spec fn carried_out(
    effect: Effect,
    data: Seq<u8>,
    offset: nat,
    config: &Config,
    files: Seq<RecoveredFile>,
    current: RecoveredFile,
    files_after: Seq<RecoveredFile>,
    current_after: RecoveredFile,
) -> bool {
    match effect {
        Effect::Create { ordinal, len } => {
            &&& files_after == files
            &&& current_after.name@ == config.spec_output_name(ordinal as nat)
            &&& current_after.offset == offset
            &&& current_after.data@ == data.subrange(0, len as int)
        },
        Effect::Append { len } => {
            &&& files_after == files
            &&& current_after.name == current.name
            &&& current_after.offset == current.offset
            &&& current_after.data@ == current.data@ + data.subrange(0, len as int)
        },
        Effect::Close => files_after == files.push(current),
        Effect::Nothing => files_after == files && current_after == current,
    }
}

/// Carrying out the effect of each step writes what the scan recovers.
proof fn lemma_step_written(
    s: ScannerView,
    src: Seq<u8>,
    config: &Config,
    done: Seq<Region>,
    files: Seq<RecoveredFile>,
    current: RecoveredFile,
    files_after: Seq<RecoveredFile>,
    current_after: RecoveredFile,
)
    requires
        s.wf(),
        src.len() <= u64::MAX,
        s.dry_run == config.dry_run,
        !(s.phase is Finished),
        on_track(s, src, done),
        written(files, current, s, src, config, done),
        carried_out(
            s.effect(read_at(src, s.position(), s.wanted())),
            read_at(src, s.position(), s.wanted()),
            s.position(),
            config,
            files,
            current,
            files_after,
            current_after,
        ),
    ensures
        ({
            let t = s.next(read_at(src, s.position(), s.wanted()));
            written(files_after, current_after, t, src, config, completed(s, t, done))
        }),
{
    let data = read_at(src, s.position(), s.wanted());
    let t = s.next(data);
    let effect = s.effect(data);
    if !config.dry_run {
        match effect {
            Effect::Create { ordinal, len } => {
                assert(data.subrange(0, len as int) =~= src.subrange(
                    t.cursor as int,
                    t.position() as int,
                ));
            },
            Effect::Append { len } => {
                assert(current.data@ + data.subrange(0, len as int) =~= src.subrange(
                    t.cursor as int,
                    t.position() as int,
                ));
            },
            _ => {},
        }
    }
}

/// Does to `files` and `current` what `effect` says is to be done with
/// `data`, which was read at `offset`.
fn carry_out(
    effect: Effect,
    data: &[u8],
    offset: u64,
    config: &Config,
    files: &mut Vec<RecoveredFile>,
    current: &mut RecoveredFile,
)
    requires
        effect.len() <= data@.len(),
    ensures
        carried_out(
            effect,
            data@,
            offset as nat,
            config,
            old(files)@,
            *old(current),
            final(files)@,
            *final(current),
        ),
{
    match effect {
        Effect::Create { ordinal, len } => {
            *current =
            RecoveredFile {
                name: config.output_name(ordinal),
                offset,
                data: slice_to_vec(slice_subrange(data, 0, len)),
            };
        },
        Effect::Append { len } => {
            let ghost copied = current.data@;
            let piece = slice_subrange(data, 0, len);
            current.data.extend_from_slice(piece);
            assert(current.data@ =~= copied + piece@);
        },
        Effect::Close => {
            let mut closed = RecoveredFile { name: String::new(), offset: 0, data: Vec::new() };
            core::mem::swap(current, &mut closed);
            files.push(closed);
        },
        Effect::Nothing => {},
    }
}

/// Scans `source` as the engine scans a stream, and hands back the files
/// that it recovers.
pub fn recover(source: &[u8], config: &Config) -> (report: Report)
    requires
        config.wf(),
    ensures
        report.recovered == found(source@, config).len(),
        report.files@.len() == if config.dry_run {
            0
        } else {
            found(source@, config).len()
        },
        forall|i: int|
            0 <= i < report.files@.len() ==> (#[trigger] report.files@[i]).holds(
                source@,
                config,
                i as nat,
                found(source@, config)[i],
            ),
{
    let ghost src = source@;
    let ghost mut done: Seq<Region> = Seq::empty();
    let size = source.len();
    let mut scanner = Scanner::new(config);
    let mut files: Vec<RecoveredFile> = Vec::new();
    let mut current = RecoveredFile { name: String::new(), offset: 0, data: Vec::new() };
    loop
        invariant
            src == source@,
            src.len() == size,
            scanner.wf(),
            scanner@.block_size == config.block_size,
            scanner@.max_chunk_size == config.max_chunk_size,
            scanner@.dry_run == config.dry_run,
            on_track(scanner@, src, done),
            written(files@, current, scanner@, src, config, done),
        ensures
            scanner@.phase is Finished,
        decreases scanner@.effort(),
    {
        match scanner.request() {
            Request::Done => {
                break ;
            },
            Request::Read { offset, len } => {
                let data = read(source, offset, len);
                let ghost before = scanner@;
                let ghost files_before = files@;
                let ghost current_before = current;
                proof {
                    lemma_step_on_track(before, src, done);
                    lemma_step_progress(before, data@);
                }
                let effect = scanner.step(data);
                carry_out(effect, data, offset, config, &mut files, &mut current);
                proof {
                    lemma_step_written(
                        before,
                        src,
                        config,
                        done,
                        files_before,
                        current_before,
                        files@,
                        current,
                    );
                    done = completed(before, scanner@, done);
                }
            },
        }
    }
    Report { recovered: scanner.recovered(), files }
}

/// Whether an engine in state `s` that is fed from `src`, and has completed
/// the files `done`, stands where the scan of `src` stands after those files.
pub open spec fn on_track(s: ScannerView, src: Seq<u8>, done: Seq<Region>) -> bool {
    let all = regions(src, s.block_size, s.max_chunk_size, 0);
    let rest = regions(src, s.block_size, s.max_chunk_size, s.cursor);
    &&& s.pending matches Some(header) ==> {
        &&& s.position() + HEADER_LEN <= src.len()
        &&& header == header_of(
            src.subrange(s.position() as int, (s.position() + HEADER_LEN) as int),
        )
    }
    &&& match s.phase {
        Phase::Finished => done == all && s.recovered == done.len(),
        Phase::Scanning => done + rest == all && s.recovered == done.len(),
        Phase::Recovering => {
            &&& done + rest == all
            &&& s.recovered == done.len() + 1
            &&& is_file_start(src, s.cursor, s.max_chunk_size)
            &&& s.position() <= src.len()
            &&& episode_len(src, s.cursor, s.max_chunk_size) == s.copied + episode_len(
                src,
                s.position(),
                s.max_chunk_size,
            )
        },
    }
}

/// The files completed once an engine that had completed `done` has gone
/// from `s` to `t`: one more where the step ended an episode.
pub open spec fn completed(s: ScannerView, t: ScannerView, done: Seq<Region>) -> Seq<Region> {
    if s.phase is Recovering && !(t.phase is Recovering) {
        done.push(Region { start: s.cursor, len: s.copied })
    } else {
        done
    }
}

/// Where no file starts at the cursor, the scan goes on at the next block.
proof fn lemma_block_skipped(s: ScannerView, src: Seq<u8>, done: Seq<Region>)
    requires
        s.wf(),
        src.len() <= u64::MAX,
        on_track(s, src, done),
        s.phase is Scanning,
        !(probe(src, s.cursor, s.max_chunk_size) is Truncated),
        !is_file_start(src, s.cursor, s.max_chunk_size),
    ensures
        on_track(s.skip_block(), src, done),
{
    let rest = regions(src, s.block_size, s.max_chunk_size, s.cursor);
    assert(rest == regions(src, s.block_size, s.max_chunk_size, s.cursor + s.block_size));
}

/// Where no whole box follows what was copied, the file is complete, and the
/// scan goes on behind it.
proof fn lemma_episode_ends(s: ScannerView, src: Seq<u8>, done: Seq<Region>)
    requires
        s.wf(),
        src.len() <= u64::MAX,
        on_track(s, src, done),
        s.phase is Recovering,
        !(probe(src, s.position(), s.max_chunk_size) is Chunk),
    ensures
        on_track(s.end_episode(), src, done.push(Region { start: s.cursor, len: s.copied })),
{
    let rest = regions(src, s.block_size, s.max_chunk_size, s.cursor);
    let region = Region { start: s.cursor, len: s.copied };
    let resume = next_cursor(s.cursor, s.copied, s.block_size);
    assert(done.push(region) + regions(src, s.block_size, s.max_chunk_size, resume) =~= done
        + rest);
}

/// An engine that is fed what the stream holds follows the scan of the
/// stream: each step leaves it on track.
pub proof fn lemma_step_on_track(s: ScannerView, src: Seq<u8>, done: Seq<Region>)
    requires
        s.wf(),
        src.len() <= u64::MAX,
        on_track(s, src, done),
        !(s.phase is Finished),
    ensures
        ({
            let t = s.next(read_at(src, s.position(), s.wanted()));
            on_track(t, src, completed(s, t, done))
        }),
{
    let pos = s.position();
    let data = read_at(src, pos, s.wanted());
    if !s.delivered(data) {
        if s.phase is Recovering {
            lemma_episode_ends(s, src, done);
        }
    } else {
        match s.pending {
            None => {
                if !header_of(data).is_box(s.max_chunk_size) {
                    if s.phase is Recovering {
                        lemma_episode_ends(s, src, done);
                    } else {
                        lemma_block_skipped(s, src, done);
                    }
                }
            },
            Some(header) => {
                let chunk = data.subrange(0, header.size as int);
                assert(chunk =~= src.subrange(pos as int, (pos + header.size) as int));
                if s.phase is Scanning && !is_container_start(header.atom_type, chunk) {
                    lemma_block_skipped(s, src, done);
                }
            },
        }
    }
}

/// What is written is what the stream holds: the bytes of a step that
/// creates a file or appends to one are the bytes of the stream at the
/// stream position, and the next step goes on right behind them. A file is
/// therefore one stretch of the stream, byte for byte, whoever carries out
/// the effects.
pub proof fn lemma_written_from_stream(s: ScannerView, src: Seq<u8>)
    requires
        s.wf(),
        src.len() <= u64::MAX,
    ensures
        ({
            let data = read_at(src, s.position(), s.wanted());
            let len = s.effect(data).len();
            len > 0 ==> {
                &&& s.position() + len <= src.len()
                &&& data.subrange(0, len as int) == src.subrange(
                    s.position() as int,
                    (s.position() + len) as int,
                )
                &&& s.next(data).position() == s.position() + len
            }
        }),
{
}

/// The state of an engine that started in state `s` and took `steps` steps,
/// each fed with what the stream holds where the engine asked.
pub open spec fn run(s: ScannerView, src: Seq<u8>, steps: nat) -> ScannerView
    decreases steps,
{
    if steps == 0 {
        s
    } else {
        run(s.next(read_at(src, s.position(), s.wanted())), src, (steps - 1) as nat)
    }
}

/// An engine that is fed what the stream holds comes to an end, and has then
/// found just the files that the scan of the stream recovers.
pub proof fn lemma_run_recovers(s: ScannerView, src: Seq<u8>, done: Seq<Region>, steps: nat)
    requires
        s.wf(),
        src.len() <= u64::MAX,
        on_track(s, src, done),
        steps >= s.effort(),
    ensures
        run(s, src, steps).phase is Finished,
        run(s, src, steps).recovered == regions(src, s.block_size, s.max_chunk_size, 0).len(),
    decreases steps,
{
    if steps > 0 {
        let data = read_at(src, s.position(), s.wanted());
        let t = s.next(data);
        lemma_next_wf(s, data);
        if s.phase is Finished {
            lemma_run_recovers(t, src, done, (steps - 1) as nat);
        } else {
            lemma_step_on_track(s, src, done);
            lemma_step_progress(s, data);
            lemma_run_recovers(t, src, completed(s, t, done), (steps - 1) as nat);
        }
    }
}

/// A scan of a stream comes to an end and finds the files of the stream,
/// dry run or not.
pub proof fn lemma_scan_recovers(
    src: Seq<u8>,
    block_size: nat,
    max_chunk_size: nat,
    dry_run: bool,
    steps: nat,
)
    requires
        0 < block_size <= u64::MAX,
        max_chunk_size <= u64::MAX,
        src.len() <= u64::MAX,
        steps >= ScannerView::start(block_size, max_chunk_size, dry_run).effort(),
    ensures
        ({
            let end = run(ScannerView::start(block_size, max_chunk_size, dry_run), src, steps);
            &&& end.phase is Finished
            &&& end.recovered == regions(src, block_size, max_chunk_size, 0).len()
        }),
{
    lemma_run_recovers(
        ScannerView::start(block_size, max_chunk_size, dry_run),
        src,
        Seq::empty(),
        steps,
    );
}

/// A dry run goes the way of the run that writes: after any number of steps
/// the two engines differ in nothing but the setting itself, so that cursor,
/// phase and count of files are the same all along.
pub proof fn lemma_dry_run_same_way(s: ScannerView, src: Seq<u8>, steps: nat)
    ensures
        run(ScannerView { dry_run: true, ..s }, src, steps) == (ScannerView {
            dry_run: true,
            ..run(ScannerView { dry_run: false, ..s }, src, steps)
        }),
    decreases steps,
{
    if steps > 0 {
        let wet = ScannerView { dry_run: false, ..s };
        let data = read_at(src, s.position(), s.wanted());
        lemma_dry_run_same_way(wet.next(data), src, (steps - 1) as nat);
    }
}

} // verus!
