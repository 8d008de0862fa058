//! Sequential consumption over the two file layouts, as a state machine.
//!
//! The streaming layout is read through a cursor that must first read the
//! file header; the block layout is read one block at a time and walked by an
//! index. Either cursor is opened on the first call, not before. The machine
//! decides what the caller has to do next (`CursorAction`); the caller does
//! it against the file and reports what happened (`CursorEvent`).

use crate::counters::KmerCounter;
use crate::error::ReaderError;
use vstd::prelude::*;

verus! {

/// The next thing to do against the file to serve a consumption call.
#[derive(Debug, PartialEq, Eq, Structural, Clone, Copy)]
pub enum CursorAction {
    /// Open the streaming cursor and read the file header.
    OpenStream,
    /// Pull the next record from the streaming cursor and decode it.
    PullStreamRecord,
    /// Read the next block of the block layout into memory.
    ReadBlock,
    /// Decode the record at this index of the block in memory.
    TakeBlockRecord(usize),
    /// The file is exhausted: the call ends with no record.
    SignalExhausted,
}

/// What happened when the caller did a `CursorAction`.
#[derive(Debug, PartialEq, Eq, Structural, Clone, Copy)]
pub enum CursorEvent {
    /// The streaming cursor is open and its header valid.
    StreamOpened,
    /// The streaming cursor has no further record.
    StreamEnded,
    /// A block was read: whether any data came, and how many records it holds.
    BlockRead { has_data: bool, n_records: usize },
    /// A record was decoded and handed out.
    Produced,
    /// Pulling or decoding a record failed.
    Failed,
}

/// The state of sequential consumption over one of the two layouts.
#[derive(Debug, PartialEq, Eq, Structural, Clone, Copy)]
pub enum ReaderVariant {
    /// The streaming layout.
    Standard { opened: bool, exhausted: bool },
    /// The block layout: the record count of the block in memory, if any, and
    /// the index of the next record to take from it.
    Vbq { block: Option<usize>, block_position: usize, exhausted: bool },
}

/// Whether a state is exhausted.
pub open spec fn exhausted(s: ReaderVariant) -> bool {
    match s {
        ReaderVariant::Standard { exhausted, .. } => exhausted,
        ReaderVariant::Vbq { exhausted, .. } => exhausted,
    }
}

/// What a consumption call in state `s` must do next.
pub open spec fn action_of(s: ReaderVariant) -> CursorAction {
    match s {
        ReaderVariant::Standard { opened, exhausted } => {
            if exhausted {
                CursorAction::SignalExhausted
            } else if !opened {
                CursorAction::OpenStream
            } else {
                CursorAction::PullStreamRecord
            }
        },
        ReaderVariant::Vbq { block, block_position, exhausted } => {
            if exhausted {
                CursorAction::SignalExhausted
            } else {
                match block {
                    Some(n) => if block_position < n {
                        CursorAction::TakeBlockRecord(block_position)
                    } else {
                        CursorAction::ReadBlock
                    },
                    None => CursorAction::ReadBlock,
                }
            }
        },
    }
}

/// The state after event `e` in state `s`. An event that does not answer the
/// action of `s` leaves it as it is; an exhausted state stays as it is.
pub open spec fn next_state(s: ReaderVariant, e: CursorEvent) -> ReaderVariant {
    if exhausted(s) {
        s
    } else {
        match (action_of(s), e) {
            (CursorAction::OpenStream, CursorEvent::StreamOpened) => ReaderVariant::Standard {
                opened: true,
                exhausted: false,
            },
            (CursorAction::PullStreamRecord, CursorEvent::StreamEnded) => ReaderVariant::Standard {
                opened: true,
                exhausted: true,
            },
            (CursorAction::ReadBlock, CursorEvent::BlockRead { has_data, n_records }) => {
                if !has_data || n_records == 0 {
                    ReaderVariant::Vbq { block: None, block_position: 0, exhausted: true }
                } else {
                    ReaderVariant::Vbq { block: Some(n_records), block_position: 0, exhausted: false }
                }
            },
            (CursorAction::TakeBlockRecord(i), CursorEvent::Produced) => ReaderVariant::Vbq {
                block: s->Vbq_block,
                block_position: (i + 1) as usize,
                exhausted: false,
            },
            (CursorAction::TakeBlockRecord(i), CursorEvent::Failed) => ReaderVariant::Vbq {
                block: s->Vbq_block,
                block_position: (i + 1) as usize,
                exhausted: false,
            },
            _ => s,
        }
    }
}

impl ReaderVariant {
    /// A state over the block layout (`is_vbq`) or the streaming one, with no
    /// cursor opened yet.
    pub fn new(is_vbq: bool) -> (r: Self)
        ensures
            r == ReaderVariant::new_spec(is_vbq),
    {
        if is_vbq {
            ReaderVariant::Vbq { block: None, block_position: 0, exhausted: false }
        } else {
            ReaderVariant::Standard { opened: false, exhausted: false }
        }
    }

    /// What the next consumption call must do.
    pub fn next_action(&self) -> (r: CursorAction)
        ensures
            r == action_of(*self),
    {
        match *self {
            ReaderVariant::Standard { opened, exhausted } => {
                if exhausted {
                    CursorAction::SignalExhausted
                } else if !opened {
                    CursorAction::OpenStream
                } else {
                    CursorAction::PullStreamRecord
                }
            },
            ReaderVariant::Vbq { block, block_position, exhausted } => {
                if exhausted {
                    CursorAction::SignalExhausted
                } else {
                    match block {
                        Some(n) => if block_position < n {
                            CursorAction::TakeBlockRecord(block_position)
                        } else {
                            CursorAction::ReadBlock
                        },
                        None => CursorAction::ReadBlock,
                    }
                }
            },
        }
    }

    /// Takes in what happened when the caller did the next action.
    pub fn apply(&mut self, e: CursorEvent)
        ensures
            *final(self) == next_state(*old(self), e),
    {
        if self.is_exhausted() {
            return;
        }
        let a = self.next_action();
        match (a, e) {
            (CursorAction::OpenStream, CursorEvent::StreamOpened) => {
                *self = ReaderVariant::Standard { opened: true, exhausted: false };
            },
            (CursorAction::PullStreamRecord, CursorEvent::StreamEnded) => {
                *self = ReaderVariant::Standard { opened: true, exhausted: true };
            },
            (CursorAction::ReadBlock, CursorEvent::BlockRead { has_data, n_records }) => {
                if !has_data || n_records == 0 {
                    *self = ReaderVariant::Vbq { block: None, block_position: 0, exhausted: true };
                } else {
                    *self = ReaderVariant::Vbq { block: Some(n_records), block_position: 0, exhausted: false };
                }
            },
            (CursorAction::TakeBlockRecord(i), CursorEvent::Produced)
            | (CursorAction::TakeBlockRecord(i), CursorEvent::Failed) => {
                if let ReaderVariant::Vbq { block, .. } = *self {
                    *self = ReaderVariant::Vbq { block, block_position: i + 1, exhausted: false };
                }
            },
            _ => {},
        }
    }

    /// Whether the file has been read to its end.
    pub fn is_exhausted(&self) -> (r: bool)
        ensures
            r == exhausted(*self),
    {
        match *self {
            ReaderVariant::Standard { exhausted, .. } => exhausted,
            ReaderVariant::Vbq { exhausted, .. } => exhausted,
        }
    }

    /// Whether the state is over the block layout.
    pub fn is_vbq(&self) -> (r: bool)
        ensures
            r == (*self is Vbq),
    {
        match *self {
            ReaderVariant::Standard { .. } => false,
            ReaderVariant::Vbq { .. } => true,
        }
    }

    /// A state exists only while its reader is open.
    pub fn is_open(&self) -> (r: bool)
        ensures
            r,
    {
        true
    }

    /// Drops the cursor or the block in memory: the next call starts afresh.
    pub fn close(&mut self)
        ensures
            *final(self) == ReaderVariant::new_spec(*old(self) is Vbq),
    {
        *self = ReaderVariant::new(self.is_vbq());
    }

    /// The state `new` gives.
    pub open spec fn new_spec(is_vbq: bool) -> ReaderVariant {
        if is_vbq {
            ReaderVariant::Vbq { block: None, block_position: 0, exhausted: false }
        } else {
            ReaderVariant::Standard { opened: false, exhausted: false }
        }
    }
}

/// A reader of one file: its path, the worker-thread count for whole-file
/// scans, whether the file has the block layout, how many records sequential
/// iteration has handed out, and the iteration state while the reader is open.
pub struct BqReader {
    reader: Option<ReaderVariant>,
    path: String,
    current_index: usize,
    n_threads: usize,
    is_vbq: bool,
}

impl BqReader {
    /// The iteration state; `None` once the reader is closed.
    pub closed spec fn state(&self) -> Option<ReaderVariant> {
        self.reader
    }

    /// The file path.
    pub closed spec fn path_view(&self) -> Seq<char> {
        self.path@
    }

    /// The worker-thread count for whole-file scans.
    pub closed spec fn threads(&self) -> nat {
        self.n_threads as nat
    }

    /// How many records sequential iteration has handed out.
    pub closed spec fn index(&self) -> nat {
        self.current_index as nat
    }

    /// Whether the file has the block layout.
    pub closed spec fn vbq(&self) -> bool {
        self.is_vbq
    }

    /// A reader over `path`, open, with no record handed out yet. The thread
    /// count defaults to one and is never below one.
    pub fn new(path: &str, n_threads: Option<usize>, is_vbq: bool) -> (r: Self)
        ensures
            r.state() == Some(ReaderVariant::new_spec(is_vbq)),
            r.path_view() == path@,
            r.threads() == match n_threads {
                Some(n) => if n == 0 {
                    1
                } else {
                    n as nat
                },
                None => 1,
            },
            r.index() == 0,
            r.vbq() == is_vbq,
    {
        let n = match n_threads {
            Some(n) => if n == 0 {
                1
            } else {
                n
            },
            None => 1,
        };
        BqReader {
            reader: Some(ReaderVariant::new(is_vbq)),
            path: path.to_owned(),
            current_index: 0,
            n_threads: n,
            is_vbq,
        }
    }

    /// The file path.
    pub fn path(&self) -> (r: &str)
        ensures
            r@ == self.path_view(),
    {
        self.path.as_str()
    }

    /// The worker-thread count for whole-file scans.
    pub fn n_threads(&self) -> (r: usize)
        ensures
            r == self.threads(),
    {
        self.n_threads
    }

    /// Sets the worker-thread count; a request for zero gives one.
    pub fn set_n_threads(&mut self, n_threads: usize)
        ensures
            final(self).threads() == if n_threads == 0 {
                1
            } else {
                n_threads as nat
            },
            final(self).state() == old(self).state(),
            final(self).path_view() == old(self).path_view(),
            final(self).index() == old(self).index(),
            final(self).vbq() == old(self).vbq(),
    {
        self.n_threads = if n_threads == 0 {
            1
        } else {
            n_threads
        };
    }

    /// How many records sequential iteration has handed out.
    pub fn current_index(&self) -> (r: usize)
        ensures
            r == self.index(),
    {
        self.current_index
    }

    /// Whether the reader is still open.
    pub fn is_open(&self) -> (r: bool)
        ensures
            r == self.state() is Some,
    {
        match &self.reader {
            Some(v) => v.is_open(),
            None => false,
        }
    }

    /// Whether the file has the block layout.
    pub fn is_vbq(&self) -> (r: bool)
        ensures
            r == self.vbq(),
    {
        self.is_vbq
    }

    /// Succeeds while the reader is open.
    pub fn check_open(&self) -> (r: Result<(), ReaderError>)
        ensures
            r is Ok <==> self.state() is Some,
            r matches Err(e) ==> e == ReaderError::Closed,
    {
        match &self.reader {
            Some(_) => Ok(()),
            None => Err(ReaderError::Closed),
        }
    }

    /// Length of a record; the reader does not track it, so an open reader
    /// reports zero.
    pub fn sequence_length(&self) -> (r: Result<usize, ReaderError>)
        ensures
            self.state() is Some ==> r == Ok::<usize, ReaderError>(0),
            self.state() is None ==> r == Err::<usize, ReaderError>(ReaderError::Closed),
    {
        match &self.reader {
            Some(_) => Ok(0),
            None => Err(ReaderError::Closed),
        }
    }

    /// A fresh k-mer counter for a whole-file scan. A `k` of zero is refused
    /// first, before the reader is looked at; then a closed reader is refused.
    pub fn kmer_counter(&self, k: usize) -> (r: Result<KmerCounter, ReaderError>)
        ensures
            r is Ok <==> (k > 0 && self.state() is Some),
            r matches Err(e) ==> e == (if k == 0 {
                ReaderError::InvalidKmerLength
            } else {
                ReaderError::Closed
            }),
            r matches Ok(c) ==> {
                &&& c.well_formed()
                &&& c.k() == k
                &&& c.local() == Map::<Seq<u8>, nat>::empty()
                &&& c.global() == Map::<Seq<u8>, nat>::empty()
                &&& c.local_total() == 0
                &&& c.global_total() == 0
            },
    {
        if k == 0 {
            return Err(ReaderError::InvalidKmerLength);
        }
        self.check_open()?;
        KmerCounter::new(k)
    }

    /// What the next sequential call must do; a closed reader is refused.
    pub fn next_action(&self) -> (r: Result<CursorAction, ReaderError>)
        ensures
            match self.state() {
                Some(s) => r == Ok::<CursorAction, ReaderError>(action_of(s)),
                None => r == Err::<CursorAction, ReaderError>(ReaderError::Closed),
            },
    {
        match &self.reader {
            Some(v) => Ok(v.next_action()),
            None => Err(ReaderError::Closed),
        }
    }

    /// Takes in what happened when the caller did the next action. A record
    /// handed out adds one to the index, which stops at `usize::MAX`.
    pub fn apply(&mut self, e: CursorEvent)
        ensures
            final(self).state() == match old(self).state() {
                Some(s) => Some(next_state(s, e)),
                None => None,
            },
            final(self).index() == if old(self).state() is Some && e == CursorEvent::Produced
                && old(self).index() < usize::MAX {
                old(self).index() + 1
            } else {
                old(self).index()
            },
            final(self).threads() == old(self).threads(),
            final(self).path_view() == old(self).path_view(),
            final(self).vbq() == old(self).vbq(),
    {
        match &mut self.reader {
            Some(v) => {
                v.apply(e);
                if e == CursorEvent::Produced && self.current_index < usize::MAX {
                    self.current_index = self.current_index + 1;
                }
            },
            None => {},
        }
    }

    /// Closes the reader: the iteration state is dropped and later calls are
    /// refused.
    pub fn close_reader(&mut self)
        ensures
            final(self).state() is None,
            final(self).threads() == old(self).threads(),
            final(self).path_view() == old(self).path_view(),
            final(self).index() == old(self).index(),
            final(self).vbq() == old(self).vbq(),
    {
        if let Some(v) = &mut self.reader {
            v.close();
        }
        self.reader = None;
    }
}

/// Once exhausted, a state asks every later call to signal exhaustion, and no
/// event moves it.
pub proof fn law_exhaustion_is_final(s: ReaderVariant, e: CursorEvent)
    requires
        exhausted(s),
    ensures
        action_of(s) == CursorAction::SignalExhausted,
        next_state(s, e) == s,
        exhausted(next_state(s, e)),
{
}

} // verus!

verus! {

/// A file as sequential consumption meets it: a stream of `n` records, or a
/// list of blocks, each with its (positive) record count.
pub enum FileModel {
    Stream(nat),
    Blocks(Seq<usize>),
}

/// Number of records of a file.
pub open spec fn file_records(f: FileModel) -> nat {
    match f {
        FileModel::Stream(n) => n,
        FileModel::Blocks(bs) => blocks_from(bs, 0),
    }
}

/// Records in the blocks from index `p` on.
pub open spec fn blocks_from(bs: Seq<usize>, p: nat) -> nat
    decreases bs.len() - p,
{
    if p >= bs.len() {
        0
    } else {
        (bs[p as int] + blocks_from(bs, p + 1)) as nat
    }
}

/// Steps needed to walk the blocks from index `p` on and find the end: one
/// per record, one per block read, and one for the read that finds nothing.
pub open spec fn block_steps_from(bs: Seq<usize>, p: nat) -> nat
    decreases bs.len() - p,
{
    if p >= bs.len() {
        1
    } else {
        (bs[p as int] + 1 + block_steps_from(bs, p + 1)) as nat
    }
}

/// How the file answers `a`, having been read up to `pos` (records pulled
/// from the stream, or blocks read): the event, and the new position.
pub open spec fn respond(f: FileModel, pos: nat, a: CursorAction) -> (CursorEvent, nat) {
    match (f, a) {
        (FileModel::Stream(n), CursorAction::OpenStream) => (CursorEvent::StreamOpened, pos),
        (FileModel::Stream(n), CursorAction::PullStreamRecord) => if pos < n {
            (CursorEvent::Produced, pos + 1)
        } else {
            (CursorEvent::StreamEnded, pos)
        },
        (FileModel::Blocks(bs), CursorAction::ReadBlock) => if pos < bs.len() {
            (CursorEvent::BlockRead { has_data: true, n_records: bs[pos as int] }, pos + 1)
        } else {
            (CursorEvent::BlockRead { has_data: false, n_records: 0 }, pos)
        },
        (FileModel::Blocks(bs), CursorAction::TakeBlockRecord(i)) => (CursorEvent::Produced, pos),
        _ => (CursorEvent::Failed, pos),
    }
}

/// The state, the file position and the number of records handed out after
/// `steps` actions, each answered by the file, starting from state `s` at
/// position `pos`.
pub open spec fn run(f: FileModel, s: ReaderVariant, pos: nat, steps: nat) -> (ReaderVariant, nat, nat)
    decreases steps,
{
    if steps == 0 {
        (s, pos, 0)
    } else {
        let (e, p2) = respond(f, pos, action_of(s));
        let (s3, p3, y) = run(f, next_state(s, e), p2, (steps - 1) as nat);
        (s3, p3, y + if e == CursorEvent::Produced {
            1nat
        } else {
            0nat
        })
    }
}

proof fn lemma_run_stream(n: nat, pos: nat)
    requires
        pos <= n,
    ensures
        ({
            let (s, p, y) = run(
                FileModel::Stream(n),
                ReaderVariant::Standard { opened: true, exhausted: false },
                pos,
                (n - pos + 1) as nat,
            );
            exhausted(s) && y == n - pos
        }),
    decreases n - pos,
{
    let f = FileModel::Stream(n);
    let s0 = ReaderVariant::Standard { opened: true, exhausted: false };
    if pos < n {
        lemma_run_stream(n, pos + 1);
        assert(next_state(s0, CursorEvent::Produced) == s0);
        assert(run(f, s0, pos, (n - pos + 1) as nat).2 == run(f, s0, pos + 1, (n - pos) as nat).2 + 1);
    } else {
        let s1 = ReaderVariant::Standard { opened: true, exhausted: true };
        assert(next_state(s0, CursorEvent::StreamEnded) == s1);
        assert(run(f, s1, pos, 0) == (s1, pos, 0nat));
    }
}

proof fn lemma_run_block(bs: Seq<usize>, b: usize, i: usize, p: nat)
    requires
        forall|q: int| 0 <= q < bs.len() ==> bs[q] > 0,
        0 < b,
        i <= b,
        p <= bs.len(),
    ensures
        ({
            let (s, pos, y) = run(
                FileModel::Blocks(bs),
                ReaderVariant::Vbq { block: Some(b), block_position: i, exhausted: false },
                p,
                ((b - i) + block_steps_from(bs, p)) as nat,
            );
            exhausted(s) && y == (b - i) + blocks_from(bs, p)
        }),
    decreases (b - i) + block_steps_from(bs, p),
{
    let f = FileModel::Blocks(bs);
    let s0 = ReaderVariant::Vbq { block: Some(b), block_position: i, exhausted: false };
    let steps = ((b - i) + block_steps_from(bs, p)) as nat;
    if i < b {
        let s1 = ReaderVariant::Vbq { block: Some(b), block_position: (i + 1) as usize, exhausted: false };
        assert(action_of(s0) == CursorAction::TakeBlockRecord(i));
        assert(next_state(s0, CursorEvent::Produced) == s1);
        lemma_run_block(bs, b, (i + 1) as usize, p);
        assert(run(f, s0, p, steps).2 == run(f, s1, p, (steps - 1) as nat).2 + 1);
    } else if p < bs.len() {
        let s1 = ReaderVariant::Vbq { block: Some(bs[p as int]), block_position: 0, exhausted: false };
        assert(action_of(s0) == CursorAction::ReadBlock);
        assert(next_state(s0, CursorEvent::BlockRead { has_data: true, n_records: bs[p as int] }) == s1);
        lemma_run_block(bs, bs[p as int], 0, p + 1);
        assert(run(f, s0, p, steps).2 == run(f, s1, p + 1, (steps - 1) as nat).2);
    } else {
        let s1 = ReaderVariant::Vbq { block: None, block_position: 0, exhausted: true };
        assert(action_of(s0) == CursorAction::ReadBlock);
        assert(next_state(s0, CursorEvent::BlockRead { has_data: false, n_records: 0 }) == s1);
        assert(steps == 1);
        assert(run(f, s1, p, 0) == (s1, p, 0nat));
    }
}

/// Reading a file sequentially from a fresh state hands out one record per
/// record of the file and then signals exhaustion; and however a whole-file
/// scan cuts those records into chunks, the per-chunk record counts add up to
/// the same number.
pub proof fn law_sequential_count_matches_scan(
    f: FileModel,
    chunks: Seq<Seq<crate::counters::RecordView>>,
)
    requires
        f matches FileModel::Blocks(bs) ==> forall|q: int| 0 <= q < bs.len() ==> bs[q] > 0,
        chunks.flatten().len() == file_records(f),
    ensures
        ({
            let fresh = ReaderVariant::new_spec(f is Blocks);
            let steps = match f {
                FileModel::Stream(n) => n + 2,
                FileModel::Blocks(bs) => block_steps_from(bs, 0),
            };
            let (s, pos, y) = run(f, fresh, 0, steps);
            exhausted(s) && y == file_records(f) && y == crate::counters::chunked_records(chunks)
        }),
{
    crate::counters::law_records_chunked(chunks);
    match f {
        FileModel::Stream(n) => {
            let s0 = ReaderVariant::Standard { opened: false, exhausted: false };
            let s1 = ReaderVariant::Standard { opened: true, exhausted: false };
            assert(next_state(s0, CursorEvent::StreamOpened) == s1);
            lemma_run_stream(n, 0);
            assert(run(f, s0, 0, n + 2) == run(f, s1, 0, n + 1));
        },
        FileModel::Blocks(bs) => {
            let s0 = ReaderVariant::Vbq { block: None, block_position: 0, exhausted: false };
            if bs.len() > 0 {
                let s1 = ReaderVariant::Vbq { block: Some(bs[0]), block_position: 0, exhausted: false };
                assert(next_state(s0, CursorEvent::BlockRead { has_data: true, n_records: bs[0] }) == s1);
                lemma_run_block(bs, bs[0], 0, 1);
                assert(run(f, s0, 0, block_steps_from(bs, 0)) == run(f, s1, 1, (bs[0] + block_steps_from(bs, 1)) as nat));
            } else {
                let s1 = ReaderVariant::Vbq { block: None, block_position: 0, exhausted: true };
                assert(next_state(s0, CursorEvent::BlockRead { has_data: false, n_records: 0 }) == s1);
                assert(run(f, s1, 0, 0) == (s1, 0nat, 0nat));
            }
        },
    }
}

/// However many calls follow exhaustion, whatever the file answers, the state
/// stays exhausted and no record is handed out.
pub proof fn law_exhausted_stays_exhausted(f: FileModel, s: ReaderVariant, pos: nat, steps: nat)
    requires
        exhausted(s),
    ensures
        run(f, s, pos, steps).0 == s,
        run(f, s, pos, steps).2 == 0,
    decreases steps,
{
    if steps > 0 {
        let (e, p2) = respond(f, pos, action_of(s));
        assert(action_of(s) == CursorAction::SignalExhausted);
        assert(e == CursorEvent::Failed);
        law_exhausted_stays_exhausted(f, s, p2, (steps - 1) as nat);
    }
}

} // verus!
