//! Import: place decoded events onto caller-routed target streams.
//!
//! Picky per stream: a section must continue its target exactly. Halt, never skip: a bad block
//! ends its stream's run at the last good version. Whether a bad block takes the other streams
//! with it is the caller's policy.

use crate::envelope::{
    pending_views, persisted_views, EventView, PendingBatch, PendingEnvelope, PersistedEnvelope,
};
use crate::error::AppendError;
use crate::log::{
    accepts, dense, dense_from_version, extends, head_of, leading_run, leading_run_is, log_ok,
    overflows, routed, routed_of_stream, routed_of_sum, rows_for, stream_of, LogEntry, Row,
};
use crate::octets::{as_octets, octets};
use crate::store::{AllPosition, RawEventStore};
use crate::stream_key::StreamKey;
use crate::version::{group_version, head_at, version_at, version_behind, Version};
use bytes::Bytes;
use vstd::prelude::*;

verus! {

broadcast use group_version;

/// How much of a chunk one bad block takes down.
#[derive(Clone, Copy, Debug, PartialEq, Eq, Structural)]
pub enum Atomicity {
    /// All or nothing: any bad block rolls back the whole chunk.
    WholeChunk,
    /// Each stream commits on its own: a bad block stops only its stream.
    PerStream,
}

/// How one stream's import ended, and where the stream sits afterwards.
#[derive(Clone, Copy, Debug, PartialEq, Eq, Structural)]
pub enum StreamOutcome {
    /// Every block was applied.
    Complete {
        /// The version the stream is at now.
        version: Version,
    },
    /// A block failed its checksum. The blocks before it were applied.
    Corrupt {
        /// The version the stream is at now; `None` when it was not touched.
        reached: Option<Version>,
    },
    /// A block's version was not the next one. The blocks before it were applied.
    Mismatch {
        /// The version the stream is at now; `None` when it was not touched.
        reached: Option<Version>,
        /// The version that came instead.
        got: Version,
    },
}

impl StreamOutcome {
    /// Whether every offered block was applied.
    pub fn is_complete(&self) -> (r: bool)
        ensures
            r == (self is Complete),
    {
        match self {
            StreamOutcome::Complete { .. } => true,
            _ => false,
        }
    }

    /// Where the stream sits after the import; `None` when it was not touched.
    pub fn reached(&self) -> (r: Option<Version>)
        ensures
            r == (match *self {
                StreamOutcome::Complete { version } => Some(version),
                StreamOutcome::Corrupt { reached } => reached,
                StreamOutcome::Mismatch { reached, .. } => reached,
            }),
    {
        match self {
            StreamOutcome::Complete { version } => Some(*version),
            StreamOutcome::Corrupt { reached } => *reached,
            StreamOutcome::Mismatch { reached, .. } => *reached,
        }
    }
}

/// One stream's outcome, under the target that the caller chose.
#[derive(Debug, PartialEq, Eq)]
pub struct StreamReport {
    /// The target stream.
    pub stream: StreamKey,
    /// What happened to it.
    pub outcome: StreamOutcome,
}

impl View for StreamReport {
    type V = (Seq<u8>, StreamOutcome);

    open spec fn view(&self) -> (Seq<u8>, StreamOutcome) {
        (self.stream@, self.outcome)
    }
}

/// What a sequence of reports says.
pub open spec fn report_views(reports: Seq<StreamReport>) -> Seq<(Seq<u8>, StreamOutcome)> {
    Seq::new(reports.len(), |i: int| reports[i]@)
}

/// The outcomes of an import, one for each section that held blocks, in section order.
#[derive(Debug, PartialEq, Eq)]
pub struct ImportReport {
    streams: Vec<StreamReport>,
}

impl View for ImportReport {
    type V = Seq<(Seq<u8>, StreamOutcome)>;

    closed spec fn view(&self) -> Seq<(Seq<u8>, StreamOutcome)> {
        report_views(self.streams@)
    }
}

/// The outcomes that call for action: those that are not complete.
pub open spec fn is_unfinished() -> spec_fn((Seq<u8>, StreamOutcome)) -> bool {
    |report: (Seq<u8>, StreamOutcome)| !(report.1 is Complete)
}

impl ImportReport {
    /// The report of the given outcomes.
    pub fn new(streams: Vec<StreamReport>) -> (r: ImportReport)
        ensures
            r@ == report_views(streams@),
    {
        ImportReport { streams }
    }

    /// All outcomes, in section order.
    pub fn streams(&self) -> (r: &[StreamReport])
        ensures
            report_views(r@) == self@,
    {
        self.streams.as_slice()
    }

    /// The outcomes that are not complete, in section order.
    pub fn unfinished(&self) -> (r: Vec<&StreamReport>)
        ensures
            Seq::new(r@.len(), |i: int| r@[i]@) == self@.filter(is_unfinished()),
    {
        let mut out: Vec<&StreamReport> = Vec::new();
        let mut i: usize = 0;
        proof {
            reveal_with_fuel(Seq::filter, 1);
            assert(self@.take(0) =~= Seq::empty());
            assert(self@.take(0).filter(is_unfinished()) =~= Seq::empty());
            assert(Seq::new(out@.len(), |j: int| out@[j]@) =~= Seq::empty());
        }
        while i < self.streams.len()
            invariant
                0 <= i <= self.streams.len(),
                self@ == report_views(self.streams@),
                Seq::new(out@.len(), |j: int| out@[j]@) == self@.take(i as int).filter(
                    is_unfinished(),
                ),
            decreases self.streams.len() - i,
        {
            let report: &StreamReport = &self.streams[i];
            let ghost shown = Seq::new(out@.len(), |j: int| out@[j]@);
            proof {
                assert(self@.take(i + 1) =~= self@.take(i as int).push(report@));
                self@.take(i as int).lemma_filter_push(report@, is_unfinished());
            }
            if !report.outcome.is_complete() {
                out.push(report);
                assert(Seq::new(out@.len(), |j: int| out@[j]@) =~= shown.push(report@));
            }
            i = i + 1;
        }
        assert(self@.take(i as int) =~= self@);
        out
    }

    /// Whether every stream completed.
    pub fn all_complete(&self) -> (r: bool)
        ensures
            r == (forall|i: int| 0 <= i < self@.len() ==> (#[trigger] self@[i]).1 is Complete),
    {
        let mut i: usize = 0;
        while i < self.streams.len()
            invariant
                0 <= i <= self.streams.len(),
                self@ == report_views(self.streams@),
                forall|j: int| 0 <= j < i ==> (#[trigger] self@[j]).1 is Complete,
            decreases self.streams.len() - i,
        {
            assert(self@[i as int].1 == self.streams@[i as int].outcome);
            if !self.streams[i].outcome.is_complete() {
                return false;
            }
            i = i + 1;
        }
        true
    }
}

/// Why a whole chunk was rolled back: what its first bad block was.
#[derive(Clone, Copy, Debug, PartialEq, Eq, Structural)]
pub enum AbortReason {
    /// A block failed its checksum.
    Corrupt,
    /// A block's version was not the next one of its target.
    Mismatch {
        /// The version that should have come.
        expected: Version,
        /// The version that came.
        got: Version,
    },
}

/// Why an import as a whole failed.
#[derive(Debug)]
#[non_exhaustive]
pub enum ImportError<E> {
    /// A bad block rolled the whole chunk back; nothing was written.
    Aborted {
        /// The first offending target.
        stream: StreamKey,
        /// What was wrong with it.
        reason: AbortReason,
    },
    /// The store failed.
    Store(E),
    /// A stream's next version would pass `u64::MAX`. Never worth a retry.
    VersionOverflow,
}

/// One origin stream's blocks, as a backup recorded them.
#[derive(Debug)]
pub struct StreamSection {
    /// The origin stream's id.
    pub origin: Bytes,
    /// The blocks, in the order in which the backup laid them down.
    pub blocks: Vec<ImportBlock>,
}

/// One block of a section.
#[derive(Debug)]
pub enum ImportBlock {
    /// A block whose checksum passed.
    Event(PersistedEnvelope),
    /// A block whose checksum failed. Nothing in it can be trusted.
    Corrupt,
}

impl View for ImportBlock {
    type V = Option<EventView>;

    open spec fn view(&self) -> Option<EventView> {
        match self {
            ImportBlock::Event(event) => Some(event@),
            ImportBlock::Corrupt => None,
        }
    }
}

/// What a sequence of blocks holds.
pub open spec fn block_views(blocks: Seq<ImportBlock>) -> Seq<Option<EventView>> {
    Seq::new(blocks.len(), |i: int| blocks[i]@)
}

impl View for StreamSection {
    type V = (Seq<u8>, Seq<Option<EventView>>);

    open spec fn view(&self) -> (Seq<u8>, Seq<Option<EventView>>) {
        (octets(self.origin), block_views(self.blocks@))
    }
}

// ── The plan of one section ─────────────────────────────────────────────────────────────────────

/// Where a section's run stopped.
#[derive(Clone, Copy, Debug, PartialEq, Eq, Structural)]
pub enum Halt {
    /// Every block was taken.
    Complete,
    /// At a corrupt block.
    Corrupt,
    /// At a version that is not the next one.
    Gap {
        /// The version that came instead.
        got: Version,
    },
}

/// A contiguous run of a section.
#[derive(Debug)]
pub struct SectionRun {
    /// The run's first version.
    pub first: Version,
    /// The head the target must be at; `None` for a fresh stream.
    pub expected_version: Option<Version>,
    /// The run's first event.
    pub head: PendingEnvelope,
    /// The events behind the first.
    pub tail: Vec<PendingEnvelope>,
    /// The run's last version.
    pub last: Version,
    /// Why the run stopped.
    pub halt: Halt,
}

/// What is to be done with one section, before any store is asked.
#[derive(Debug)]
pub enum SectionPlan {
    /// No blocks: nothing to do and nothing to report.
    Empty,
    /// The first block is corrupt: nothing can be appended.
    FirstCorrupt,
    /// A run to append.
    Run(SectionRun),
}

/// Why a section cannot be planned.
#[derive(Clone, Copy, Debug, PartialEq, Eq, Structural)]
pub enum PlanError {
    /// A block follows the last version there can be.
    VersionOverflow,
}

/// A run: its events, and why it stopped.
#[verifier::ext_equal]
pub struct RunView {
    pub events: Seq<EventView>,
    pub halt: Halt,
}

/// The plan of a section, as a value.
pub enum PlanView {
    Empty,
    FirstCorrupt,
    Run(RunView),
    Overflow,
}

/// The version each block carries; `None` for a corrupt one.
pub open spec fn block_versions(blocks: Seq<Option<EventView>>) -> Seq<Option<nat>> {
    Seq::new(
        blocks.len(),
        |i: int|
            match blocks[i] {
                Some(event) => Some(event.version),
                None => None,
            },
    )
}

/// The number of blocks in the run that starts at the first block.
pub open spec fn run_len(blocks: Seq<Option<EventView>>) -> nat
    recommends
        blocks.len() > 0,
        blocks[0] is Some,
{
    1 + leading_run(block_versions(blocks.skip(1)), blocks[0]->0.version)
}

/// The first `n` blocks, all of them events.
pub open spec fn leading_events(blocks: Seq<Option<EventView>>, n: nat) -> Seq<EventView> {
    Seq::new(n, |i: int| blocks[i]->0)
}

/// The run that a section leads with; `None` where no event comes first.
pub open spec fn lead_of(blocks: Seq<Option<EventView>>) -> Option<Seq<EventView>> {
    if blocks.len() == 0 || blocks[0] is None {
        None
    } else {
        Some(leading_events(blocks, run_len(blocks)))
    }
}

/// The versions of the run that a section leads with are versions that a stream can have. This
/// holds of every section that a program holds.
pub open spec fn sound_lead(blocks: Seq<Option<EventView>>) -> bool {
    lead_of(blocks) matches Some(events) ==> 1 <= events[0].version && events.last().version
        <= u64::MAX
}

/// The plan of a section: the longest run of consecutive versions from the first block on, and
/// what ended it.
pub open spec fn plan_of(blocks: Seq<Option<EventView>>) -> PlanView {
    if blocks.len() == 0 {
        PlanView::Empty
    } else if blocks[0] is None {
        PlanView::FirstCorrupt
    } else {
        let n = run_len(blocks);
        let events = leading_events(blocks, n);
        if n == blocks.len() {
            PlanView::Run(RunView { events, halt: Halt::Complete })
        } else if blocks[n as int] is None {
            PlanView::Run(RunView { events, halt: Halt::Corrupt })
        } else if events.last().version == u64::MAX {
            PlanView::Overflow
        } else {
            PlanView::Run(
                RunView { events, halt: Halt::Gap { got: version_at(blocks[n as int]->0.version) } },
            )
        }
    }
}

impl SectionRun {
    /// The run's events.
    pub open spec fn events(&self) -> Seq<EventView> {
        seq![self.head@] + pending_views(self.tail@)
    }

    /// The cached versions agree with the events.
    pub open spec fn coherent(&self) -> bool {
        &&& self.first == version_at(self.head@.version)
        &&& 0 < self.head@.version
        &&& self.expected_version == head_at((self.head@.version - 1) as nat)
        &&& self.last == version_at(self.events().last().version)
        &&& self.events().last().version <= u64::MAX
        &&& dense(self.events(), (self.head@.version - 1) as nat)
    }
}

impl View for SectionRun {
    type V = RunView;

    open spec fn view(&self) -> RunView {
        RunView { events: self.events(), halt: self.halt }
    }
}

/// The value of a planner's result.
pub open spec fn plan_view(r: Result<SectionPlan, PlanError>) -> PlanView {
    match r {
        Ok(SectionPlan::Empty) => PlanView::Empty,
        Ok(SectionPlan::FirstCorrupt) => PlanView::FirstCorrupt,
        Ok(SectionPlan::Run(run)) => PlanView::Run(run@),
        Err(PlanError::VersionOverflow) => PlanView::Overflow,
    }
}

/// The run that a section leads with, and whether it stopped at a block behind the last version
/// there can be.
fn leading(section: &StreamSection) -> (r: Option<(SectionRun, bool)>)
    ensures
        sound_lead(section@.1),
        match r {
            None => lead_of(section@.1) is None,
            Some((run, overflow)) => {
                &&& run.coherent()
                &&& lead_of(section@.1) == Some(run.events())
                &&& plan_of(section@.1) == (if overflow {
                    PlanView::Overflow
                } else {
                    PlanView::Run(run@)
                })
            },
        },
{
    if section.blocks.len() == 0 {
        return None;
    }
    let ghost blocks = section@.1;
    let first_event: &PersistedEnvelope = match &section.blocks[0] {
        ImportBlock::Corrupt => {
            return None;
        },
        ImportBlock::Event(event) => event,
    };
    assert(blocks[0] == Some(first_event@));
    let first: Version = first_event.version();
    let expected_version: Option<Version> = Version::new(first.as_u64() - 1);
    let head: PendingEnvelope = PendingEnvelope::from_persisted(first_event);
    let mut tail: Vec<PendingEnvelope> = Vec::new();
    let mut last: Version = first;
    let mut i: usize = 1;
    let ghost base = first@;
    let ghost versions = block_versions(blocks.skip(1));
    let mut halt: Halt = Halt::Complete;
    let mut overflow: bool = false;
    while i < section.blocks.len()
        invariant_except_break
            halt == Halt::Complete,
            !overflow,
        invariant
            1 <= i <= section.blocks.len(),
            blocks == section@.1,
            blocks.len() == section.blocks.len(),
            blocks[0] == Some(head@),
            base == head@.version,
            base > 0,
            versions == block_versions(blocks.skip(1)),
            tail@.len() == i - 1,
            last@ == base + i - 1,
            forall|j: int| 0 <= j < i - 1 ==> Some(#[trigger] tail@[j]@) == blocks[j + 1],
            forall|j: int|
                0 <= j < i - 1 ==> (#[trigger] versions[j]) == Some((base + j + 1) as nat),
        ensures
            i == section.blocks.len() ==> halt == Halt::Complete && !overflow,
            i < section.blocks.len() ==> versions[i - 1] != Some((base + i) as nat),
            i < section.blocks.len() && blocks[i as int] is None ==> halt == Halt::Corrupt
                && !overflow,
            i < section.blocks.len() && blocks[i as int] is Some ==> overflow == (last@
                == u64::MAX) && halt == (Halt::Gap {
                got: version_at(blocks[i as int]->0.version),
            }),
        decreases section.blocks.len() - i,
    {
        assert(blocks.skip(1)[i - 1] == blocks[i as int]);
        let event: &PersistedEnvelope = match &section.blocks[i] {
            ImportBlock::Corrupt => {
                halt = Halt::Corrupt;
                break;
            },
            ImportBlock::Event(event) => event,
        };
        assert(blocks[i as int] == Some(event@));
        assert(versions[i - 1] == Some(event@.version));
        let version: Version = event.version();
        match last.next() {
            Some(next) => {
                if version != next {
                    halt = Halt::Gap { got: version };
                    break;
                }
            },
            None => {
                halt = Halt::Gap { got: version };
                overflow = true;
                break;
            },
        }
        tail.push(PendingEnvelope::from_persisted(event));
        last = version;
        i = i + 1;
    }
    let run = SectionRun { first, expected_version, head, tail, last, halt };
    proof {
        leading_run_is(versions, base, (i - 1) as nat);
        assert(run.events() =~= leading_events(blocks, i as nat));
        assert forall|j: int| 0 <= j < run.events().len() implies (
        #[trigger] run.events()[j]).version == (base - 1) + j + 1 by {
            if j > 0 {
                assert(versions[j - 1] == Some((base + j) as nat));
                assert(blocks.skip(1)[j - 1] == blocks[j]);
            }
        }
    }
    Some((run, overflow))
}

/// Plans one section: takes the longest run of consecutive versions and records why it stopped.
pub fn plan_section(section: &StreamSection) -> (r: Result<SectionPlan, PlanError>)
    ensures
        plan_view(r) == plan_of(section@.1),
        r matches Ok(SectionPlan::Run(run)) ==> run.coherent(),
        sound_lead(section@.1),
{
    match leading(section) {
        Some((run, overflow)) => if overflow {
            Err(PlanError::VersionOverflow)
        } else {
            Ok(SectionPlan::Run(run))
        },
        None => if section.blocks.len() == 0 {
            Ok(SectionPlan::Empty)
        } else {
            Ok(SectionPlan::FirstCorrupt)
        },
    }
}

// ── Several streams in one transaction ──────────────────────────────────────────────────────────

/// One planned write: a run for one target stream.
#[derive(Debug)]
pub struct PlannedAppend {
    /// The target stream.
    pub target: StreamKey,
    /// The version the target must be at; `None` for a fresh stream.
    pub expected_version: Option<Version>,
    /// The run's first event.
    pub head: PendingEnvelope,
    /// The events behind the first.
    pub tail: Vec<PendingEnvelope>,
}

/// A planned write, as a value.
#[verifier::ext_equal]
pub struct WriteView {
    pub target: Seq<u8>,
    pub expected: Option<Version>,
    pub events: Seq<EventView>,
}

impl View for PlannedAppend {
    type V = WriteView;

    open spec fn view(&self) -> WriteView {
        WriteView {
            target: self.target@,
            expected: self.expected_version,
            events: seq![self.head@] + pending_views(self.tail@),
        }
    }
}

impl PlannedAppend {
    /// The run as the batch that a store takes.
    pub fn batch(&self) -> (r: PendingBatch<'_>)
        ensures
            r@ == self@.events,
    {
        PendingBatch::from_parts(&self.head, self.tail.as_slice())
    }
}

/// What a sequence of writes plans.
pub open spec fn write_views(writes: Seq<PlannedAppend>) -> Seq<WriteView> {
    Seq::new(writes.len(), |i: int| writes[i]@)
}

/// The rows that the writes would add, in write order.
pub open spec fn planned_rows(writes: Seq<WriteView>) -> Seq<Row>
    decreases writes.len(),
{
    if writes.len() == 0 {
        Seq::empty()
    } else {
        planned_rows(writes.drop_last()) + rows_for(writes.last().target, writes.last().events)
    }
}

/// The length of the stream `key` once the first `n` writes are in.
pub open spec fn len_after(
    log: Seq<LogEntry>,
    writes: Seq<WriteView>,
    n: int,
    key: Seq<u8>,
) -> nat {
    stream_of(log, key).len() + routed(planned_rows(writes.take(n)), key).len()
}

/// The length that the target of write `i` has once the writes before it are in.
pub open spec fn running_len(log: Seq<LogEntry>, writes: Seq<WriteView>, i: int) -> nat {
    len_after(log, writes, i, writes[i].target)
}

/// A write lengthens its target by its own length, and no other stream.
pub proof fn len_after_write(log: Seq<LogEntry>, writes: Seq<WriteView>, n: int, key: Seq<u8>)
    requires
        0 <= n < writes.len(),
    ensures
        len_after(log, writes, n + 1, key) == len_after(log, writes, n, key) + (if writes[n].target
            == key {
            writes[n].events.len()
        } else {
            0
        }),
        planned_rows(writes.take(n + 1)) == planned_rows(writes.take(n)) + rows_for(
            writes[n].target,
            writes[n].events,
        ),
{
    assert(writes.take(n + 1).drop_last() =~= writes.take(n));
    assert(writes.take(n + 1).last() == writes[n]);
    routed_of_sum(
        planned_rows(writes.take(n)),
        rows_for(writes[n].target, writes[n].events),
        key,
    );
    routed_of_stream(writes[n].target, writes[n].events, key);
}

/// Whether write `i` continues its target, the writes before it counted in.
pub open spec fn write_fits(log: Seq<LogEntry>, writes: Seq<WriteView>, i: int) -> bool {
    &&& writes[i].expected == head_at(running_len(log, writes, i))
    &&& dense(writes[i].events, running_len(log, writes, i))
}

/// Failure of a multi-stream append. Nothing landed.
#[derive(Debug)]
#[non_exhaustive]
pub enum AtomicAppendError<E> {
    /// A write does not continue its target.
    Conflict {
        /// The first such write.
        index: usize,
        /// The head that its target really has.
        actual: Option<Version>,
    },
    /// The store failed.
    Store(E),
}

/// What a multi-stream append may answer, and what it does to the log: every write lands, or
/// none does.
pub open spec fn atomic_reply<P: AllPosition, E>(
    before: Seq<LogEntry>,
    after: Seq<LogEntry>,
    writes: Seq<WriteView>,
    reply: Result<Option<P>, AtomicAppendError<E>>,
) -> bool {
    match reply {
        Ok(position) => {
            &&& forall|i: int| 0 <= i < writes.len() ==> #[trigger] write_fits(before, writes, i)
            &&& extends(before, after, planned_rows(writes))
            &&& position is None <==> writes.len() == 0
            &&& position matches Some(p) ==> after.len() > 0 && p.ordinal()
                == after.last().position
        },
        Err(AtomicAppendError::Conflict { index, actual }) => {
            &&& index < writes.len()
            &&& forall|i: int| 0 <= i < index ==> #[trigger] write_fits(before, writes, i)
            &&& !write_fits(before, writes, index as int)
            &&& writes[index as int].expected == head_at(running_len(before, writes, index as int))
                ==> !overflows(
                running_len(before, writes, index as int),
                writes[index as int].events,
            )
            &&& actual == head_at(running_len(before, writes, index as int))
            &&& after == before
        },
        Err(AtomicAppendError::Store(_)) => after == before,
    }
}

/// Adapter capability: several per-stream runs in one transaction.
pub trait AtomicAppend: RawEventStore {
    /// Whether a transaction on this store may fail in the store, with this error.
    open spec fn transaction_fails(&self, writes: Seq<WriteView>, error: Self::Error) -> bool {
        arbitrary()
    }

    /// Appends every write, or none of them.
    fn atomic_append_many(&mut self, writes: &[PlannedAppend]) -> (r: Result<
        Option<Self::AllPosition>,
        AtomicAppendError<Self::Error>,
    >)
        requires
            old(self).valid(),
        ensures
            final(self).valid(),
            atomic_reply(old(self).log(), final(self).log(), write_views(writes@), r),
            r matches Err(AtomicAppendError::Store(e)) ==> old(self).transaction_fails(
                write_views(writes@),
                e,
            ),
    ;
}

// ── Import, stream by stream ────────────────────────────────────────────────────────────────────

/// The head that a run's target must be at.
pub open spec fn run_expects(run: RunView) -> Option<Version> {
    head_at((run.events[0].version - 1) as nat)
}

/// The outcome of a run: where it stopped if it landed, untouched if the store refused it.
pub open spec fn run_outcome(run: RunView, landed: bool) -> StreamOutcome {
    let first = version_at(run.events[0].version);
    let last = version_at(run.events.last().version);
    if !landed {
        StreamOutcome::Mismatch { reached: None, got: first }
    } else {
        match run.halt {
            Halt::Complete => StreamOutcome::Complete { version: last },
            Halt::Corrupt => StreamOutcome::Corrupt { reached: Some(last) },
            Halt::Gap { got } => StreamOutcome::Mismatch { reached: Some(last), got },
        }
    }
}

/// A run that waits for its store's answer.
#[derive(Debug)]
pub struct StreamRun {
    target: StreamKey,
    run: SectionRun,
}

impl View for StreamRun {
    type V = (Seq<u8>, RunView);

    closed spec fn view(&self) -> (Seq<u8>, RunView) {
        (self.target@, self.run@)
    }
}

impl StreamRun {
    #[verifier::type_invariant]
    spec fn coherent(&self) -> bool {
        self.run.coherent()
    }

    /// The target stream.
    pub fn target(&self) -> (r: &StreamKey)
        ensures
            r@ == self@.0,
    {
        &self.target
    }

    /// The head the target must be at.
    pub fn expected_version(&self) -> (r: Option<Version>)
        ensures
            r == run_expects(self@.1),
    {
        proof {
            use_type_invariant(self);
        }
        self.run.expected_version
    }

    /// The events to append.
    pub fn batch(&self) -> (r: PendingBatch<'_>)
        ensures
            r@ == self@.1.events,
    {
        PendingBatch::from_parts(&self.run.head, self.run.tail.as_slice())
    }
}

/// A stream-by-stream import in progress: the outcomes so far.
#[derive(Debug)]
pub struct PerStreamImport {
    reports: Vec<StreamReport>,
}

impl View for PerStreamImport {
    type V = Seq<(Seq<u8>, StreamOutcome)>;

    closed spec fn view(&self) -> Seq<(Seq<u8>, StreamOutcome)> {
        report_views(self.reports@)
    }
}

impl PerStreamImport {
    /// An import that has not looked at any section yet.
    pub fn new() -> (r: PerStreamImport)
        ensures
            r@ == Seq::<(Seq<u8>, StreamOutcome)>::empty(),
    {
        let r = PerStreamImport { reports: Vec::new() };
        assert(r@ =~= Seq::empty());
        r
    }

    /// Takes up the next section: answers the run to append, if there is one.
    pub fn begin(&mut self, target: StreamKey, section: &StreamSection) -> (r: Result<
        Option<StreamRun>,
        PlanError,
    >)
        ensures
            match plan_of(section@.1) {
                PlanView::Empty => r == Ok::<Option<StreamRun>, PlanError>(None) && final(self)@
                    == old(self)@,
                PlanView::FirstCorrupt => {
                    &&& r == Ok::<Option<StreamRun>, PlanError>(None)
                    &&& final(self)@ == old(self)@.push(
                        (target@, StreamOutcome::Corrupt { reached: None }),
                    )
                },
                PlanView::Run(run) => {
                    &&& r matches Ok(Some(waiting)) && waiting@ == (target@, run)
                    &&& final(self)@ == old(self)@
                },
                PlanView::Overflow => r == Err::<Option<StreamRun>, PlanError>(
                    PlanError::VersionOverflow,
                ) && final(self)@ == old(self)@,
            },
            sound_lead(section@.1),
    {
        match plan_section(section) {
            Ok(SectionPlan::Empty) => Ok(None),
            Ok(SectionPlan::FirstCorrupt) => {
                self.report(target, StreamOutcome::Corrupt { reached: None });
                Ok(None)
            },
            Ok(SectionPlan::Run(run)) => Ok(Some(StreamRun { target, run })),
            Err(e) => Err(e),
        }
    }

    /// Takes the store's answer to a run.
    pub fn settle<P, E>(&mut self, waiting: StreamRun, reply: Result<P, AppendError<E>>) -> (r:
        Result<(), ImportError<E>>)
        ensures
            match reply {
                Ok(_) => r is Ok && final(self)@ == old(self)@.push(
                    (waiting@.0, run_outcome(waiting@.1, true)),
                ),
                Err(AppendError::Conflict { .. }) => r is Ok && final(self)@ == old(self)@.push(
                    (waiting@.0, run_outcome(waiting@.1, false)),
                ),
                Err(AppendError::Store(error)) => r == Err::<(), ImportError<E>>(
                    ImportError::Store(error),
                ) && final(self)@ == old(self)@,
            },
    {
        proof {
            use_type_invariant(&waiting);
        }
        let last: Version = waiting.run.last;
        let outcome: StreamOutcome = match reply {
            Ok(_) => match waiting.run.halt {
                Halt::Complete => StreamOutcome::Complete { version: last },
                Halt::Corrupt => StreamOutcome::Corrupt { reached: Some(last) },
                Halt::Gap { got } => StreamOutcome::Mismatch { reached: Some(last), got },
            },
            Err(AppendError::Conflict { .. }) => StreamOutcome::Mismatch {
                reached: None,
                got: waiting.run.first,
            },
            Err(AppendError::Store(error)) => {
                return Err(ImportError::Store(error));
            },
        };
        self.report(waiting.target, outcome);
        Ok(())
    }

    /// The report of every section taken up.
    pub fn finish(self) -> (r: ImportReport)
        ensures
            r@ == self@,
    {
        ImportReport::new(self.reports)
    }

    fn report(&mut self, stream: StreamKey, outcome: StreamOutcome)
        ensures
            final(self)@ == old(self)@.push((stream@, outcome)),
    {
        self.reports.push(StreamReport { stream, outcome });
        assert(self@ =~= old(self)@.push((stream@, outcome)));
    }
}

/// Whether `route` may answer `target` for the origin `origin`.
pub open spec fn routes_to<R: Fn(&[u8]) -> StreamKey>(
    route: R,
    origin: Seq<u8>,
    target: Seq<u8>,
) -> bool {
    exists|bytes: &[u8], key: StreamKey|
        bytes@ == origin && key@ == target && #[trigger] call_ensures(route, (bytes,), key)
}

/// What one section does to the log: its run lands exactly if it continues its target.
pub open spec fn section_step(
    blocks: Seq<Option<EventView>>,
    target: Seq<u8>,
    before: Seq<LogEntry>,
    after: Seq<LogEntry>,
) -> bool {
    match plan_of(blocks) {
        PlanView::Run(run) => if accepts(before, target, run_expects(run), run.events) {
            extends(before, after, rows_for(target, run.events))
        } else {
            after == before
        },
        PlanView::Overflow => false,
        _ => after == before,
    }
}

/// What one section adds to the report: nothing where it holds no blocks.
pub open spec fn section_report(
    blocks: Seq<Option<EventView>>,
    target: Seq<u8>,
    before: Seq<LogEntry>,
) -> Seq<(Seq<u8>, StreamOutcome)> {
    match plan_of(blocks) {
        PlanView::FirstCorrupt => seq![(target, StreamOutcome::Corrupt { reached: None })],
        PlanView::Run(run) => seq![
            (target, run_outcome(run, accepts(before, target, run_expects(run), run.events))),
        ],
        _ => Seq::empty(),
    }
}

/// The report of the first `n` sections. `logs[i]` is the log that section `i` finds.
pub open spec fn reports_upto(
    sections: Seq<(Seq<u8>, Seq<Option<EventView>>)>,
    targets: Seq<Seq<u8>>,
    logs: Seq<Seq<LogEntry>>,
    n: nat,
) -> Seq<(Seq<u8>, StreamOutcome)>
    decreases n,
{
    if n == 0 {
        Seq::empty()
    } else {
        let i = n - 1;
        reports_upto(sections, targets, logs, i as nat) + section_report(
            sections[i].1,
            targets[i],
            logs[i],
        )
    }
}

/// The first sections ran one after the other, each on the log that the one before it left.
pub open spec fn sections_ran<R: Fn(&[u8]) -> StreamKey>(
    route: R,
    sections: Seq<(Seq<u8>, Seq<Option<EventView>>)>,
    targets: Seq<Seq<u8>>,
    logs: Seq<Seq<LogEntry>>,
) -> bool {
    &&& targets.len() <= sections.len()
    &&& logs.len() == targets.len() + 1
    &&& forall|i: int|
        0 <= i < targets.len() ==> #[trigger] routes_to(route, sections[i].0, targets[i])
    &&& forall|i: int| 0 <= i < targets.len() ==> sound_lead((#[trigger] sections[i]).1)
    &&& forall|i: int|
        0 <= i < targets.len() ==> #[trigger] section_step(
            sections[i].1,
            targets[i],
            logs[i],
            logs[i + 1],
        )
}

/// A store at `log` may fail to place the run of a section, with this error.
pub open spec fn run_fails<S: RawEventStore, R: Fn(&[u8]) -> StreamKey>(
    route: R,
    section: (Seq<u8>, Seq<Option<EventView>>),
    log: Seq<LogEntry>,
    error: S::Error,
) -> bool {
    exists|store: S, target: Seq<u8>, run: RunView|
        {
            &&& store.valid()
            &&& store.log() == log
            &&& routes_to(route, section.0, target)
            &&& plan_of(section.1) == PlanView::Run(run)
            &&& #[trigger] store.append_fails(target, run_expects(run), run.events, error)
        }
}

/// A stream-by-stream import took up the first sections, sent them to `targets`, and ended in `r`.
pub open spec fn per_stream_ran<S: RawEventStore, R: Fn(&[u8]) -> StreamKey>(
    route: R,
    sections: Seq<(Seq<u8>, Seq<Option<EventView>>)>,
    targets: Seq<Seq<u8>>,
    logs: Seq<Seq<LogEntry>>,
    r: Result<ImportReport, ImportError<S::Error>>,
) -> bool {
    let n = targets.len();
    &&& sections_ran(route, sections, targets, logs)
    &&& match r {
        Ok(report) => n == sections.len() && report@ == reports_upto(sections, targets, logs, n),
        Err(ImportError::VersionOverflow) => n < sections.len() && plan_of(
            sections[n as int].1,
        ) is Overflow,
        Err(ImportError::Store(e)) => n < sections.len() && run_fails::<S, R>(
            route,
            sections[n as int],
            logs.last(),
            e,
        ),
        Err(ImportError::Aborted { .. }) => false,
    }
}

/// The result of a stream-by-stream import.
///
/// Sections run in order. Each one that holds blocks is reported; one bad section holds back
/// only itself. A store failure or an overflow ends the import where it stands: what the
/// sections before it committed stays. The failure is the one that the store answered.
pub open spec fn per_stream_result<S: RawEventStore, R: Fn(&[u8]) -> StreamKey>(
    route: R,
    sections: Seq<(Seq<u8>, Seq<Option<EventView>>)>,
    before: Seq<LogEntry>,
    after: Seq<LogEntry>,
    r: Result<ImportReport, ImportError<S::Error>>,
) -> bool {
    exists|targets: Seq<Seq<u8>>, logs: Seq<Seq<LogEntry>>|
        {
            &&& #[trigger] per_stream_ran::<S, R>(route, sections, targets, logs, r)
            &&& logs[0] == before
            &&& logs.last() == after
        }
}

/// What a slice of sections holds.
pub open spec fn section_views(sections: Seq<StreamSection>) -> Seq<
    (Seq<u8>, Seq<Option<EventView>>),
> {
    Seq::new(sections.len(), |i: int| sections[i]@)
}

/// Imports stream by stream: each section is an append of its own.
///
/// Needs no multi-stream transaction of its store.
pub fn import_per_stream<S: RawEventStore, R: Fn(&[u8]) -> StreamKey>(
    store: &mut S,
    sections: &[StreamSection],
    route: R,
) -> (r: Result<ImportReport, ImportError<S::Error>>)
    requires
        old(store).valid(),
        forall|bytes: &[u8]| call_requires(route, (bytes,)),
    ensures
        final(store).valid(),
        per_stream_result::<S, R>(
            route,
            section_views(sections@),
            old(store).log(),
            final(store).log(),
            r,
        ),
{
    let ghost views = section_views(sections@);
    let mut import: PerStreamImport = PerStreamImport::new();
    let ghost mut targets: Seq<Seq<u8>> = Seq::empty();
    let ghost mut logs: Seq<Seq<LogEntry>> = seq![store.log()];
    let mut i: usize = 0;
    while i < sections.len()
        invariant
            0 <= i <= sections.len(),
            views == section_views(sections@),
            store.valid(),
            forall|bytes: &[u8]| call_requires(route, (bytes,)),
            targets.len() == i,
            sections_ran(route, views, targets, logs),
            logs[0] == old(store).log(),
            logs.last() == store.log(),
            import@ == reports_upto(views, targets, logs, i as nat),
        decreases sections.len() - i,
    {
        let section: &StreamSection = &sections[i];
        let origin: &[u8] = as_octets(&section.origin);
        let target: StreamKey = route(origin);
        let ghost before = store.log();
        let ghost key = target@;
        assert(views[i as int] == section@);
        assert(routes_to(route, views[i as int].0, key));
        match import.begin(target, section) {
            Err(PlanError::VersionOverflow) => {
                let r: Result<ImportReport, ImportError<S::Error>> = Err(
                    ImportError::VersionOverflow,
                );
                assert(per_stream_ran::<S, R>(route, views, targets, logs, r));
                return r;
            },
            Ok(None) => {},
            Ok(Some(waiting)) => {
                let ghost at = *store;
                let ghost run = waiting@.1;
                let reply = store.append(
                    waiting.target(),
                    waiting.expected_version(),
                    waiting.batch(),
                );
                match import.settle(waiting, reply) {
                    Ok(()) => {},
                    Err(error) => {
                        let r: Result<ImportReport, ImportError<S::Error>> = Err(error);
                        proof {
                            let e = error->Store_0;
                            assert(at.append_fails(key, run_expects(run), run.events, e));
                            assert(run_fails::<S, R>(route, views[i as int], logs.last(), e));
                            assert(per_stream_ran::<S, R>(route, views, targets, logs, r));
                        }
                        return r;
                    },
                }
            },
        }
        proof {
            let next_targets = targets.push(key);
            let next_logs = logs.push(store.log());
            assert(section_step(views[i as int].1, key, before, store.log()));
            assert(sections_ran(route, views, next_targets, next_logs)) by {
                assert forall|j: int| 0 <= j < next_targets.len() implies #[trigger] routes_to(
                    route,
                    views[j].0,
                    next_targets[j],
                ) by {
                    if j < targets.len() {
                        assert(routes_to(route, views[j].0, targets[j]));
                    }
                }
                assert forall|j: int| 0 <= j < next_targets.len() implies #[trigger] section_step(
                    views[j].1,
                    next_targets[j],
                    next_logs[j],
                    next_logs[j + 1],
                ) by {
                    if j < targets.len() {
                        assert(section_step(views[j].1, targets[j], logs[j], logs[j + 1]));
                    }
                }
            }
            reports_upto_prefix(views, targets, logs, next_targets, next_logs, i as nat);
            assert(import@ =~= reports_upto(views, next_targets, next_logs, (i + 1) as nat));
            targets = next_targets;
            logs = next_logs;
        }
        i = i + 1;
    }
    let r: Result<ImportReport, ImportError<S::Error>> = Ok(import.finish());
    assert(per_stream_ran::<S, R>(route, views, targets, logs, r));
    r
}

/// The report of the first sections depends on those sections alone.
proof fn reports_upto_prefix(
    sections: Seq<(Seq<u8>, Seq<Option<EventView>>)>,
    targets: Seq<Seq<u8>>,
    logs: Seq<Seq<LogEntry>>,
    more_targets: Seq<Seq<u8>>,
    more_logs: Seq<Seq<LogEntry>>,
    n: nat,
)
    requires
        forall|i: int| 0 <= i < n ==> (#[trigger] targets[i]) == more_targets[i],
        forall|i: int| 0 <= i < n ==> (#[trigger] logs[i]) == more_logs[i],
    ensures
        reports_upto(sections, targets, logs, n) == reports_upto(
            sections,
            more_targets,
            more_logs,
            n,
        ),
    decreases n,
{
    if n > 0 {
        let i = n - 1;
        reports_upto_prefix(sections, targets, logs, more_targets, more_logs, i as nat);
        assert(targets[i] == more_targets[i]);
        assert(logs[i] == more_logs[i]);
    }
}

// ── Import, all or nothing ──────────────────────────────────────────────────────────────────────

/// What is wrong with a chunk: a stream and the reason, or a version past `u64::MAX`.
pub enum FaultView {
    Aborted(Seq<u8>, AbortReason),
    Overflow,
}

/// What is wrong with the blocks of a section, whatever the store holds.
pub open spec fn section_fault(target: Seq<u8>, blocks: Seq<Option<EventView>>) -> Option<
    FaultView,
> {
    match plan_of(blocks) {
        PlanView::Empty => None,
        PlanView::FirstCorrupt => Some(FaultView::Aborted(target, AbortReason::Corrupt)),
        PlanView::Overflow => Some(FaultView::Overflow),
        PlanView::Run(run) => match run.halt {
            Halt::Complete => None,
            Halt::Corrupt => Some(FaultView::Aborted(target, AbortReason::Corrupt)),
            Halt::Gap { got } => Some(
                FaultView::Aborted(
                    target,
                    AbortReason::Mismatch {
                        expected: version_at(run.events.last().version + 1),
                        got,
                    },
                ),
            ),
        },
    }
}

/// The writes with the run that a section leads with behind them.
pub open spec fn with_lead(
    writes: Seq<WriteView>,
    target: Seq<u8>,
    blocks: Seq<Option<EventView>>,
) -> Seq<WriteView> {
    match lead_of(blocks) {
        None => writes,
        Some(events) => writes.push(
            WriteView { target, expected: head_at((events[0].version - 1) as nat), events },
        ),
    }
}

/// What a write comes to whose target is at the head `actual` and not where the write begins.
pub open spec fn conflict_fault(write: WriteView, actual: Option<Version>) -> FaultView {
    match version_behind(actual) {
        Some(expected) => FaultView::Aborted(
            write.target,
            AbortReason::Mismatch { expected, got: version_at(write.events[0].version) },
        ),
        None => FaultView::Overflow,
    }
}

/// What write `i` comes to where it does not continue its target.
pub open spec fn stale_fault(log: Seq<LogEntry>, writes: Seq<WriteView>, i: int) -> FaultView {
    conflict_fault(writes[i], head_at(running_len(log, writes, i)))
}

/// What a chunk comes to: writes that all continue their targets, or the first offence.
pub enum ScanView {
    Clean(Seq<WriteView>),
    Offence(FaultView),
}

/// One more section of a chunk, for a store that holds `log`.
///
/// The first offence stands, whatever comes behind it. Within a section the run comes first, which
/// has to continue its target once the runs before it are counted in; then what ended the run.
pub open spec fn scan_section(
    log: Seq<LogEntry>,
    done: ScanView,
    target: Seq<u8>,
    blocks: Seq<Option<EventView>>,
) -> ScanView {
    match done {
        ScanView::Offence(_) => done,
        ScanView::Clean(writes) => {
            let more = with_lead(writes, target, blocks);
            let n = writes.len() as int;
            if lead_of(blocks) is Some && !write_fits(log, more, n) {
                ScanView::Offence(stale_fault(log, more, n))
            } else {
                match section_fault(target, blocks) {
                    Some(fault) => ScanView::Offence(fault),
                    None => ScanView::Clean(more),
                }
            }
        },
    }
}

/// The first `targets.len()` sections of a chunk, in order, for a store that holds `log`.
pub open spec fn scan_chunk(
    log: Seq<LogEntry>,
    sections: Seq<(Seq<u8>, Seq<Option<EventView>>)>,
    targets: Seq<Seq<u8>>,
) -> ScanView
    decreases targets.len(),
{
    if targets.len() == 0 {
        ScanView::Clean(Seq::empty())
    } else {
        let i = targets.len() - 1;
        scan_section(log, scan_chunk(log, sections, targets.drop_last()), targets[i], sections[i].1)
    }
}

/// A chunk as far as it was planned: the runs that its sections lead with, and the fault of the
/// section that was taken up last, if it has one.
#[verifier::ext_equal]
pub struct ChunkView {
    pub writes: Seq<WriteView>,
    pub fault: Option<FaultView>,
}

/// One more section of a chunk, whatever the store holds. Nothing is taken up behind a fault.
pub open spec fn take_up(
    done: ChunkView,
    target: Seq<u8>,
    blocks: Seq<Option<EventView>>,
) -> ChunkView {
    if done.fault is Some {
        done
    } else {
        ChunkView {
            writes: with_lead(done.writes, target, blocks),
            fault: section_fault(target, blocks),
        }
    }
}

/// The first `targets.len()` sections of a chunk, taken up in order.
pub open spec fn planned_chunk(
    sections: Seq<(Seq<u8>, Seq<Option<EventView>>)>,
    targets: Seq<Seq<u8>>,
) -> ChunkView
    decreases targets.len(),
{
    if targets.len() == 0 {
        ChunkView { writes: Seq::empty(), fault: None }
    } else {
        let i = targets.len() - 1;
        take_up(planned_chunk(sections, targets.drop_last()), targets[i], sections[i].1)
    }
}

/// The first of the first `n` writes that does not continue its target.
pub open spec fn first_unfit(log: Seq<LogEntry>, writes: Seq<WriteView>, n: nat) -> Option<int>
    decreases n,
{
    if n == 0 {
        None
    } else {
        match first_unfit(log, writes, (n - 1) as nat) {
            Some(k) => Some(k),
            None => if write_fits(log, writes, n - 1) {
                None
            } else {
                Some(n - 1)
            },
        }
    }
}

/// Whether a write fits depends on it and the writes before it alone.
proof fn fits_in_prefix(log: Seq<LogEntry>, writes: Seq<WriteView>, more: Seq<WriteView>, i: int)
    requires
        0 <= i < writes.len() <= more.len(),
        more.take(writes.len() as int) == writes,
    ensures
        write_fits(log, more, i) == write_fits(log, writes, i),
        running_len(log, more, i) == running_len(log, writes, i),
        more[i] == writes[i],
{
    assert(more.take(writes.len() as int)[i] == more[i]);
    assert(more.take(i) =~= writes.take(i));
}

proof fn unfit_in_prefix(log: Seq<LogEntry>, writes: Seq<WriteView>, more: Seq<WriteView>, n: nat)
    requires
        n <= writes.len() <= more.len(),
        more.take(writes.len() as int) == writes,
    ensures
        first_unfit(log, more, n) == first_unfit(log, writes, n),
        first_unfit(log, writes, n) matches Some(k) ==> 0 <= k < n,
    decreases n,
{
    if n > 0 {
        unfit_in_prefix(log, writes, more, (n - 1) as nat);
        fits_in_prefix(log, writes, more, n - 1);
    }
}

/// The first write that does not fit is the one behind writes that all do.
proof fn first_unfit_is(log: Seq<LogEntry>, writes: Seq<WriteView>, n: nat, k: int)
    requires
        0 <= k <= n <= writes.len(),
        forall|i: int| 0 <= i < k ==> #[trigger] write_fits(log, writes, i),
        k < n ==> !write_fits(log, writes, k),
    ensures
        first_unfit(log, writes, n) == (if k < n {
            Some(k)
        } else {
            None
        }),
    decreases n,
{
    if n > 0 {
        if k < n {
            first_unfit_is(log, writes, (n - 1) as nat, k);
        } else {
            first_unfit_is(log, writes, (n - 1) as nat, (n - 1) as int);
            assert(write_fits(log, writes, n - 1));
        }
    }
}

/// What a chunk comes to is what its first write comes to that does not continue its target, or
/// else its fault.
proof fn scan_of_plan(
    log: Seq<LogEntry>,
    sections: Seq<(Seq<u8>, Seq<Option<EventView>>)>,
    targets: Seq<Seq<u8>>,
)
    ensures
        ({
            let chunk = planned_chunk(sections, targets);
            match first_unfit(log, chunk.writes, chunk.writes.len()) {
                Some(k) => 0 <= k < chunk.writes.len() && scan_chunk(log, sections, targets)
                    == ScanView::Offence(stale_fault(log, chunk.writes, k)),
                None => scan_chunk(log, sections, targets) == (match chunk.fault {
                    Some(fault) => ScanView::Offence(fault),
                    None => ScanView::Clean(chunk.writes),
                }),
            }
        }),
    decreases targets.len(),
{
    if targets.len() > 0 {
        let fewer = targets.drop_last();
        scan_of_plan(log, sections, fewer);
        let before = planned_chunk(sections, fewer);
        let after = planned_chunk(sections, targets);
        let n = before.writes.len();
        if before.fault is None {
            assert(after.writes.take(n as int) =~= before.writes);
            unfit_in_prefix(log, before.writes, after.writes, n);
            if let Some(k) = first_unfit(log, before.writes, n) {
                fits_in_prefix(log, before.writes, after.writes, k);
            }
        }
    }
}

/// The report of a chunk that landed: every write is complete.
pub open spec fn completed(writes: Seq<WriteView>) -> Seq<(Seq<u8>, StreamOutcome)> {
    Seq::new(
        writes.len(),
        |i: int|
            (
                writes[i].target,
                StreamOutcome::Complete { version: version_at(writes[i].events.last().version) },
            ),
    )
}

/// A run that a stream can continue with: at least one event, in order, at versions that exist.
pub open spec fn sound_write(write: WriteView) -> bool {
    &&& write.events.len() > 0
    &&& 1 <= write.events[0].version
    &&& write.events.last().version <= u64::MAX
    &&& dense(write.events, (write.events[0].version - 1) as nat)
    &&& write.expected == head_at((write.events[0].version - 1) as nat)
}

/// What is wrong with a chunk.
#[derive(Debug)]
enum Fault {
    Aborted {
        stream: StreamKey,
        reason: AbortReason,
    },
    VersionOverflow,
}

impl View for Fault {
    type V = FaultView;

    closed spec fn view(&self) -> FaultView {
        match self {
            Fault::Aborted { stream, reason } => FaultView::Aborted(stream@, *reason),
            Fault::VersionOverflow => FaultView::Overflow,
        }
    }
}

/// A chunk being planned: the runs of the sections taken up so far, and the first fault.
#[derive(Debug)]
pub struct ChunkImport {
    writes: Vec<PlannedAppend>,
    firsts: Vec<Version>,
    lasts: Vec<Version>,
    fault: Option<Fault>,
}

impl View for ChunkImport {
    type V = ChunkView;

    closed spec fn view(&self) -> ChunkView {
        ChunkView {
            writes: write_views(self.writes@),
            fault: match self.fault {
                Some(fault) => Some(fault@),
                None => None,
            },
        }
    }
}

/// The last of the first `n` writes that goes to the stream `key`.
pub open spec fn latest_for(writes: Seq<WriteView>, n: nat, key: Seq<u8>) -> Option<int>
    decreases n,
{
    if n == 0 {
        None
    } else if writes[n - 1].target == key {
        Some(n - 1)
    } else {
        latest_for(writes, (n - 1) as nat, key)
    }
}

/// The head that the target of write `i` has once the writes before it are in, if `heads` are the
/// heads that the writes' targets have without them.
pub open spec fn running_head(
    writes: Seq<WriteView>,
    heads: Seq<Option<Version>>,
    i: int,
) -> Option<Version> {
    match latest_for(writes, i as nat, writes[i].target) {
        Some(j) => Some(version_at(writes[j].events.last().version)),
        None => heads[i],
    }
}

/// The first of the first `n` writes that expects another head than its target has.
pub open spec fn first_stale(
    writes: Seq<WriteView>,
    heads: Seq<Option<Version>>,
    n: nat,
) -> Option<int>
    decreases n,
{
    if n == 0 {
        None
    } else {
        match first_stale(writes, heads, (n - 1) as nat) {
            Some(k) => Some(k),
            None => if writes[n - 1].expected == running_head(writes, heads, n - 1) {
                None
            } else {
                Some(n - 1)
            },
        }
    }
}

/// What is wrong with a chunk, if `heads` are the heads that the targets of its runs have: the
/// first run that expects another head, or else the chunk's fault.
pub open spec fn refusal_of(chunk: ChunkView, heads: Seq<Option<Version>>) -> Option<FaultView> {
    match first_stale(chunk.writes, heads, chunk.writes.len()) {
        Some(k) => Some(
            conflict_fault(chunk.writes[k], running_head(chunk.writes, heads, k)),
        ),
        None => chunk.fault,
    }
}

/// Where the writes up to `n` fit, a stream is as long as its last write says.
proof fn latest_is_length(log: Seq<LogEntry>, writes: Seq<WriteView>, n: nat, key: Seq<u8>)
    requires
        n <= writes.len(),
        forall|i: int| 0 <= i < n ==> sound_write(#[trigger] writes[i]),
        forall|i: int| 0 <= i < n ==> #[trigger] write_fits(log, writes, i),
    ensures
        match latest_for(writes, n, key) {
            Some(j) => 0 <= j < n && len_after(log, writes, n as int, key)
                == writes[j].events.last().version,
            None => len_after(log, writes, n as int, key) == stream_of(log, key).len(),
        },
    decreases n,
{
    if n == 0 {
        assert(writes.take(0) =~= Seq::empty());
    } else {
        let i = n - 1;
        latest_is_length(log, writes, i as nat, key);
        len_after_write(log, writes, i, key);
        if writes[i].target == key {
            assert(write_fits(log, writes, i));
            assert(sound_write(writes[i]));
            let events = writes[i].events;
            assert(events[events.len() - 1].version == running_len(log, writes, i) + events.len());
        }
    }
}

/// Against the heads that the store has, a run is stale exactly where it does not fit.
proof fn stale_is_unfit(
    log: Seq<LogEntry>,
    writes: Seq<WriteView>,
    heads: Seq<Option<Version>>,
    n: nat,
)
    requires
        log_ok(log),
        n <= writes.len(),
        heads.len() == writes.len(),
        forall|i: int| 0 <= i < writes.len() ==> sound_write(#[trigger] writes[i]),
        forall|i: int|
            0 <= i < writes.len() ==> (#[trigger] heads[i]) == head_of(log, writes[i].target),
    ensures
        first_stale(writes, heads, n) == first_unfit(log, writes, n),
        match first_unfit(log, writes, n) {
            Some(k) => 0 <= k < n && running_head(writes, heads, k) == head_at(
                running_len(log, writes, k),
            ),
            None => forall|i: int| 0 <= i < n ==> #[trigger] write_fits(log, writes, i),
        },
    decreases n,
{
    if n > 0 {
        let i = n - 1;
        stale_is_unfit(log, writes, heads, i as nat);
        if first_unfit(log, writes, i as nat) is None {
            latest_is_length(log, writes, i as nat, writes[i].target);
            let length = running_len(log, writes, i);
            assert(heads[i] == head_of(log, writes[i].target));
            if let Some(j) = latest_for(writes, i as nat, writes[i].target) {
                assert(sound_write(writes[j]));
                let events = writes[j].events;
                assert(events[events.len() - 1].version >= 1);
            } else {
                assert(stream_of(log, writes[i].target).len() <= u64::MAX);
            }
            assert(running_head(writes, heads, i) == head_at(length));
            assert(sound_write(writes[i]));
            let first = (writes[i].events[0].version - 1) as nat;
            if head_at(first) == head_at(length) {
                if first > 0 {
                    assert(version_at(first)@ == first);
                }
                if length > 0 {
                    assert(version_at(length)@ == length);
                }
            }
        }
    }
}

impl ChunkImport {
    /// The cached versions agree with the runs, and every run is one that a stream can continue
    /// with.
    pub closed spec fn coherent(&self) -> bool {
        &&& self.firsts@.len() == self.writes@.len()
        &&& self.lasts@.len() == self.writes@.len()
        &&& forall|i: int|
            0 <= i < self.writes@.len() ==> (#[trigger] self.firsts@[i]) == version_at(
                self@.writes[i].events[0].version,
            )
        &&& forall|i: int|
            0 <= i < self.writes@.len() ==> (#[trigger] self.lasts@[i]) == version_at(
                self@.writes[i].events.last().version,
            )
        &&& forall|i: int| 0 <= i < self@.writes.len() ==> sound_write(#[trigger] self@.writes[i])
    }

    /// Every run of a chunk is one that a stream can continue with.
    proof fn coherent_is_sound(&self)
        requires
            self.coherent(),
        ensures
            forall|i: int|
                0 <= i < self@.writes.len() ==> sound_write(#[trigger] self@.writes[i]),
    {
    }

    /// A chunk of which no section was taken up yet.
    pub fn new() -> (r: ChunkImport)
        ensures
            r.coherent(),
            r@ == (ChunkView { writes: Seq::empty(), fault: None }),
    {
        let r = ChunkImport {
            writes: Vec::new(),
            firsts: Vec::new(),
            lasts: Vec::new(),
            fault: None,
        };
        assert(r@.writes =~= Seq::empty());
        r
    }

    /// Whether no section so far has a fault.
    pub fn is_clean(&self) -> (r: bool)
        ensures
            r == (self@.fault is None),
    {
        self.fault.is_none()
    }

    /// Takes up the next section, and answers whether the chunk is still without fault. Nothing is
    /// taken up behind a fault.
    pub fn add_section(&mut self, target: StreamKey, section: &StreamSection) -> (r: bool)
        requires
            old(self).coherent(),
        ensures
            final(self).coherent(),
            final(self)@ == take_up(old(self)@, target@, section@.1),
            r == (final(self)@.fault is None),
            sound_lead(section@.1),
    {
        let lead: Option<(SectionRun, bool)> = leading(section);
        if self.fault.is_some() {
            return false;
        }
        let (run, overflow): (SectionRun, bool) = match lead {
            None => {
                if section.blocks.len() > 0 {
                    self.fault = Some(
                        Fault::Aborted { stream: target, reason: AbortReason::Corrupt },
                    );
                    return false;
                }
                return true;
            },
            Some(lead) => lead,
        };
        let ghost planned = WriteView {
            target: target@,
            expected: head_at((run@.events[0].version - 1) as nat),
            events: run@.events,
        };
        if overflow {
            self.fault = Some(Fault::VersionOverflow);
        } else {
            match run.halt {
                Halt::Complete => {},
                Halt::Corrupt => {
                    self.fault = Some(
                        Fault::Aborted { stream: target.clone(), reason: AbortReason::Corrupt },
                    );
                },
                Halt::Gap { got } => {
                    self.fault = match run.last.next() {
                        Some(expected) => Some(
                            Fault::Aborted {
                                stream: target.clone(),
                                reason: AbortReason::Mismatch { expected, got },
                            },
                        ),
                        None => Some(Fault::VersionOverflow),
                    };
                },
            }
        }
        self.firsts.push(run.first);
        self.lasts.push(run.last);
        self.writes.push(
            PlannedAppend {
                target,
                expected_version: run.expected_version,
                head: run.head,
                tail: run.tail,
            },
        );
        assert(self@.writes =~= old(self)@.writes.push(planned));
        self.fault.is_none()
    }

    /// The first run that expects another head than its target has, and that head. `heads` are the
    /// heads that the store has for the targets of the runs, one for each run.
    pub fn first_conflict(&self, heads: &[Option<Version>]) -> (r: Option<
        (usize, Option<Version>),
    >)
        requires
            self.coherent(),
            heads@.len() == self@.writes.len(),
        ensures
            match first_stale(self@.writes, heads@, self@.writes.len()) {
                Some(k) => r matches Some((index, actual)) && index == k && index
                    < self@.writes.len() && actual == running_head(self@.writes, heads@, k),
                None => r is None,
            },
    {
        let ghost writes = self@.writes;
        let mut i: usize = 0;
        while i < self.writes.len()
            invariant
                0 <= i <= self.writes.len(),
                self.coherent(),
                writes == self@.writes,
                heads@.len() == writes.len(),
                first_stale(writes, heads@, i as nat) is None,
            decreases self.writes.len() - i,
        {
            let mut actual: Option<Version> = heads[i];
            let mut j: usize = i;
            while j > 0
                invariant_except_break
                    actual == heads@[i as int],
                    latest_for(writes, i as nat, writes[i as int].target) == latest_for(
                        writes,
                        j as nat,
                        writes[i as int].target,
                    ),
                invariant
                    0 <= j <= i < self.writes.len(),
                    self.coherent(),
                    writes == self@.writes,
                    heads@.len() == writes.len(),
                ensures
                    actual == running_head(writes, heads@, i as int),
                decreases j,
            {
                j = j - 1;
                if self.writes[j].target.same(&self.writes[i].target) {
                    actual = Some(self.lasts[j]);
                    break;
                }
            }
            if self.writes[i].expected_version != actual {
                proof {
                    stale_stays(writes, heads@, (i + 1) as nat, writes.len());
                }
                return Some((i, actual));
            }
            i = i + 1;
        }
        None
    }

    /// Why the chunk is refused. `heads` are the heads that the store has for the targets of the
    /// runs, one for each run.
    pub fn refusal<E>(&self, heads: &[Option<Version>]) -> (r: ImportError<E>)
        requires
            self.coherent(),
            self@.fault is Some,
            heads@.len() == self@.writes.len(),
        ensures
            fault_view(r) == refusal_of(self@, heads@),
    {
        match self.first_conflict(heads) {
            Some((index, actual)) => {
                assert(self.firsts@ =~= first_versions(self@.writes));
                map_atomic_conflict(
                    self.firsts.as_slice(),
                    self.writes.as_slice(),
                    index,
                    actual,
                )
            },
            None => self.own_refusal(),
        }
    }

    /// Why the chunk is refused, whatever heads the targets of its runs have.
    pub fn own_refusal<E>(&self) -> (r: ImportError<E>)
        requires
            self@.fault is Some,
        ensures
            fault_view(r) == self@.fault,
    {
        match &self.fault {
            Some(Fault::Aborted { stream, reason }) => ImportError::Aborted {
                stream: stream.clone(),
                reason: *reason,
            },
            _ => ImportError::VersionOverflow,
        }
    }

    /// The writes to commit in one transaction.
    pub fn writes(&self) -> (r: &[PlannedAppend])
        ensures
            write_views(r@) == self@.writes,
    {
        self.writes.as_slice()
    }

    /// Takes the store's answer to the writes.
    pub fn settle<P, E>(self, reply: Result<Option<P>, AtomicAppendError<E>>) -> (r: Result<
        ImportReport,
        ImportError<E>,
    >)
        requires
            self.coherent(),
        ensures
            match reply {
                Ok(_) => r matches Ok(report) && report@ == completed(self@.writes),
                Err(AtomicAppendError::Store(error)) => r == Err::<ImportReport, ImportError<E>>(
                    ImportError::Store(error),
                ),
                Err(AtomicAppendError::Conflict { index, actual }) => r matches Err(error)
                    && fault_view(error) == Some(conflict_of(self@.writes, index, actual)),
            },
    {
        match reply {
            Ok(_) => {
                let mut reports: Vec<StreamReport> = Vec::new();
                let mut i: usize = 0;
                while i < self.writes.len()
                    invariant
                        0 <= i <= self.writes.len(),
                        self.coherent(),
                        reports@.len() == i,
                        forall|j: int|
                            0 <= j < i ==> (#[trigger] reports@[j])@ == completed(self@.writes)[j],
                    decreases self.writes.len() - i,
                {
                    let version: Version = self.lasts[i];
                    let stream: StreamKey = self.writes[i].target.clone();
                    reports.push(
                        StreamReport { stream, outcome: StreamOutcome::Complete { version } },
                    );
                    i = i + 1;
                }
                assert(report_views(reports@) =~= completed(self@.writes));
                Ok(ImportReport::new(reports))
            },
            Err(AtomicAppendError::Conflict { index, actual }) => {
                assert(self.firsts@ =~= first_versions(self@.writes));
                Err(
                    map_atomic_conflict(
                        self.firsts.as_slice(),
                        self.writes.as_slice(),
                        index,
                        actual,
                    ),
                )
            },
            Err(AtomicAppendError::Store(error)) => Err(ImportError::Store(error)),
        }
    }
}

proof fn stale_stays(writes: Seq<WriteView>, heads: Seq<Option<Version>>, n: nat, m: nat)
    requires
        n <= m <= writes.len(),
        first_stale(writes, heads, n) is Some,
    ensures
        first_stale(writes, heads, m) == first_stale(writes, heads, n),
    decreases m - n,
{
    if n < m {
        stale_stays(writes, heads, n, (m - 1) as nat);
    }
}

/// What is wrong according to an import failure; `None` for a failure of the store.
pub open spec fn fault_view<E>(error: ImportError<E>) -> Option<FaultView> {
    match error {
        ImportError::Aborted { stream, reason } => Some(FaultView::Aborted(stream@, reason)),
        ImportError::VersionOverflow => Some(FaultView::Overflow),
        ImportError::Store(_) => None,
    }
}

/// The entry that an index stands for: one out of range stands for the first.
pub open spec fn entry_of(len: nat, index: usize) -> Option<int> {
    if index < len {
        Some(index as int)
    } else if len > 0 {
        Some(0)
    } else {
        None
    }
}

/// What a conflict at write `index` comes to, if `firsts` are the writes' first versions.
pub open spec fn conflict_at(
    firsts: Seq<Version>,
    writes: Seq<WriteView>,
    index: usize,
    actual: Option<Version>,
) -> FaultView {
    match (entry_of(firsts.len(), index), entry_of(writes.len(), index), version_behind(actual)) {
        (Some(f), Some(w), Some(expected)) => FaultView::Aborted(
            writes[w].target,
            AbortReason::Mismatch { expected, got: firsts[f] },
        ),
        _ => FaultView::Overflow,
    }
}

/// The first version of each write.
pub open spec fn first_versions(writes: Seq<WriteView>) -> Seq<Version> {
    Seq::new(writes.len(), |i: int| version_at(writes[i].events[0].version))
}

/// What a conflict at write `index` comes to.
pub open spec fn conflict_of(
    writes: Seq<WriteView>,
    index: usize,
    actual: Option<Version>,
) -> FaultView {
    conflict_at(first_versions(writes), writes, index, actual)
}

/// Turns a store's conflict at write `index` into an abort that names the offending target.
///
/// `firsts` holds each write's first version. An index out of range, which only a broken adapter
/// answers, counts as the first write.
pub fn map_atomic_conflict<E>(
    firsts: &[Version],
    writes: &[PlannedAppend],
    index: usize,
    actual: Option<Version>,
) -> (r: ImportError<E>)
    ensures
        fault_view(r) == Some(conflict_at(firsts@, write_views(writes@), index, actual)),
{
    if firsts.len() == 0 || writes.len() == 0 {
        return ImportError::VersionOverflow;
    }
    let got: Version = if index < firsts.len() {
        firsts[index]
    } else {
        firsts[0]
    };
    let write: &PlannedAppend = if index < writes.len() {
        &writes[index]
    } else {
        &writes[0]
    };
    let expected: Version = match actual {
        Some(head) => match head.next() {
            Some(next) => next,
            None => {
                return ImportError::VersionOverflow;
            },
        },
        None => Version::initial(),
    };
    ImportError::Aborted {
        stream: write.target.clone(),
        reason: AbortReason::Mismatch { expected, got },
    }
}

/// The heads of the writes' targets cannot all be read: one of the reads may fail.
pub open spec fn head_unread<S: RawEventStore>(store: S, writes: Seq<WriteView>) -> bool {
    exists|i: int, id: StreamKey, e: S::Error|
        {
            &&& 0 <= i < writes.len()
            &&& #[trigger] read_fails(store, writes[i], id, e)
        }
}

/// The read of the target of a write may fail with this error.
pub open spec fn read_fails<S: RawEventStore>(
    store: S,
    write: WriteView,
    id: StreamKey,
    e: S::Error,
) -> bool {
    write.target == id@ && call_ensures(
        S::read_stream,
        (&store, &id, version_at(1)),
        Err::<Vec<PersistedEnvelope>, S::Error>(e),
    )
}

/// An all-or-nothing import looked at the first sections and sent them to `targets`.
pub open spec fn chunk_ran<S: AtomicAppend, R: Fn(&[u8]) -> StreamKey>(
    route: R,
    sections: Seq<(Seq<u8>, Seq<Option<EventView>>)>,
    targets: Seq<Seq<u8>>,
    before: S,
    after: Seq<LogEntry>,
    r: Result<ImportReport, ImportError<S::Error>>,
) -> bool {
    let chunk = planned_chunk(sections, targets);
    &&& targets.len() <= sections.len()
    &&& forall|i: int|
        0 <= i < targets.len() ==> #[trigger] routes_to(route, sections[i].0, targets[i])
    &&& forall|i: int| 0 <= i < targets.len() ==> sound_lead((#[trigger] sections[i]).1)
    &&& chunk.fault is None ==> targets.len() == sections.len()
    &&& match r {
        Ok(report) => targets.len() == sections.len() && (scan_chunk(
            before.log(),
            sections,
            targets,
        ) matches ScanView::Clean(writes) && report@ == completed(writes) && extends(
            before.log(),
            after,
            planned_rows(writes),
        )),
        Err(ImportError::Store(e)) => {
            &&& chunk.fault is None
            &&& before.transaction_fails(chunk.writes, e)
            &&& after == before.log()
        },
        Err(error) => {
            &&& scan_chunk(before.log(), sections, targets) matches ScanView::Offence(fault) && (
            fault_view(error) == Some(fault) || chunk.fault is Some && fault_view(error)
                == chunk.fault && head_unread(before, chunk.writes))
            &&& after == before.log()
        },
    }
}

/// The result of an all-or-nothing import.
///
/// The first offence aborts, in section order and within a section in block order: a run that does
/// not continue its target, a corrupt block, a gap. Where a head that this needs cannot be read,
/// the chunk's own fault aborts. Without an offence, every run lands in one transaction, unless
/// the store fails. On any failure the log is what it was.
pub open spec fn whole_chunk_result<S: AtomicAppend, R: Fn(&[u8]) -> StreamKey>(
    route: R,
    sections: Seq<(Seq<u8>, Seq<Option<EventView>>)>,
    before: S,
    after: Seq<LogEntry>,
    r: Result<ImportReport, ImportError<S::Error>>,
) -> bool {
    exists|targets: Seq<Seq<u8>>| #[trigger]
        chunk_ran::<S, R>(route, sections, targets, before, after, r)
}

/// The head that a store has for a stream.
pub fn stream_head<S: RawEventStore>(store: &S, id: &StreamKey) -> (r: Result<
    Option<Version>,
    S::Error,
>)
    requires
        store.valid(),
    ensures
        r matches Ok(head) ==> head == head_of(store.log(), id@),
        r matches Err(e) ==> call_ensures(
            S::read_stream,
            (store, id, version_at(1)),
            Err::<Vec<PersistedEnvelope>, S::Error>(e),
        ),
{
    let reply: Result<Vec<PersistedEnvelope>, S::Error> = store.read_stream(id, Version::initial());
    match reply {
        Err(e) => Err(e),
        Ok(found) => {
            proof {
                store.valid_log();
                let stream = stream_of(store.log(), id@);
                assert(dense(stream, 0));
                dense_from_version(stream, 1);
                assert(stream.skip(0) =~= stream);
                assert(persisted_views(found@) == stream);
            }
            let n: usize = found.len();
            if n == 0 {
                Ok(None)
            } else {
                assert(persisted_views(found@)[n - 1] == found@[n - 1]@);
                Ok(Some(found[n - 1].version()))
            }
        },
    }
}

/// The heads that a store has for the targets of a chunk's runs, one for each run.
fn target_heads<S: RawEventStore>(store: &S, chunk: &ChunkImport) -> (r: Result<
    Vec<Option<Version>>,
    S::Error,
>)
    requires
        store.valid(),
    ensures
        match r {
            Ok(heads) => {
                &&& heads@.len() == chunk@.writes.len()
                &&& forall|i: int|
                    0 <= i < heads@.len() ==> (#[trigger] heads@[i]) == head_of(
                        store.log(),
                        chunk@.writes[i].target,
                    )
            },
            Err(_) => head_unread(*store, chunk@.writes),
        },
{
    let mut heads: Vec<Option<Version>> = Vec::new();
    let mut i: usize = 0;
    while i < chunk.writes.len()
        invariant
            0 <= i <= chunk.writes.len(),
            store.valid(),
            heads@.len() == i,
            forall|j: int|
                0 <= j < i ==> (#[trigger] heads@[j]) == head_of(
                    store.log(),
                    chunk@.writes[j].target,
                ),
        decreases chunk.writes.len() - i,
    {
        let target: &StreamKey = &chunk.writes[i].target;
        match stream_head(store, target) {
            Ok(head) => heads.push(head),
            Err(e) => {
                assert(read_fails(*store, chunk@.writes[i as int], *target, e));
                return Err(e);
            },
        }
        i = i + 1;
    }
    Ok(heads)
}

/// Imports all or nothing: every section's run lands in one transaction, or none does.
///
/// A chunk with a fault is not sent to the store: the heads of its targets are read, to tell which
/// offence comes first. Where one of these reads fails, the fault stands.
pub fn import_whole_chunk<S: AtomicAppend, R: Fn(&[u8]) -> StreamKey>(
    store: &mut S,
    sections: &[StreamSection],
    route: R,
) -> (r: Result<ImportReport, ImportError<S::Error>>)
    requires
        old(store).valid(),
        forall|bytes: &[u8]| call_requires(route, (bytes,)),
    ensures
        final(store).valid(),
        whole_chunk_result::<S, R>(
            route,
            section_views(sections@),
            *old(store),
            final(store).log(),
            r,
        ),
{
    let ghost views = section_views(sections@);
    let mut chunk: ChunkImport = ChunkImport::new();
    let ghost mut targets: Seq<Seq<u8>> = Seq::empty();
    let mut i: usize = 0;
    while i < sections.len()
        invariant_except_break
            chunk@.fault is None,
        invariant
            0 <= i <= sections.len(),
            views == section_views(sections@),
            *store == *old(store),
            store.valid(),
            chunk.coherent(),
            forall|bytes: &[u8]| call_requires(route, (bytes,)),
            targets.len() == i,
            forall|j: int|
                0 <= j < targets.len() ==> #[trigger] routes_to(route, views[j].0, targets[j]),
            forall|j: int| 0 <= j < targets.len() ==> sound_lead((#[trigger] views[j]).1),
            planned_chunk(views, targets) == chunk@,
        ensures
            chunk@.fault is None ==> i == sections.len(),
        decreases sections.len() - i,
    {
        let section: &StreamSection = &sections[i];
        let origin: &[u8] = as_octets(&section.origin);
        let target: StreamKey = route(origin);
        proof {
            let next = targets.push(target@);
            assert(views[i as int] == section@);
            assert(routes_to(route, views[i as int].0, target@));
            assert forall|j: int| 0 <= j < next.len() implies #[trigger] routes_to(
                route,
                views[j].0,
                next[j],
            ) by {
                if j < targets.len() {
                    assert(routes_to(route, views[j].0, targets[j]));
                }
            }
            assert(next.drop_last() =~= targets);
            targets = next;
        }
        i = i + 1;
        if !chunk.add_section(target, section) {
            break;
        }
    }
    proof {
        scan_of_plan(old(store).log(), views, targets);
    }
    if !chunk.is_clean() {
        let refused: ImportError<S::Error> = match target_heads(&*store, &chunk) {
            Err(_) => chunk.own_refusal(),
            Ok(heads) => {
                proof {
                    store.valid_log();
                    chunk.coherent_is_sound();
                    stale_is_unfit(store.log(), chunk@.writes, heads@, chunk@.writes.len());
                }
                chunk.refusal(heads.as_slice())
            },
        };
        let r: Result<ImportReport, ImportError<S::Error>> = Err(refused);
        assert(chunk_ran::<S, R>(route, views, targets, *store, store.log(), r));
        return r;
    }
    proof {
        chunk.coherent_is_sound();
    }
    let reply = store.atomic_append_many(chunk.writes());
    let ghost writes = chunk@.writes;
    let ghost answer = reply;
    let r = chunk.settle(reply);
    proof {
        let log = old(store).log();
        match answer {
            Ok(_) => {
                first_unfit_is(log, writes, writes.len(), writes.len() as int);
            },
            Err(AtomicAppendError::Conflict { index, .. }) => {
                first_unfit_is(log, writes, writes.len(), index as int);
            },
            Err(AtomicAppendError::Store(_)) => {},
        }
        assert(chunk_ran::<S, R>(route, views, targets, *old(store), store.log(), r));
    }
    r
}

/// Imports under a caller's policy.
pub trait EventImporter: AtomicAppend {
    /// Places the sections onto the targets that `route` answers for their origins.
    fn import<R: Fn(&[u8]) -> StreamKey>(
        &mut self,
        sections: &[StreamSection],
        route: R,
        atomicity: Atomicity,
    ) -> (r: Result<ImportReport, ImportError<Self::Error>>)
        requires
            old(self).valid(),
            forall|bytes: &[u8]| call_requires(route, (bytes,)),
        ensures
            final(self).valid(),
            match atomicity {
                Atomicity::PerStream => per_stream_result::<Self, R>(
                    route,
                    section_views(sections@),
                    old(self).log(),
                    final(self).log(),
                    r,
                ),
                Atomicity::WholeChunk => whole_chunk_result::<Self, R>(
                    route,
                    section_views(sections@),
                    *old(self),
                    final(self).log(),
                    r,
                ),
            },
    ;
}

impl<S: AtomicAppend> EventImporter for S {
    fn import<R: Fn(&[u8]) -> StreamKey>(
        &mut self,
        sections: &[StreamSection],
        route: R,
        atomicity: Atomicity,
    ) -> (r: Result<ImportReport, ImportError<S::Error>>) {
        match atomicity {
            Atomicity::PerStream => import_per_stream(self, sections, route),
            Atomicity::WholeChunk => import_whole_chunk(self, sections, route),
        }
    }
}

} // verus!
