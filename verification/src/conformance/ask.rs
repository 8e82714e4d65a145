//! What a check asks of the store under test.

use crate::conformance::reply::{
    all_views, before, reply_views, step_views, AllRow, AllRowView, Reply, ReplyView, StepSeen,
    StepView,
};
use crate::conformance::row::{plain_row, row_views, ConformanceRow, SubId};
use crate::envelope::EventView;
use crate::store::AllPosition;
use crate::stream_key::StreamKey;
use crate::value::SchemaVersion;
use crate::version::{group_version, head_at, Version};
use vstd::prelude::*;
use vstd::utf8::*;

verus! {

broadcast use group_version;

/// A run of rows for one stream.
#[derive(Debug)]
pub struct WriteRows {
    /// The target stream.
    pub key: StreamKey,
    /// The head that the stream is expected at.
    pub expected: Option<Version>,
    /// The rows.
    pub rows: Vec<ConformanceRow>,
}

/// A run of rows for one stream, as a value.
#[verifier::ext_equal]
pub struct WriteRowsView {
    pub key: Seq<u8>,
    pub expected: Option<Version>,
    pub rows: Seq<EventView>,
}

impl View for WriteRows {
    type V = WriteRowsView;

    open spec fn view(&self) -> WriteRowsView {
        WriteRowsView { key: self.key@, expected: self.expected, rows: row_views(self.rows@) }
    }
}

/// What a sequence of runs holds.
pub open spec fn run_views(runs: Seq<WriteRows>) -> Seq<WriteRowsView> {
    Seq::new(runs.len(), |i: int| runs[i]@)
}

/// What each task of a race is to append.
pub open spec fn task_views(tasks: Seq<Vec<WriteRows>>) -> Seq<Seq<WriteRowsView>> {
    Seq::new(tasks.len(), |i: int| run_views(tasks[i]@))
}

/// How long to take steps from a subscription.
#[derive(Clone, Copy, Debug, PartialEq, Eq, Structural)]
pub enum Until {
    /// Take one step.
    One,
    /// Take steps up to the first boundary.
    CaughtUp,
    /// Take steps until so many events and a boundary have come, in whatever order.
    EventsAndCaughtUp(usize),
}

/// How many of the steps are events.
pub open spec fn event_count<P>(steps: Seq<StepView<P>>) -> nat {
    steps.filter(|s: StepView<P>| !(s is CaughtUp)).len()
}

impl Until {
    /// Whether the steps so far are enough.
    pub open spec fn met<P>(self, steps: Seq<StepView<P>>) -> bool {
        match self {
            Until::One => steps.len() >= 1,
            Until::CaughtUp => steps.contains(StepView::CaughtUp),
            Until::EventsAndCaughtUp(n) => event_count(steps) >= n && steps.contains(
                StepView::CaughtUp,
            ),
        }
    }

    /// Whether the steps so far are enough.
    pub fn reached<P>(self, steps: &[StepSeen<P>]) -> (r: bool)
        ensures
            r == self.met(step_views(steps@)),
    {
        let ghost views = step_views(steps@);
        let ghost is_event = |s: StepView<P>| !(s is CaughtUp);
        let mut events: usize = 0;
        let mut boundary: bool = false;
        let mut i: usize = 0;
        while i < steps.len()
            invariant
                0 <= i <= steps.len(),
                views == step_views(steps@),
                is_event == (|s: StepView<P>| !(s is CaughtUp)),
                events == views.take(i as int).filter(is_event).len(),
                events <= i,
                boundary == views.take(i as int).contains(StepView::CaughtUp),
            decreases steps.len() - i,
        {
            proof {
                let shorter = views.take(i as int);
                assert(views.take(i + 1) =~= shorter.push(views[i as int]));
                shorter.lemma_filter_push(views[i as int], is_event);
                if views[i as int] is CaughtUp {
                    assert(views.take(i + 1)[i as int] == StepView::<P>::CaughtUp);
                }
                if shorter.contains(StepView::CaughtUp) {
                    let k = choose|k: int| 0 <= k < shorter.len() && shorter[k] == StepView::<
                        P,
                    >::CaughtUp;
                    assert(views.take(i + 1)[k] == StepView::<P>::CaughtUp);
                }
            }
            match &steps[i] {
                StepSeen::CaughtUp => {
                    boundary = true;
                },
                _ => {
                    events = events + 1;
                },
            }
            i = i + 1;
        }
        assert(views.take(i as int) =~= views);
        match self {
            Until::One => steps.len() >= 1,
            Until::CaughtUp => boundary,
            Until::EventsAndCaughtUp(n) => events >= n && boundary,
        }
    }
}

/// A position that an earlier answer gave, or one of the caller's samples.
#[derive(Clone, Copy, Debug, PartialEq, Eq, Structural)]
pub enum Mark {
    /// No position: the beginning.
    Start,
    /// The position of a row of an all-streams read.
    Row {
        /// Which answer.
        answer: usize,
        /// Which row of it.
        row: usize,
    },
    /// The position of the last row of an all-streams read.
    Last {
        /// Which answer.
        answer: usize,
    },
    /// One of the caller's sample positions.
    Sample {
        /// Which one.
        index: usize,
    },
}

impl Mark {
    /// The position, as far as the first `n` answers give it.
    pub open spec fn place<P>(self, seen: Seq<ReplyView<P>>, n: int, samples: Seq<P>) -> Option<P> {
        match self {
            Mark::Start => None,
            Mark::Row { answer, row } => match before(seen, n, answer as int) {
                Some(ReplyView::AllRows(rows)) => if row < rows.len() {
                    Some(rows[row as int].position)
                } else {
                    None
                },
                _ => None,
            },
            Mark::Last { answer } => match before(seen, n, answer as int) {
                Some(ReplyView::AllRows(rows)) => if rows.len() > 0 {
                    Some(rows.last().position)
                } else {
                    None
                },
                _ => None,
            },
            Mark::Sample { index } => if index < samples.len() {
                Some(samples[index as int])
            } else {
                None
            },
        }
    }

    /// The position, as far as the first `n` answers give it.
    pub fn find<P: AllPosition>(self, seen: &[Reply<P>], n: usize, samples: &[P]) -> (r: Option<P>)
        requires
            n <= seen@.len(),
        ensures
            r == self.place(reply_views(seen@), n as int, samples@),
    {
        match self {
            Mark::Start => None,
            Mark::Row { answer, row } => {
                if answer >= n {
                    return None;
                }
                assert(reply_views(seen@)[answer as int] == seen@[answer as int]@);
                match &seen[answer] {
                    Reply::AllRows(rows) => if row < rows.len() {
                        assert(all_views(rows@)[row as int] == rows@[row as int]@);
                        Some(rows[row].position)
                    } else {
                        None
                    },
                    _ => None,
                }
            },
            Mark::Last { answer } => {
                if answer >= n {
                    return None;
                }
                assert(reply_views(seen@)[answer as int] == seen@[answer as int]@);
                match &seen[answer] {
                    Reply::AllRows(rows) => if rows.len() > 0 {
                        assert(all_views(rows@)[rows@.len() - 1] == rows@[rows@.len() - 1]@);
                        Some(rows[rows.len() - 1].position)
                    } else {
                        None
                    },
                    _ => None,
                }
            },
            Mark::Sample { index } => if index < samples.len() {
                Some(samples[index])
            } else {
                None
            },
        }
    }
}

/// What a check asks of the store under test.
#[derive(Debug)]
pub enum Ask {
    /// Append rows to a stream.
    Append(WriteRows),
    /// Read a stream from a version on to its end, then look again behind the end.
    ReadStream {
        /// The stream.
        key: StreamKey,
        /// The first version to read.
        from: Version,
        /// How often to look again.
        polls: usize,
    },
    /// Read all streams strictly behind a position to the end.
    ReadAll {
        /// The position to read behind.
        after: Mark,
    },
    /// Read all streams in cycles of at most `limit` rows, each behind the last row of the one
    /// before, until a cycle yields no row.
    ReadPages {
        /// The most rows per cycle.
        limit: usize,
    },
    /// Append several runs in one transaction.
    AtomicAppend(Vec<WriteRows>),
    /// Open a subscription to a stream.
    Subscribe {
        /// Where to keep it.
        slot: usize,
        /// The stream.
        key: StreamKey,
        /// The version to start behind.
        behind: Option<Version>,
    },
    /// Open a subscription to all streams, from the beginning.
    SubscribeAll {
        /// Where to keep it.
        slot: usize,
    },
    /// Take steps from a subscription.
    Steps {
        /// Where the subscription is kept.
        slot: usize,
        /// When to stop.
        until: Until,
    },
    /// Close the store and open the same storage again.
    Reopen,
    /// Append from several tasks at once, each task its own runs in order.
    Race(Vec<Vec<WriteRows>>),
    /// Start a task that waits and then appends run by run while the check goes on.
    Background {
        /// How long the task waits, in milliseconds.
        delay_ms: u64,
        /// The runs.
        runs: Vec<WriteRows>,
    },
    /// Wait for the task in the background.
    Join,
    /// Ask the snapshot store for a snapshot.
    Hydrate {
        /// The id.
        id: SubId,
        /// The schema version asked for.
        schema: SchemaVersion,
    },
    /// Save a snapshot.
    Commit {
        /// The id.
        id: SubId,
        /// The schema version.
        schema: SchemaVersion,
        /// The position to save.
        position: Mark,
        /// The state to save.
        state: Vec<u8>,
    },
}

/// What a check asks, as a value.
pub enum AskView {
    Append(WriteRowsView),
    ReadStream(Seq<u8>, Version, usize),
    ReadAll(Mark),
    ReadPages(usize),
    AtomicAppend(Seq<WriteRowsView>),
    Subscribe(usize, Seq<u8>, Option<Version>),
    SubscribeAll(usize),
    Steps(usize, Until),
    Reopen,
    Race(Seq<Seq<WriteRowsView>>),
    Background(u64, Seq<WriteRowsView>),
    Join,
    Hydrate(Seq<char>, nat),
    Commit(Seq<char>, nat, Mark, Seq<u8>),
}

impl View for Ask {
    type V = AskView;

    open spec fn view(&self) -> AskView {
        match self {
            Ask::Append(run) => AskView::Append(run@),
            Ask::ReadStream { key, from, polls } => AskView::ReadStream(key@, *from, *polls),
            Ask::ReadAll { after } => AskView::ReadAll(*after),
            Ask::ReadPages { limit } => AskView::ReadPages(*limit),
            Ask::AtomicAppend(runs) => AskView::AtomicAppend(run_views(runs@)),
            Ask::Subscribe { slot, key, behind } => AskView::Subscribe(*slot, key@, *behind),
            Ask::SubscribeAll { slot } => AskView::SubscribeAll(*slot),
            Ask::Steps { slot, until } => AskView::Steps(*slot, *until),
            Ask::Reopen => AskView::Reopen,
            Ask::Race(tasks) => AskView::Race(task_views(tasks@)),
            Ask::Background { delay_ms, runs } => AskView::Background(*delay_ms, run_views(runs@)),
            Ask::Join => AskView::Join,
            Ask::Hydrate { id, schema } => AskView::Hydrate(id@, schema@),
            Ask::Commit { id, schema, position, state } => AskView::Commit(
                id@,
                schema@,
                *position,
                state@,
            ),
        }
    }
}

impl AskView {
    /// The position that goes with the question.
    pub open spec fn mark(self) -> Mark {
        match self {
            AskView::ReadAll(after) => after,
            AskView::Commit(_, _, position, _) => position,
            _ => Mark::Start,
        }
    }
}

impl Ask {
    /// The position that goes with the question.
    pub fn mark(&self) -> (r: Mark)
        ensures
            r == self@.mark(),
    {
        match self {
            Ask::ReadAll { after } => *after,
            Ask::Commit { position, .. } => *position,
            _ => Mark::Start,
        }
    }
}

/// The position that the next cycle of a paged read resumes behind: that of the cycle's last row.
/// There is none behind a cycle without rows, and the read is over.
fn resume_behind<P: AllPosition>(cycle: &[AllRow<P>]) -> (r: Option<P>)
    ensures
        r == (if cycle@.len() == 0 {
            None
        } else {
            Some(cycle@.last().position)
        }),
{
    if cycle.len() == 0 {
        None
    } else {
        Some(cycle[cycle.len() - 1].position)
    }
}

/// A read of all streams in cycles, as far as it went.
#[derive(Debug)]
pub struct Pages<P> {
    rows: Vec<AllRow<P>>,
    behind: Option<P>,
    done: bool,
}

/// A read in cycles, as a value: the rows so far, the position that the next cycle reads behind,
/// and whether the read is over.
#[verifier::ext_equal]
pub struct PagesView<P> {
    pub rows: Seq<AllRowView<P>>,
    pub behind: Option<P>,
    pub done: bool,
}

impl<P> View for Pages<P> {
    type V = PagesView<P>;

    closed spec fn view(&self) -> PagesView<P> {
        PagesView { rows: all_views(self.rows@), behind: self.behind, done: self.done }
    }
}

/// A read in cycles before its first one.
pub open spec fn unread<P>() -> PagesView<P> {
    PagesView { rows: Seq::empty(), behind: None, done: false }
}

/// The read behind one more cycle: the next one resumes behind its last row. A cycle without rows
/// ends the read.
pub open spec fn turned<P>(pages: PagesView<P>, cycle: Seq<AllRowView<P>>) -> PagesView<P> {
    if cycle.len() == 0 {
        PagesView { done: true, ..pages }
    } else {
        PagesView {
            rows: pages.rows + cycle,
            behind: Some(cycle.last().position),
            done: pages.done,
        }
    }
}

impl<P: AllPosition> Pages<P> {
    /// A read that starts at the beginning.
    pub fn new() -> (r: Pages<P>)
        ensures
            r@ == unread::<P>(),
    {
        let r: Pages<P> = Pages { rows: Vec::new(), behind: None, done: false };
        assert(r@.rows =~= Seq::empty());
        r
    }

    /// Whether the read is over.
    pub fn is_done(&self) -> (r: bool)
        ensures
            r == self@.done,
    {
        self.done
    }

    /// The position that the next cycle reads behind; `None` for the beginning.
    pub fn behind(&self) -> (r: Option<P>)
        ensures
            r == self@.behind,
    {
        self.behind
    }

    /// Takes the rows of a cycle.
    pub fn on_cycle(&mut self, cycle: Vec<AllRow<P>>)
        ensures
            final(self)@ == turned(old(self)@, all_views(cycle@)),
    {
        let mut cycle: Vec<AllRow<P>> = cycle;
        let ghost taken = all_views(cycle@);
        match resume_behind(cycle.as_slice()) {
            None => {
                self.done = true;
            },
            Some(last) => {
                assert(taken.last() == cycle@.last()@);
                self.behind = Some(last);
                self.rows.append(&mut cycle);
                assert(self@.rows =~= old(self)@.rows + taken);
            },
        }
    }

    /// The rows of all cycles.
    pub fn into_rows(self) -> (r: Vec<AllRow<P>>)
        ensures
            all_views(r@) == self@.rows,
    {
        self.rows
    }
}

// ── Questions that the checks share ─────────────────────────────────────────────────────────────

/// The bytes of a name.
pub open spec fn name_octets(name: &str) -> Seq<u8> {
    encode_utf8(name@)
}

/// The stream of a name.
pub fn named(name: &str) -> (r: StreamKey)
    ensures
        r@ == name_octets(name),
{
    StreamKey::from_slice(name.as_bytes())
}

/// A run of rows for a stream at an expected head.
pub open spec fn run_at(key: Seq<u8>, head: nat, rows: Seq<EventView>) -> WriteRowsView {
    WriteRowsView { key, expected: head_at(head), rows }
}

/// The run that appends one event of type `E` at a version.
pub open spec fn event_run(key: Seq<u8>, version: nat, payload: Seq<u8>) -> WriteRowsView {
    run_at(
        key,
        if version == 0 {
            0
        } else {
            (version - 1) as nat
        },
        seq![plain_row(version, "E"@, payload)],
    )
}

/// The run that appends one event of type `E` at a version, with the expectation that goes with
/// it: a fresh stream for version 1.
pub fn event_run_at(key: StreamKey, version: u64, payload: Vec<u8>) -> (r: WriteRows)
    ensures
        r@ == event_run(key@, version as nat, payload@),
{
    let expected: Option<Version> = Version::new(version.saturating_sub(1));
    let mut rows: Vec<ConformanceRow> = Vec::new();
    rows.push(ConformanceRow::new(version, "E", payload));
    assert(row_views(rows@) =~= seq![plain_row(version as nat, "E"@, payload@)]);
    WriteRows { key, expected, rows }
}

/// Appends rows to a fresh stream. No rows are no question.
pub fn append_rows(key: StreamKey, rows: Vec<ConformanceRow>) -> (r: Option<Ask>)
    ensures
        r is None <==> rows@.len() == 0,
        r matches Some(ask) ==> ask@ == AskView::Append(run_at(key@, 0, row_views(rows@))),
{
    if rows.len() == 0 {
        None
    } else {
        Some(Ask::Append(WriteRows { key, expected: None, rows }))
    }
}

/// Appends one event at a version, with the expectation that goes with it.
pub fn append_event(key: StreamKey, version: u64, payload: Vec<u8>) -> (r: Ask)
    ensures
        r@ == AskView::Append(event_run(key@, version as nat, payload@)),
{
    Ask::Append(event_run_at(key, version, payload))
}

/// Reads a stream from a version on.
pub fn drain_stream(key: StreamKey, from: Version) -> (r: Ask)
    ensures
        r@ == AskView::ReadStream(key@, from, 0),
{
    Ask::ReadStream { key, from, polls: 0 }
}

/// Reads all streams behind a position.
pub fn drain_all(after: Mark) -> (r: Ask)
    ensures
        r@ == AskView::ReadAll(after),
{
    Ask::ReadAll { after }
}

/// The rows with versions `first` to `first + n - 1`, type `E` and the same payload.
pub open spec fn plain_run(first: nat, n: nat, payload: Seq<u8>) -> Seq<EventView> {
    Seq::new(n, |i: int| plain_row((first + i) as nat, "E"@, payload))
}

/// The rows with versions 1 to `n`, type `E` and no payload.
pub fn plain_rows(n: u64) -> (r: Vec<ConformanceRow>)
    ensures
        row_views(r@) == plain_run(1, n as nat, Seq::empty()),
{
    let mut out: Vec<ConformanceRow> = Vec::new();
    let mut v: u64 = 0;
    while v < n
        invariant
            0 <= v <= n,
            out@.len() == v,
            forall|i: int|
                0 <= i < out@.len() ==> (#[trigger] out@[i])@ == plain_row(
                    (1 + i) as nat,
                    "E"@,
                    Seq::empty(),
                ),
        decreases n - v,
    {
        v = v + 1;
        let row: ConformanceRow = ConformanceRow::new(v, "E", Vec::new());
        assert(row@ == plain_row(v as nat, "E"@, Seq::empty()));
        out.push(row);
    }
    assert(row_views(out@) =~= plain_run(1, n as nat, Seq::empty()));
    out
}

} // verus!
