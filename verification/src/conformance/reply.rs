//! What the store under test answers.

use crate::conformance::row::{row_views, ConformanceRow};
use crate::envelope::EventView;
use crate::state::Hydrated;
use crate::version::Version;
use vstd::prelude::*;

verus! {

/// A row of an all-streams read.
#[derive(Debug)]
pub struct AllRow<P> {
    /// The row's position.
    pub position: P,
    /// The stream that the row belongs to.
    pub key: Vec<u8>,
    /// The row's payload.
    pub payload: Vec<u8>,
}

/// A row of an all-streams read, as a value.
#[verifier::ext_equal]
pub struct AllRowView<P> {
    pub position: P,
    pub key: Seq<u8>,
    pub payload: Seq<u8>,
}

impl<P> View for AllRow<P> {
    type V = AllRowView<P>;

    open spec fn view(&self) -> AllRowView<P> {
        AllRowView { position: self.position, key: self.key@, payload: self.payload@ }
    }
}

/// What the rows of an all-streams read hold.
pub open spec fn all_views<P>(rows: Seq<AllRow<P>>) -> Seq<AllRowView<P>> {
    Seq::new(rows.len(), |i: int| rows[i]@)
}

/// A step of a subscription.
#[derive(Debug)]
pub enum StepSeen<P> {
    /// An event of one stream.
    Event {
        /// The event's version.
        version: u64,
        /// The event's payload.
        payload: Vec<u8>,
    },
    /// An event of all streams.
    AllEvent(AllRow<P>),
    /// The boundary between backlog and live events.
    CaughtUp,
}

/// A step of a subscription, as a value.
pub enum StepView<P> {
    Event(u64, Seq<u8>),
    AllEvent(AllRowView<P>),
    CaughtUp,
}

impl<P> View for StepSeen<P> {
    type V = StepView<P>;

    open spec fn view(&self) -> StepView<P> {
        match self {
            StepSeen::Event { version, payload } => StepView::Event(*version, payload@),
            StepSeen::AllEvent(row) => StepView::AllEvent(row@),
            StepSeen::CaughtUp => StepView::CaughtUp,
        }
    }
}

/// What the steps of a subscription hold.
pub open spec fn step_views<P>(steps: Seq<StepSeen<P>>) -> Seq<StepView<P>> {
    Seq::new(steps.len(), |i: int| steps[i]@)
}

/// How one task of a race ended.
#[derive(Clone, Copy, Debug, PartialEq, Eq, Structural)]
pub enum Landing {
    /// All its rows are in.
    Landed,
    /// The store answered a conflict.
    Conflict,
    /// The store failed.
    Failed,
}

/// The store's answer.
#[derive(Debug)]
pub enum Reply<P> {
    /// The append landed; its last row is at this position.
    Landed(P),
    /// The append was refused as a conflict.
    Conflict {
        /// The head that the store named.
        actual: Option<Version>,
    },
    /// The rows of a stream.
    Rows {
        /// The rows.
        rows: Vec<ConformanceRow>,
        /// Whether each further look behind the end found the end again.
        ended: Vec<bool>,
    },
    /// The rows of an all-streams read.
    AllRows(Vec<AllRow<P>>),
    /// The transaction landed.
    Committed,
    /// The transaction was refused as a conflict.
    AtomicConflict {
        /// The write that the store named.
        index: usize,
        /// The head that the store named.
        actual: Option<Version>,
    },
    /// What was asked for is done.
    Done,
    /// Steps of a subscription.
    Steps(Vec<StepSeen<P>>),
    /// How each task of a race ended.
    Raced(Vec<Landing>),
    /// What the snapshot store holds.
    Snapshot(Hydrated<Vec<u8>, P>),
    /// The store failed, hung, or ended what must not end.
    Failed,
}

/// The store's answer, as a value.
pub enum ReplyView<P> {
    Landed(P),
    Conflict(Option<Version>),
    Rows(Seq<EventView>, Seq<bool>),
    AllRows(Seq<AllRowView<P>>),
    Committed,
    AtomicConflict(usize, Option<Version>),
    Done,
    Steps(Seq<StepView<P>>),
    Raced(Seq<Landing>),
    Absent,
    Stale(nat),
    Found(P, Seq<u8>),
    Failed,
}

impl<P> View for Reply<P> {
    type V = ReplyView<P>;

    open spec fn view(&self) -> ReplyView<P> {
        match self {
            Reply::Landed(position) => ReplyView::Landed(*position),
            Reply::Conflict { actual } => ReplyView::Conflict(*actual),
            Reply::Rows { rows, ended } => ReplyView::Rows(row_views(rows@), ended@),
            Reply::AllRows(rows) => ReplyView::AllRows(all_views(rows@)),
            Reply::Committed => ReplyView::Committed,
            Reply::AtomicConflict { index, actual } => ReplyView::AtomicConflict(*index, *actual),
            Reply::Done => ReplyView::Done,
            Reply::Steps(steps) => ReplyView::Steps(step_views(steps@)),
            Reply::Raced(ended) => ReplyView::Raced(ended@),
            Reply::Snapshot(Hydrated::Absent) => ReplyView::Absent,
            Reply::Snapshot(Hydrated::Stale { stored_schema }) => ReplyView::Stale(stored_schema@),
            Reply::Snapshot(Hydrated::Found { position, state }) => ReplyView::Found(
                *position,
                state@,
            ),
            Reply::Failed => ReplyView::Failed,
        }
    }
}

/// The answers so far.
pub open spec fn reply_views<P>(seen: Seq<Reply<P>>) -> Seq<ReplyView<P>> {
    Seq::new(seen.len(), |i: int| seen[i]@)
}

/// The answer `answer`, if it is among the first `n`.
pub open spec fn before<P>(seen: Seq<ReplyView<P>>, n: int, answer: int) -> Option<ReplyView<P>> {
    if 0 <= answer < n {
        Some(seen[answer])
    } else {
        None
    }
}

} // verus!
