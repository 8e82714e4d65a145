//! Which answers keep the contract.

use crate::conformance::ask::Mark;
use crate::conformance::reply::{
    all_views, before, reply_views, step_views, AllRow, AllRowView, Landing, Reply, ReplyView,
    StepSeen, StepView,
};
use crate::conformance::row::{optional_view, row_views, same_rows, ConformanceRow};
use crate::envelope::EventView;
use crate::octets::{same_octets, same_text};
use crate::state::Hydrated;
use crate::store::AllPosition;
use crate::value::{schema_version_of_view, SchemaVersion};
use crate::version::{group_version, head_at, Version};
use vstd::prelude::*;

verus! {

broadcast use {group_version, schema_version_of_view};

/// What a sequence of byte vectors holds.
pub open spec fn octet_views(all: Seq<Vec<u8>>) -> Seq<Seq<u8>> {
    Seq::new(all.len(), |i: int| all[i]@)
}

/// What a sequence of optional byte vectors holds.
pub open spec fn optional_views(all: Seq<Option<Vec<u8>>>) -> Seq<Option<Seq<u8>>> {
    Seq::new(all.len(), |i: int| optional_view(all[i]))
}

// ── Rows of a stream ────────────────────────────────────────────────────────────────────────────

/// What the rows of a stream have to be.
#[derive(Debug)]
pub enum RowsWant {
    /// Any rows.
    Any,
    /// These rows.
    Exact(Vec<ConformanceRow>),
    /// Rows with the versions from `first` on.
    Versions {
        /// The first version.
        first: u64,
        /// How many rows.
        count: u64,
    },
    /// So many rows.
    Count(usize),
    /// Rows with these payloads.
    Payloads(Vec<Vec<u8>>),
    /// Rows of which the first ones have this metadata.
    LeadingMetadata(Vec<Option<Vec<u8>>>),
    /// Rows of which the first one has this type.
    FirstEventType(String),
    /// The rows of an earlier answer.
    SameAs {
        /// Which answer.
        answer: usize,
    },
    /// The one row of the task that won a race, whose payload is the task's number.
    WinnerOf {
        /// Which answer told of the race.
        answer: usize,
    },
}

/// What the rows of a stream have to be, as a value.
pub enum RowsWantView {
    Any,
    Exact(Seq<EventView>),
    Versions(nat, nat),
    Count(nat),
    Payloads(Seq<Seq<u8>>),
    LeadingMetadata(Seq<Option<Seq<u8>>>),
    FirstEventType(Seq<char>),
    SameAs(nat),
    WinnerOf(nat),
}

impl View for RowsWant {
    type V = RowsWantView;

    open spec fn view(&self) -> RowsWantView {
        match self {
            RowsWant::Any => RowsWantView::Any,
            RowsWant::Exact(rows) => RowsWantView::Exact(row_views(rows@)),
            RowsWant::Versions { first, count } => RowsWantView::Versions(
                *first as nat,
                *count as nat,
            ),
            RowsWant::Count(n) => RowsWantView::Count(*n as nat),
            RowsWant::Payloads(payloads) => RowsWantView::Payloads(octet_views(payloads@)),
            RowsWant::LeadingMetadata(all) => RowsWantView::LeadingMetadata(optional_views(all@)),
            RowsWant::FirstEventType(text) => RowsWantView::FirstEventType(text@),
            RowsWant::SameAs { answer } => RowsWantView::SameAs(*answer as nat),
            RowsWant::WinnerOf { answer } => RowsWantView::WinnerOf(*answer as nat),
        }
    }
}

/// Task `w` is the first that landed.
pub open spec fn first_landed(ended: Seq<Landing>, w: int) -> bool {
    &&& 0 <= w < ended.len()
    &&& ended[w] is Landed
    &&& forall|j: int| 0 <= j < w ==> !(#[trigger] ended[j] is Landed)
}

/// The payload that task `w` of a race writes: its number.
pub open spec fn task_payload(w: int) -> Seq<u8> {
    seq![
        if w < 256 {
            w as u8
        } else {
            0
        },
    ]
}

/// There is one row, and it is the winner's.
pub open spec fn winners(rows: Seq<EventView>, ended: Seq<Landing>) -> bool {
    &&& rows.len() == 1
    &&& exists|w: int| #[trigger] first_landed(ended, w) && rows[0].payload == task_payload(w)
}

impl RowsWantView {
    /// Whether these rows will do, given the first `n` answers.
    pub open spec fn fits<P>(
        self,
        rows: Seq<EventView>,
        seen: Seq<ReplyView<P>>,
        n: int,
    ) -> bool {
        match self {
            RowsWantView::Any => true,
            RowsWantView::Exact(want) => rows == want,
            RowsWantView::Versions(first, count) => {
                &&& rows.len() == count
                &&& forall|i: int|
                    0 <= i < rows.len() ==> (#[trigger] rows[i]).version == first + i
            },
            RowsWantView::Count(count) => rows.len() == count,
            RowsWantView::Payloads(payloads) => {
                &&& rows.len() == payloads.len()
                &&& forall|i: int|
                    0 <= i < rows.len() ==> (#[trigger] rows[i]).payload == payloads[i]
            },
            RowsWantView::LeadingMetadata(all) => {
                &&& rows.len() >= all.len()
                &&& forall|i: int| 0 <= i < all.len() ==> rows[i].metadata == #[trigger] all[i]
            },
            RowsWantView::FirstEventType(text) => rows.len() > 0 && rows[0].event_type == text,
            RowsWantView::SameAs(answer) => match before(seen, n, answer as int) {
                Some(ReplyView::Rows(earlier, _)) => rows == earlier,
                _ => false,
            },
            RowsWantView::WinnerOf(answer) => match before(seen, n, answer as int) {
                Some(ReplyView::Raced(ended)) => winners(rows, ended),
                _ => false,
            },
        }
    }
}

/// Whether two optional byte vectors are the same.
fn same_optional(a: &Option<Vec<u8>>, b: &Option<Vec<u8>>) -> (r: bool)
    ensures
        r == (optional_view(*a) == optional_view(*b)),
{
    match (a, b) {
        (Some(a), Some(b)) => same_octets(a.as_slice(), b.as_slice()),
        (None, None) => true,
        _ => false,
    }
}

/// Whether rows have the versions from `first` on.
fn counts(rows: &[ConformanceRow], first: u64, count: u64) -> (r: bool)
    ensures
        r == RowsWantView::Versions(first as nat, count as nat).fits::<int>(
            row_views(rows@),
            Seq::empty(),
            0,
        ),
{
    let ghost views = row_views(rows@);
    if rows.len() as u64 != count {
        return false;
    }
    let mut i: usize = 0;
    while i < rows.len()
        invariant
            0 <= i <= rows.len(),
            rows.len() == count,
            views == row_views(rows@),
            forall|j: int| 0 <= j < i ==> (#[trigger] views[j]).version == first + j,
        decreases rows.len() - i,
    {
        assert(views[i as int] == rows@[i as int]@);
        if rows[i].version < first || rows[i].version - first != i as u64 {
            return false;
        }
        i = i + 1;
    }
    true
}

/// Whether rows have these payloads.
fn carry(rows: &[ConformanceRow], payloads: &[Vec<u8>]) -> (r: bool)
    ensures
        r == RowsWantView::Payloads(octet_views(payloads@)).fits::<int>(
            row_views(rows@),
            Seq::empty(),
            0,
        ),
{
    let ghost views = row_views(rows@);
    let ghost wanted = octet_views(payloads@);
    if rows.len() != payloads.len() {
        return false;
    }
    let mut i: usize = 0;
    while i < rows.len()
        invariant
            0 <= i <= rows.len(),
            rows.len() == payloads.len(),
            views == row_views(rows@),
            wanted == octet_views(payloads@),
            forall|j: int| 0 <= j < i ==> (#[trigger] views[j]).payload == wanted[j],
        decreases rows.len() - i,
    {
        assert(views[i as int] == rows@[i as int]@);
        if !same_octets(rows[i].payload.as_slice(), payloads[i].as_slice()) {
            return false;
        }
        i = i + 1;
    }
    true
}

/// Whether the first rows have this metadata.
fn lead_with(rows: &[ConformanceRow], metadata: &[Option<Vec<u8>>]) -> (r: bool)
    ensures
        r == RowsWantView::LeadingMetadata(optional_views(metadata@)).fits::<int>(
            row_views(rows@),
            Seq::empty(),
            0,
        ),
{
    let ghost views = row_views(rows@);
    let ghost wanted = optional_views(metadata@);
    if rows.len() < metadata.len() {
        return false;
    }
    let mut i: usize = 0;
    while i < metadata.len()
        invariant
            0 <= i <= metadata.len(),
            rows.len() >= metadata.len(),
            views == row_views(rows@),
            wanted == optional_views(metadata@),
            forall|j: int| 0 <= j < i ==> views[j].metadata == #[trigger] wanted[j],
        decreases metadata.len() - i,
    {
        assert(wanted[i as int] == optional_view(metadata@[i as int]));
        if !same_optional(&rows[i].metadata, &metadata[i]) {
            return false;
        }
        i = i + 1;
    }
    true
}

/// The first task of a race that landed.
fn find_landed(ended: &[Landing]) -> (r: Option<usize>)
    ensures
        r is None ==> forall|w: int| !first_landed(ended@, w),
        r matches Some(w) ==> first_landed(ended@, w as int),
{
    let mut i: usize = 0;
    while i < ended.len()
        invariant
            0 <= i <= ended.len(),
            forall|j: int| 0 <= j < i ==> !(#[trigger] ended@[j] is Landed),
        decreases ended.len() - i,
    {
        if ended[i] == Landing::Landed {
            return Some(i);
        }
        i = i + 1;
    }
    None
}

/// Whether the one row is that of the winner of a race.
fn won(rows: &[ConformanceRow], ended: &[Landing]) -> (r: bool)
    ensures
        r == winners(row_views(rows@), ended@),
{
    if rows.len() != 1 {
        return false;
    }
    match find_landed(ended) {
        None => false,
        Some(w) => {
            let number: u8 = if w < 256 {
                w as u8
            } else {
                0
            };
            let payload: &Vec<u8> = &rows[0].payload;
            let r: bool = payload.len() == 1 && payload[0] == number;
            proof {
                let wanted = task_payload(w as int);
                if r {
                    assert(payload@ =~= wanted);
                }
                assert(row_views(rows@)[0] == rows@[0]@);
                assert forall|v: int| first_landed(ended@, v) implies v == w as int by {
                    if v < w {
                        assert(!(ended@[v] is Landed));
                    }
                    if w < v {
                        assert(!(ended@[w as int] is Landed));
                    }
                }
            }
            r
        },
    }
}

impl RowsWant {
    /// Whether these rows will do, given the first `n` answers.
    pub fn accepts<P>(&self, rows: &[ConformanceRow], seen: &[Reply<P>], n: usize) -> (r: bool)
        requires
            n <= seen@.len(),
        ensures
            r == self@.fits(row_views(rows@), reply_views(seen@), n as int),
    {
        assert(rows@.len() > 0 ==> row_views(rows@)[0] == rows@[0]@);
        match self {
            RowsWant::Any => true,
            RowsWant::Exact(want) => same_rows(rows, want.as_slice()),
            RowsWant::Versions { first, count } => counts(rows, *first, *count),
            RowsWant::Count(count) => rows.len() == *count,
            RowsWant::Payloads(payloads) => carry(rows, payloads.as_slice()),
            RowsWant::LeadingMetadata(all) => lead_with(rows, all.as_slice()),
            RowsWant::FirstEventType(text) => rows.len() > 0 && same_text(
                rows[0].event_type.as_str(),
                text.as_str(),
            ),
            RowsWant::SameAs { answer } => {
                if *answer >= n {
                    return false;
                }
                assert(reply_views(seen@)[*answer as int] == seen@[*answer as int]@);
                match &seen[*answer] {
                    Reply::Rows { rows: earlier, .. } => same_rows(rows, earlier.as_slice()),
                    _ => false,
                }
            },
            RowsWant::WinnerOf { answer } => {
                if *answer >= n {
                    return false;
                }
                assert(reply_views(seen@)[*answer as int] == seen@[*answer as int]@);
                match &seen[*answer] {
                    Reply::Raced(ended) => won(rows, ended.as_slice()),
                    _ => false,
                }
            },
        }
    }
}

// ── Rows of all streams ─────────────────────────────────────────────────────────────────────────

/// The payload that an append wrote, and the answer that told its position.
#[derive(Debug)]
pub struct Appended {
    /// Which answer.
    pub answer: usize,
    /// The payload.
    pub payload: Vec<u8>,
}

impl View for Appended {
    type V = (nat, Seq<u8>);

    open spec fn view(&self) -> (nat, Seq<u8>) {
        (self.answer as nat, self.payload@)
    }
}

/// What a sequence of appends wrote.
pub open spec fn appended_views(all: Seq<Appended>) -> Seq<(nat, Seq<u8>)> {
    Seq::new(all.len(), |i: int| all[i]@)
}

/// What the rows of an all-streams read have to be.
#[derive(Debug)]
pub enum AllWant {
    /// Any rows.
    Any,
    /// At least one row.
    NotEmpty,
    /// So many rows.
    Count(usize),
    /// As many rows as an earlier answer.
    CountOf {
        /// Which answer.
        answer: usize,
    },
    /// Rows with these payloads.
    Payloads(Vec<Vec<u8>>),
    /// Rows of these streams with these payloads.
    Attributed {
        /// The streams.
        keys: Vec<Vec<u8>>,
        /// The payloads.
        payloads: Vec<Vec<u8>>,
    },
    /// Rows of which the one at the position of an append carries that append's payload.
    At(Vec<Appended>),
    /// Rows of which the last one, and not the first, is at the position of an append and carries
    /// its payload.
    LastAt {
        /// Which answer told the append's position.
        answer: usize,
        /// The payload.
        payload: Vec<u8>,
    },
}

/// What the rows of an all-streams read have to be, as a value.
pub enum AllWantView {
    Any,
    NotEmpty,
    Count(nat),
    CountOf(nat),
    Payloads(Seq<Seq<u8>>),
    Attributed(Seq<Seq<u8>>, Seq<Seq<u8>>),
    At(Seq<(nat, Seq<u8>)>),
    LastAt(nat, Seq<u8>),
}

impl View for AllWant {
    type V = AllWantView;

    open spec fn view(&self) -> AllWantView {
        match self {
            AllWant::Any => AllWantView::Any,
            AllWant::NotEmpty => AllWantView::NotEmpty,
            AllWant::Count(n) => AllWantView::Count(*n as nat),
            AllWant::CountOf { answer } => AllWantView::CountOf(*answer as nat),
            AllWant::Payloads(payloads) => AllWantView::Payloads(octet_views(payloads@)),
            AllWant::Attributed { keys, payloads } => AllWantView::Attributed(
                octet_views(keys@),
                octet_views(payloads@),
            ),
            AllWant::At(all) => AllWantView::At(appended_views(all@)),
            AllWant::LastAt { answer, payload } => AllWantView::LastAt(*answer as nat, payload@),
        }
    }
}

/// The positions strictly increase.
pub open spec fn increasing<P: AllPosition>(rows: Seq<AllRowView<P>>) -> bool {
    forall|i: int, j: int|
        0 <= i < j < rows.len() ==> (#[trigger] rows[i]).position.ordinal() < (
        #[trigger] rows[j]).position.ordinal()
}

/// The rows carry these payloads.
pub open spec fn all_carry<P>(rows: Seq<AllRowView<P>>, payloads: Seq<Seq<u8>>) -> bool {
    &&& rows.len() == payloads.len()
    &&& forall|i: int| 0 <= i < rows.len() ==> (#[trigger] rows[i]).payload == payloads[i]
}

/// The rows belong to these streams.
pub open spec fn all_from<P>(rows: Seq<AllRowView<P>>, keys: Seq<Seq<u8>>) -> bool {
    &&& rows.len() == keys.len()
    &&& forall|i: int| 0 <= i < rows.len() ==> (#[trigger] rows[i]).key == keys[i]
}

/// Row `i` is the first one at a place in the order.
pub open spec fn first_at<P: AllPosition>(rows: Seq<AllRowView<P>>, place: int, i: int) -> bool {
    &&& 0 <= i < rows.len()
    &&& rows[i].position.ordinal() == place
    &&& forall|j: int| 0 <= j < i ==> (#[trigger] rows[j]).position.ordinal() != place
}

/// The row at a place in the order carries a payload.
pub open spec fn carries_at<P: AllPosition>(
    rows: Seq<AllRowView<P>>,
    place: int,
    payload: Seq<u8>,
) -> bool {
    exists|i: int| #[trigger] first_at(rows, place, i) && rows[i].payload == payload
}

/// The first row stands behind a position.
pub open spec fn stands_behind<P: AllPosition>(rows: Seq<AllRowView<P>>, mark: Option<P>) -> bool {
    match mark {
        Some(p) => rows.len() > 0 && p.ordinal() < rows[0].position.ordinal(),
        None => true,
    }
}

/// The row at the position of an append carries that append's payload.
pub open spec fn placed<P: AllPosition>(
    rows: Seq<AllRowView<P>>,
    seen: Seq<ReplyView<P>>,
    n: int,
    appended: (nat, Seq<u8>),
) -> bool {
    match before(seen, n, appended.0 as int) {
        Some(ReplyView::Landed(p)) => carries_at(rows, p.ordinal(), appended.1),
        _ => false,
    }
}

/// The rows at the positions of appends carry those appends' payloads.
pub open spec fn all_placed<P: AllPosition>(
    rows: Seq<AllRowView<P>>,
    seen: Seq<ReplyView<P>>,
    n: int,
    all: Seq<(nat, Seq<u8>)>,
) -> bool {
    forall|i: int| 0 <= i < all.len() ==> placed(rows, seen, n, #[trigger] all[i])
}

impl AllWantView {
    /// Whether these rows will do, given the first `n` answers.
    pub open spec fn fits<P: AllPosition>(
        self,
        rows: Seq<AllRowView<P>>,
        seen: Seq<ReplyView<P>>,
        n: int,
    ) -> bool {
        match self {
            AllWantView::Any => true,
            AllWantView::NotEmpty => rows.len() > 0,
            AllWantView::Count(count) => rows.len() == count,
            AllWantView::CountOf(answer) => match before(seen, n, answer as int) {
                Some(ReplyView::AllRows(earlier)) => rows.len() == earlier.len(),
                _ => false,
            },
            AllWantView::Payloads(payloads) => all_carry(rows, payloads),
            AllWantView::Attributed(keys, payloads) => all_from(rows, keys) && all_carry(
                rows,
                payloads,
            ),
            AllWantView::At(all) => all_placed(rows, seen, n, all),
            AllWantView::LastAt(answer, payload) => match before(seen, n, answer as int) {
                Some(ReplyView::Landed(p)) => {
                    &&& rows.len() > 0
                    &&& rows.last().position.ordinal() == p.ordinal()
                    &&& rows.last().payload == payload
                    &&& rows[0].position.ordinal() != p.ordinal()
                },
                _ => false,
            },
        }
    }
}

/// Whether two positions are at the same place in the order.
fn same_place<P: AllPosition>(a: P, b: P) -> (r: bool)
    ensures
        r == (a.ordinal() == b.ordinal()),
{
    !a.precedes(b) && !b.precedes(a)
}

/// Whether the positions strictly increase.
fn increase<P: AllPosition>(rows: &[AllRow<P>]) -> (r: bool)
    ensures
        r == increasing(all_views(rows@)),
{
    let ghost views = all_views(rows@);
    let mut i: usize = 1;
    while i < rows.len()
        invariant
            1 <= i,
            i <= rows.len() || rows.len() == 0,
            views == all_views(rows@),
            forall|j: int, k: int|
                0 <= j < k < i && k < views.len() ==> (#[trigger] views[j]).position.ordinal() < (
                #[trigger] views[k]).position.ordinal(),
        decreases rows.len() - i,
    {
        if !rows[i - 1].position.precedes(rows[i].position) {
            assert(!(views[i - 1].position.ordinal() < views[i as int].position.ordinal()));
            return false;
        }
        assert(views[i - 1].position.ordinal() < views[i as int].position.ordinal());
        i = i + 1;
    }
    true
}

/// Whether the rows carry these payloads.
fn carry_all<P>(rows: &[AllRow<P>], payloads: &[Vec<u8>]) -> (r: bool)
    ensures
        r == all_carry(all_views(rows@), octet_views(payloads@)),
{
    let ghost views = all_views(rows@);
    let ghost wanted = octet_views(payloads@);
    if rows.len() != payloads.len() {
        return false;
    }
    let mut i: usize = 0;
    while i < rows.len()
        invariant
            0 <= i <= rows.len(),
            rows.len() == payloads.len(),
            views == all_views(rows@),
            wanted == octet_views(payloads@),
            forall|j: int| 0 <= j < i ==> (#[trigger] views[j]).payload == wanted[j],
        decreases rows.len() - i,
    {
        assert(views[i as int] == rows@[i as int]@);
        if !same_octets(rows[i].payload.as_slice(), payloads[i].as_slice()) {
            return false;
        }
        i = i + 1;
    }
    true
}

/// Whether the rows belong to these streams.
fn come_from<P>(rows: &[AllRow<P>], keys: &[Vec<u8>]) -> (r: bool)
    ensures
        r == all_from(all_views(rows@), octet_views(keys@)),
{
    let ghost views = all_views(rows@);
    let ghost wanted = octet_views(keys@);
    if rows.len() != keys.len() {
        return false;
    }
    let mut i: usize = 0;
    while i < rows.len()
        invariant
            0 <= i <= rows.len(),
            rows.len() == keys.len(),
            views == all_views(rows@),
            wanted == octet_views(keys@),
            forall|j: int| 0 <= j < i ==> (#[trigger] views[j]).key == wanted[j],
        decreases rows.len() - i,
    {
        assert(views[i as int] == rows@[i as int]@);
        if !same_octets(rows[i].key.as_slice(), keys[i].as_slice()) {
            return false;
        }
        i = i + 1;
    }
    true
}

/// Whether the row at a position carries a payload.
fn carries<P: AllPosition>(rows: &[AllRow<P>], position: P, payload: &[u8]) -> (r: bool)
    ensures
        r == carries_at(all_views(rows@), position.ordinal(), payload@),
{
    let ghost views = all_views(rows@);
    let mut i: usize = 0;
    while i < rows.len()
        invariant
            0 <= i <= rows.len(),
            views == all_views(rows@),
            forall|j: int|
                0 <= j < i ==> (#[trigger] views[j]).position.ordinal() != position.ordinal(),
        decreases rows.len() - i,
    {
        assert(views[i as int] == rows@[i as int]@);
        if same_place(rows[i].position, position) {
            let r: bool = same_octets(rows[i].payload.as_slice(), payload);
            proof {
                assert(first_at(views, position.ordinal(), i as int));
                assert forall|k: int| first_at(views, position.ordinal(), k) implies k == i by {
                    if k < i {
                        assert(views[k].position.ordinal() != position.ordinal());
                    }
                    if i < k {
                        assert(views[i as int].position.ordinal() != position.ordinal());
                    }
                }
            }
            return r;
        }
        i = i + 1;
    }
    false
}

/// Whether the rows at the positions of appends carry their payloads.
fn stand_placed<P: AllPosition>(
    rows: &[AllRow<P>],
    seen: &[Reply<P>],
    n: usize,
    all: &[Appended],
) -> (r: bool)
    requires
        n <= seen@.len(),
    ensures
        r == all_placed(all_views(rows@), reply_views(seen@), n as int, appended_views(all@)),
{
    let ghost wanted = appended_views(all@);
    let mut i: usize = 0;
    while i < all.len()
        invariant
            0 <= i <= all.len(),
            n <= seen@.len(),
            wanted == appended_views(all@),
            forall|j: int|
                0 <= j < i ==> placed(
                    all_views(rows@),
                    reply_views(seen@),
                    n as int,
                    #[trigger] wanted[j],
                ),
        decreases all.len() - i,
    {
        let answer: usize = all[i].answer;
        assert(wanted[i as int] == all@[i as int]@);
        let holds: bool = if answer < n {
            assert(reply_views(seen@)[answer as int] == seen@[answer as int]@);
            match &seen[answer] {
                Reply::Landed(p) => carries(rows, *p, all[i].payload.as_slice()),
                _ => false,
            }
        } else {
            false
        };
        if !holds {
            assert(!placed(all_views(rows@), reply_views(seen@), n as int, wanted[i as int]));
            return false;
        }
        i = i + 1;
    }
    true
}

impl AllWant {
    /// Whether these rows will do, given the first `n` answers.
    pub fn accepts<P: AllPosition>(&self, rows: &[AllRow<P>], seen: &[Reply<P>], n: usize) -> (r:
        bool)
        requires
            n <= seen@.len(),
        ensures
            r == self@.fits(all_views(rows@), reply_views(seen@), n as int),
    {
        match self {
            AllWant::Any => true,
            AllWant::NotEmpty => rows.len() > 0,
            AllWant::Count(count) => rows.len() == *count,
            AllWant::CountOf { answer } => {
                if *answer >= n {
                    return false;
                }
                assert(reply_views(seen@)[*answer as int] == seen@[*answer as int]@);
                match &seen[*answer] {
                    Reply::AllRows(earlier) => rows.len() == earlier.len(),
                    _ => false,
                }
            },
            AllWant::Payloads(payloads) => carry_all(rows, payloads.as_slice()),
            AllWant::Attributed { keys, payloads } => come_from(rows, keys.as_slice())
                && carry_all(rows, payloads.as_slice()),
            AllWant::At(all) => stand_placed(rows, seen, n, all.as_slice()),
            AllWant::LastAt { answer, payload } => {
                if *answer >= n || rows.len() == 0 {
                    return false;
                }
                assert(reply_views(seen@)[*answer as int] == seen@[*answer as int]@);
                assert(all_views(rows@)[0] == rows@[0]@);
                assert(all_views(rows@).last() == rows@[rows@.len() - 1]@);
                let last: &AllRow<P> = &rows[rows.len() - 1];
                match &seen[*answer] {
                    Reply::Landed(p) => same_place(last.position, *p) && same_octets(
                        last.payload.as_slice(),
                        payload.as_slice(),
                    ) && !same_place(rows[0].position, *p),
                    _ => false,
                }
            },
        }
    }
}

// ── Steps of a subscription ─────────────────────────────────────────────────────────────────────

/// What the steps of a subscription have to be.
#[derive(Debug)]
pub enum StepsWant {
    /// One event with this version.
    Event {
        /// The version.
        version: u64,
    },
    /// One event with this version and payload.
    EventWith {
        /// The version.
        version: u64,
        /// The payload.
        payload: Vec<u8>,
    },
    /// One boundary.
    CaughtUp,
    /// Events with the versions from `first` on, then the boundary.
    Backlog {
        /// The first version.
        first: u64,
        /// How many events.
        count: u64,
    },
    /// Anything that ends with a boundary.
    EndsCaughtUp,
    /// One boundary, and apart from it events with the versions from 1 on.
    OneBoundary {
        /// How many events.
        count: u64,
    },
    /// Events of all streams in increasing positions, then the boundary.
    AllBacklog {
        /// The streams of the events.
        keys: Vec<Vec<u8>>,
        /// The payloads of the events.
        payloads: Vec<Vec<u8>>,
    },
    /// One event of all streams, behind the events of an earlier answer.
    AllLive {
        /// The event's stream.
        key: Vec<u8>,
        /// The event's payload.
        payload: Vec<u8>,
        /// Which answer held the earlier events, with a boundary behind them.
        answer: usize,
    },
}

/// What the steps of a subscription have to be, as a value.
pub enum StepsWantView {
    Event(u64),
    EventWith(u64, Seq<u8>),
    CaughtUp,
    Backlog(nat, nat),
    EndsCaughtUp,
    OneBoundary(nat),
    AllBacklog(Seq<Seq<u8>>, Seq<Seq<u8>>),
    AllLive(Seq<u8>, Seq<u8>, nat),
}

impl View for StepsWant {
    type V = StepsWantView;

    open spec fn view(&self) -> StepsWantView {
        match self {
            StepsWant::Event { version } => StepsWantView::Event(*version),
            StepsWant::EventWith { version, payload } => StepsWantView::EventWith(
                *version,
                payload@,
            ),
            StepsWant::CaughtUp => StepsWantView::CaughtUp,
            StepsWant::Backlog { first, count } => StepsWantView::Backlog(
                *first as nat,
                *count as nat,
            ),
            StepsWant::EndsCaughtUp => StepsWantView::EndsCaughtUp,
            StepsWant::OneBoundary { count } => StepsWantView::OneBoundary(*count as nat),
            StepsWant::AllBacklog { keys, payloads } => StepsWantView::AllBacklog(
                octet_views(keys@),
                octet_views(payloads@),
            ),
            StepsWant::AllLive { key, payload, answer } => StepsWantView::AllLive(
                key@,
                payload@,
                *answer as nat,
            ),
        }
    }
}

/// The step is an event with a version.
pub open spec fn event_at<P>(step: StepView<P>, version: int) -> bool {
    step matches StepView::Event(v, _) && v == version
}

/// The steps are events with the versions from `first` on.
pub open spec fn events_from<P>(steps: Seq<StepView<P>>, first: nat) -> bool {
    forall|i: int| 0 <= i < steps.len() ==> event_at(#[trigger] steps[i], first + i)
}

/// Step `b` is the one boundary among the steps.
pub open spec fn one_boundary<P>(steps: Seq<StepView<P>>, b: int) -> bool {
    &&& 0 <= b < steps.len()
    &&& steps[b] is CaughtUp
    &&& events_from(steps.remove(b), 1)
}

/// The rows of all-streams events.
pub open spec fn step_rows<P>(steps: Seq<StepView<P>>) -> Seq<AllRowView<P>> {
    Seq::new(steps.len(), |i: int| steps[i]->AllEvent_0)
}

/// The position of the last event before the boundary that ends the steps.
pub open spec fn last_position<P>(steps: Seq<StepView<P>>) -> Option<P> {
    if steps.len() >= 2 {
        match steps[steps.len() - 2] {
            StepView::AllEvent(row) => Some(row.position),
            _ => None,
        }
    } else {
        None
    }
}

impl StepsWantView {
    /// Whether these steps will do, given the first `n` answers.
    pub open spec fn fits<P: AllPosition>(
        self,
        steps: Seq<StepView<P>>,
        seen: Seq<ReplyView<P>>,
        n: int,
    ) -> bool {
        match self {
            StepsWantView::Event(version) => steps.len() == 1 && event_at(
                steps[0],
                version as int,
            ),
            StepsWantView::EventWith(version, payload) => steps.len() == 1 && steps[0]
                == StepView::<P>::Event(version, payload),
            StepsWantView::CaughtUp => steps.len() == 1 && steps[0] is CaughtUp,
            StepsWantView::Backlog(first, count) => {
                &&& steps.len() == count + 1
                &&& steps.last() is CaughtUp
                &&& events_from(steps.drop_last(), first)
            },
            StepsWantView::EndsCaughtUp => steps.len() > 0 && steps.last() is CaughtUp,
            StepsWantView::OneBoundary(count) => {
                &&& steps.len() == count + 1
                &&& exists|b: int| #[trigger] one_boundary(steps, b)
            },
            StepsWantView::AllBacklog(keys, payloads) => {
                &&& steps.len() > 0
                &&& steps.last() is CaughtUp
                &&& forall|i: int|
                    0 <= i < steps.len() - 1 ==> #[trigger] steps[i] is AllEvent
                &&& all_from(step_rows(steps.drop_last()), keys)
                &&& all_carry(step_rows(steps.drop_last()), payloads)
                &&& increasing(step_rows(steps.drop_last()))
            },
            StepsWantView::AllLive(key, payload, answer) => match before(seen, n, answer as int) {
                Some(ReplyView::Steps(earlier)) => match last_position(earlier) {
                    Some(p) => {
                        &&& steps.len() == 1
                        &&& steps[0] matches StepView::AllEvent(row)
                        &&& row.key == key
                        &&& row.payload == payload
                        &&& p.ordinal() < row.position.ordinal()
                    },
                    None => false,
                },
                _ => false,
            },
        }
    }
}

/// Whether the steps from `start` up to `end` are events with the versions from `first` on.
fn run_of_events<P>(steps: &[StepSeen<P>], start: usize, end: usize, first: u64) -> (r: bool)
    requires
        start <= end <= steps@.len(),
    ensures
        r == events_from(step_views(steps@).subrange(start as int, end as int), first as nat),
{
    let ghost views = step_views(steps@);
    let ghost part = views.subrange(start as int, end as int);
    let mut i: usize = start;
    while i < end
        invariant
            start <= i <= end <= steps@.len(),
            views == step_views(steps@),
            part == views.subrange(start as int, end as int),
            forall|j: int| 0 <= j < i - start ==> event_at(#[trigger] part[j], first + j),
        decreases end - i,
    {
        assert(part[i - start] == steps@[i as int]@);
        match &steps[i] {
            StepSeen::Event { version, .. } => {
                if *version < first || *version - first != (i - start) as u64 {
                    return false;
                }
            },
            _ => {
                return false;
            },
        }
        i = i + 1;
    }
    true
}

/// Whether a step is the boundary.
fn is_boundary<P>(step: &StepSeen<P>) -> (r: bool)
    ensures
        r == (step@ is CaughtUp),
{
    match step {
        StepSeen::CaughtUp => true,
        _ => false,
    }
}

/// Whether the steps are one boundary and apart from it events with the versions from 1 on.
fn single_boundary<P>(steps: &[StepSeen<P>]) -> (r: bool)
    ensures
        r == exists|b: int| #[trigger] one_boundary(step_views(steps@), b),
{
    let ghost views = step_views(steps@);
    let mut b: usize = 0;
    while b < steps.len() && !is_boundary(&steps[b])
        invariant
            0 <= b <= steps.len(),
            views == step_views(steps@),
            forall|j: int| 0 <= j < b ==> !(#[trigger] views[j] is CaughtUp),
        decreases steps.len() - b,
    {
        assert(views[b as int] == steps@[b as int]@);
        b = b + 1;
    }
    if b == steps.len() {
        return false;
    }
    let left: bool = run_of_events(steps, 0, b, 1);
    let right: bool = run_of_events(steps, b + 1, steps.len(), (b + 1) as u64);
    proof {
        assert(views[b as int] == steps@[b as int]@);
        let rest = views.remove(b as int);
        let a = views.subrange(0, b as int);
        let c = views.subrange(b + 1, views.len() as int);
        if left && right {
            assert forall|i: int| 0 <= i < rest.len() implies event_at(#[trigger] rest[i], 1 + i) by {
                if i < b {
                    assert(rest[i] == a[i]);
                } else {
                    assert(rest[i] == c[i - b]);
                }
            }
            assert(one_boundary(views, b as int));
        }
        assert forall|k: int| one_boundary(views, k) implies left && right by {
            let others = views.remove(k);
            if k > b {
                assert(others[b as int] == views[b as int]);
                assert(event_at(others[b as int], 1 + b));
            }
            assert(k == b);
            assert forall|i: int| 0 <= i < a.len() implies event_at(#[trigger] a[i], 1 + i) by {
                assert(a[i] == others[i]);
            }
            assert forall|i: int| 0 <= i < c.len() implies event_at(
                #[trigger] c[i],
                (b + 1) + i,
            ) by {
                assert(c[i] == others[b + i]);
            }
        }
    }
    left && right
}

/// Whether the steps are events of all streams up to the boundary that ends them.
fn all_backlog<P: AllPosition>(
    steps: &[StepSeen<P>],
    keys: &[Vec<u8>],
    payloads: &[Vec<u8>],
) -> (r: bool)
    ensures
        r == StepsWantView::AllBacklog(octet_views(keys@), octet_views(payloads@)).fits(
            step_views(steps@),
            Seq::empty(),
            0,
        ),
{
    let ghost views = step_views(steps@);
    let ghost rows = step_rows(views.drop_last());
    if steps.len() == 0 {
        return false;
    }
    let n: usize = steps.len() - 1;
    assert(views.last() == steps@[n as int]@);
    if !is_boundary(&steps[n]) || n != keys.len() || n != payloads.len() {
        return false;
    }
    let mut i: usize = 0;
    while i < n
        invariant
            0 <= i <= n,
            n == steps@.len() - 1,
            n == keys@.len(),
            n == payloads@.len(),
            views == step_views(steps@),
            rows == step_rows(views.drop_last()),
            forall|j: int| 0 <= j < i ==> #[trigger] views[j] is AllEvent,
            forall|j: int| 0 <= j < i ==> (#[trigger] rows[j]).key == octet_views(keys@)[j],
            forall|j: int|
                0 <= j < i ==> (#[trigger] rows[j]).payload == octet_views(payloads@)[j],
            forall|j: int, k: int|
                0 <= j < k < i ==> (#[trigger] rows[j]).position.ordinal() < (
                #[trigger] rows[k]).position.ordinal(),
        decreases n - i,
    {
        assert(views[i as int] == steps@[i as int]@);
        assert(octet_views(keys@)[i as int] == keys@[i as int]@);
        assert(octet_views(payloads@)[i as int] == payloads@[i as int]@);
        match &steps[i] {
            StepSeen::AllEvent(row) => {
                assert(rows[i as int] == row@);
                if !same_octets(row.key.as_slice(), keys[i].as_slice()) {
                    return false;
                }
                if !same_octets(row.payload.as_slice(), payloads[i].as_slice()) {
                    return false;
                }
                if i > 0 {
                    assert(views[i - 1] == steps@[i - 1]@);
                    assert(rows[i - 1] == views[i - 1]->AllEvent_0);
                    match &steps[i - 1] {
                        StepSeen::AllEvent(previous) => {
                            if !previous.position.precedes(row.position) {
                                assert(!(rows[i - 1].position.ordinal()
                                    < rows[i as int].position.ordinal()));
                                return false;
                            }
                        },
                        _ => {
                            return false;
                        },
                    }
                }
            },
            _ => {
                return false;
            },
        }
        i = i + 1;
    }
    true
}

/// The position of the last event before the boundary that ends the steps.
fn find_last_position<P: AllPosition>(steps: &[StepSeen<P>]) -> (r: Option<P>)
    ensures
        r == last_position(step_views(steps@)),
{
    if steps.len() < 2 {
        return None;
    }
    assert(step_views(steps@)[steps@.len() - 2] == steps@[steps@.len() - 2]@);
    match &steps[steps.len() - 2] {
        StepSeen::AllEvent(row) => Some(row.position),
        _ => None,
    }
}

impl StepsWant {
    /// Whether these steps will do, given the first `n` answers.
    pub fn accepts<P: AllPosition>(
        &self,
        steps: &[StepSeen<P>],
        seen: &[Reply<P>],
        n: usize,
    ) -> (r: bool)
        requires
            n <= seen@.len(),
        ensures
            r == self@.fits(step_views(steps@), reply_views(seen@), n as int),
    {
        let ghost views = step_views(steps@);
        assert(steps@.len() > 0 ==> views[0] == steps@[0]@);
        assert(steps@.len() > 0 ==> views.last() == steps@[steps@.len() - 1]@);
        match self {
            StepsWant::Event { version } => {
                if steps.len() != 1 {
                    return false;
                }
                match &steps[0] {
                    StepSeen::Event { version: v, .. } => *v == *version,
                    _ => false,
                }
            },
            StepsWant::EventWith { version, payload } => {
                if steps.len() != 1 {
                    return false;
                }
                match &steps[0] {
                    StepSeen::Event { version: v, payload: p } => *v == *version && same_octets(
                        p.as_slice(),
                        payload.as_slice(),
                    ),
                    _ => false,
                }
            },
            StepsWant::CaughtUp => steps.len() == 1 && is_boundary(&steps[0]),
            StepsWant::Backlog { first, count } => {
                if steps.len() == 0 || (steps.len() - 1) as u64 != *count {
                    return false;
                }
                assert(views.drop_last() =~= views.subrange(0, views.len() - 1));
                is_boundary(&steps[steps.len() - 1]) && run_of_events(
                    steps,
                    0,
                    steps.len() - 1,
                    *first,
                )
            },
            StepsWant::EndsCaughtUp => steps.len() > 0 && is_boundary(&steps[steps.len() - 1]),
            StepsWant::OneBoundary { count } => {
                if steps.len() == 0 || (steps.len() - 1) as u64 != *count {
                    return false;
                }
                single_boundary(steps)
            },
            StepsWant::AllBacklog { keys, payloads } => all_backlog(
                steps,
                keys.as_slice(),
                payloads.as_slice(),
            ),
            StepsWant::AllLive { key, payload, answer } => {
                if *answer >= n {
                    return false;
                }
                assert(reply_views(seen@)[*answer as int] == seen@[*answer as int]@);
                let last: Option<P> = match &seen[*answer] {
                    Reply::Steps(earlier) => find_last_position(earlier.as_slice()),
                    _ => None,
                };
                match last {
                    Some(p) => {
                        if steps.len() != 1 {
                            return false;
                        }
                        match &steps[0] {
                            StepSeen::AllEvent(row) => same_octets(
                                row.key.as_slice(),
                                key.as_slice(),
                            ) && same_octets(row.payload.as_slice(), payload.as_slice())
                                && p.precedes(row.position),
                            _ => false,
                        }
                    },
                    None => false,
                }
            },
        }
    }
}

// ── Answers ─────────────────────────────────────────────────────────────────────────────────────

/// Which answers to a question keep the contract.
#[derive(Debug)]
pub enum Want {
    /// The append landed.
    Landed,
    /// The append landed behind the position of an earlier one.
    LandedBehind {
        /// Which answer told the earlier position.
        answer: usize,
    },
    /// The append was refused, in whatever way.
    Refused,
    /// The append was refused as a conflict.
    Conflict,
    /// The append was refused as a conflict that names the head.
    ConflictAt {
        /// How many events the stream holds.
        head: u64,
    },
    /// Rows of a stream, with the end behind them each time.
    Rows {
        /// What the rows have to be.
        want: RowsWant,
        /// How often the end was looked for again.
        polls: usize,
    },
    /// Rows of all streams.
    All {
        /// What the rows have to be.
        rows: AllWant,
        /// Whether the positions have to increase.
        in_order: bool,
        /// The position that the first row has to stand behind.
        behind: Mark,
    },
    /// The transaction landed.
    Committed,
    /// The transaction was refused as a conflict of a write that names the head.
    AtomicConflictAt {
        /// Which write.
        index: usize,
        /// How many events the write's stream holds.
        head: u64,
    },
    /// What was asked for is done.
    Done,
    /// Steps of a subscription.
    Steps(StepsWant),
    /// One task of a race landed, and all others were refused as conflicts.
    OneWinner {
        /// How many tasks.
        tasks: usize,
    },
    /// All tasks of a race landed.
    AllWin {
        /// How many tasks.
        tasks: usize,
    },
    /// There is no snapshot.
    Absent,
    /// The snapshot is of another schema version.
    StaleAt {
        /// The schema version that it was saved under.
        schema: SchemaVersion,
    },
    /// The snapshot is at a position.
    FoundAt {
        /// The position.
        position: Mark,
        /// The state, where it matters.
        state: Option<Vec<u8>>,
    },
}

/// Which answers keep the contract, as a value.
pub enum WantView {
    Landed,
    LandedBehind(nat),
    Refused,
    Conflict,
    ConflictAt(nat),
    Rows(RowsWantView, nat),
    All(AllWantView, bool, Mark),
    Committed,
    AtomicConflictAt(nat, nat),
    Done,
    Steps(StepsWantView),
    OneWinner(nat),
    AllWin(nat),
    Absent,
    StaleAt(nat),
    FoundAt(Mark, Option<Seq<u8>>),
}

impl View for Want {
    type V = WantView;

    open spec fn view(&self) -> WantView {
        match self {
            Want::Landed => WantView::Landed,
            Want::LandedBehind { answer } => WantView::LandedBehind(*answer as nat),
            Want::Refused => WantView::Refused,
            Want::Conflict => WantView::Conflict,
            Want::ConflictAt { head } => WantView::ConflictAt(*head as nat),
            Want::Rows { want, polls } => WantView::Rows(want@, *polls as nat),
            Want::All { rows, in_order, behind } => WantView::All(rows@, *in_order, *behind),
            Want::Committed => WantView::Committed,
            Want::AtomicConflictAt { index, head } => WantView::AtomicConflictAt(
                *index as nat,
                *head as nat,
            ),
            Want::Done => WantView::Done,
            Want::Steps(want) => WantView::Steps(want@),
            Want::OneWinner { tasks } => WantView::OneWinner(*tasks as nat),
            Want::AllWin { tasks } => WantView::AllWin(*tasks as nat),
            Want::Absent => WantView::Absent,
            Want::StaleAt { schema } => WantView::StaleAt(schema@),
            Want::FoundAt { position, state } => WantView::FoundAt(
                *position,
                optional_view(*state),
            ),
        }
    }
}

/// Task `w` landed, and all others were refused as conflicts.
pub open spec fn sole_winner(ended: Seq<Landing>, w: int) -> bool {
    &&& 0 <= w < ended.len()
    &&& ended[w] is Landed
    &&& forall|j: int| 0 <= j < ended.len() && j != w ==> #[trigger] ended[j] is Conflict
}

impl WantView {
    /// Whether answer `n` will do, given the ones before it.
    pub open spec fn fits<P: AllPosition>(
        self,
        seen: Seq<ReplyView<P>>,
        n: int,
        samples: Seq<P>,
    ) -> bool {
        let reply = seen[n];
        match self {
            WantView::Landed => reply is Landed,
            WantView::LandedBehind(answer) => match (before(seen, n, answer as int), reply) {
                (Some(ReplyView::Landed(p)), ReplyView::Landed(q)) => p.ordinal() < q.ordinal(),
                _ => false,
            },
            WantView::Refused => reply is Conflict || reply is Failed,
            WantView::Conflict => reply is Conflict,
            WantView::ConflictAt(head) => reply == ReplyView::<P>::Conflict(head_at(head)),
            WantView::Rows(want, polls) => match reply {
                ReplyView::Rows(rows, ended) => {
                    &&& want.fits(rows, seen, n)
                    &&& ended == Seq::new(polls, |i: int| true)
                },
                _ => false,
            },
            WantView::All(want, in_order, behind) => match reply {
                ReplyView::AllRows(rows) => {
                    &&& want.fits(rows, seen, n)
                    &&& in_order ==> increasing(rows)
                    &&& stands_behind(rows, behind.place(seen, n, samples))
                },
                _ => false,
            },
            WantView::Committed => reply is Committed,
            WantView::AtomicConflictAt(index, head) => match reply {
                ReplyView::AtomicConflict(i, actual) => i == index && actual == head_at(head),
                _ => false,
            },
            WantView::Done => reply is Done,
            WantView::Steps(want) => match reply {
                ReplyView::Steps(steps) => want.fits(steps, seen, n),
                _ => false,
            },
            WantView::OneWinner(tasks) => match reply {
                ReplyView::Raced(ended) => {
                    &&& ended.len() == tasks
                    &&& exists|w: int| #[trigger] sole_winner(ended, w)
                },
                _ => false,
            },
            WantView::AllWin(tasks) => match reply {
                ReplyView::Raced(ended) => {
                    &&& ended.len() == tasks
                    &&& forall|w: int| 0 <= w < ended.len() ==> #[trigger] ended[w] is Landed
                },
                _ => false,
            },
            WantView::Absent => reply is Absent,
            WantView::StaleAt(schema) => reply == ReplyView::<P>::Stale(schema),
            WantView::FoundAt(position, state) => match (
                reply,
                position.place(seen, n, samples),
            ) {
                (ReplyView::Found(p, found), Some(q)) => {
                    &&& p.ordinal() == q.ordinal()
                    &&& state matches Some(s) ==> found == s
                },
                _ => false,
            },
        }
    }
}

/// Whether each look behind the end found the end.
fn always_ended(ended: &[bool], polls: usize) -> (r: bool)
    ensures
        r == (ended@ == Seq::new(polls as nat, |i: int| true)),
{
    let ghost wanted = Seq::new(polls as nat, |i: int| true);
    if ended.len() != polls {
        assert(ended@.len() != wanted.len());
        return false;
    }
    let mut i: usize = 0;
    while i < ended.len()
        invariant
            0 <= i <= ended.len(),
            ended.len() == polls,
            wanted == Seq::new(polls as nat, |i: int| true),
            forall|j: int| 0 <= j < i ==> ended@[j] == wanted[j],
        decreases ended.len() - i,
    {
        if !ended[i] {
            assert(ended@[i as int] != wanted[i as int]);
            return false;
        }
        i = i + 1;
    }
    assert(ended@ =~= wanted);
    true
}

/// Whether one task landed and all others were refused as conflicts.
fn one_winner(ended: &[Landing]) -> (r: bool)
    ensures
        r == exists|w: int| #[trigger] sole_winner(ended@, w),
{
    match find_landed(ended) {
        None => {
            assert forall|w: int| !sole_winner(ended@, w) by {
                if sole_winner(ended@, w) {
                    assert(!first_landed(ended@, w));
                    let j = choose|j: int| 0 <= j < w && #[trigger] ended@[j] is Landed;
                    assert(ended@[j] is Conflict);
                }
            }
            false
        },
        Some(w) => {
            let mut i: usize = 0;
            while i < ended.len()
                invariant
                    0 <= i <= ended.len(),
                    first_landed(ended@, w as int),
                    forall|j: int| 0 <= j < i && j != w ==> #[trigger] ended@[j] is Conflict,
                decreases ended.len() - i,
            {
                if i != w && ended[i] != Landing::Conflict {
                    assert forall|v: int| !sole_winner(ended@, v) by {
                        if sole_winner(ended@, v) {
                            assert(v == w || ended@[w as int] is Conflict);
                            assert(ended@[i as int] is Conflict);
                        }
                    }
                    return false;
                }
                i = i + 1;
            }
            assert(sole_winner(ended@, w as int));
            true
        },
    }
}

/// Whether all tasks landed.
fn all_win(ended: &[Landing]) -> (r: bool)
    ensures
        r == (forall|w: int| 0 <= w < ended@.len() ==> #[trigger] ended@[w] is Landed),
{
    let mut i: usize = 0;
    while i < ended.len()
        invariant
            0 <= i <= ended.len(),
            forall|j: int| 0 <= j < i ==> #[trigger] ended@[j] is Landed,
        decreases ended.len() - i,
    {
        if ended[i] != Landing::Landed {
            assert(!(ended@[i as int] is Landed));
            return false;
        }
        i = i + 1;
    }
    true
}

/// Whether the first row stands behind a position.
fn is_behind<P: AllPosition>(rows: &[AllRow<P>], mark: Option<P>) -> (r: bool)
    ensures
        r == stands_behind(all_views(rows@), mark),
{
    match mark {
        Some(p) => {
            assert(rows@.len() > 0 ==> all_views(rows@)[0] == rows@[0]@);
            rows.len() > 0 && p.precedes(rows[0].position)
        },
        None => true,
    }
}

impl Want {
    /// Whether answer `n` will do, given the ones before it.
    pub fn accepts<P: AllPosition>(&self, seen: &[Reply<P>], n: usize, samples: &[P]) -> (r: bool)
        requires
            n < seen@.len(),
        ensures
            r == self@.fits(reply_views(seen@), n as int, samples@),
    {
        assert(reply_views(seen@)[n as int] == seen@[n as int]@);
        match (self, &seen[n]) {
            (Want::Landed, Reply::Landed(_)) => true,
            (Want::LandedBehind { answer }, Reply::Landed(q)) => {
                if *answer >= n {
                    return false;
                }
                assert(reply_views(seen@)[*answer as int] == seen@[*answer as int]@);
                match &seen[*answer] {
                    Reply::Landed(p) => p.precedes(*q),
                    _ => false,
                }
            },
            (Want::Refused, Reply::Conflict { .. }) => true,
            (Want::Refused, Reply::Failed) => true,
            (Want::Conflict, Reply::Conflict { .. }) => true,
            (Want::ConflictAt { head }, Reply::Conflict { actual }) => *actual == Version::new(
                *head,
            ),
            (Want::Rows { want, polls }, Reply::Rows { rows, ended }) => want.accepts(
                rows.as_slice(),
                seen,
                n,
            ) && always_ended(ended.as_slice(), *polls),
            (Want::All { rows: want, in_order, behind }, Reply::AllRows(rows)) => want.accepts(
                rows.as_slice(),
                seen,
                n,
            ) && (!*in_order || increase(rows.as_slice())) && is_behind(
                rows.as_slice(),
                behind.find(seen, n, samples),
            ),
            (Want::Committed, Reply::Committed) => true,
            (
                Want::AtomicConflictAt { index, head },
                Reply::AtomicConflict { index: i, actual },
            ) => *i == *index && *actual == Version::new(*head),
            (Want::Done, Reply::Done) => true,
            (Want::Steps(want), Reply::Steps(steps)) => want.accepts(steps.as_slice(), seen, n),
            (Want::OneWinner { tasks }, Reply::Raced(ended)) => ended.len() == *tasks
                && one_winner(ended.as_slice()),
            (Want::AllWin { tasks }, Reply::Raced(ended)) => ended.len() == *tasks && all_win(
                ended.as_slice(),
            ),
            (Want::Absent, Reply::Snapshot(Hydrated::Absent)) => true,
            (Want::StaleAt { schema }, Reply::Snapshot(Hydrated::Stale { stored_schema })) => {
                *stored_schema == *schema
            },
            (
                Want::FoundAt { position, state },
                Reply::Snapshot(Hydrated::Found { position: p, state: found }),
            ) => match position.find(seen, n, samples) {
                Some(q) => same_place(*p, q) && match state {
                    Some(s) => same_octets(found.as_slice(), s.as_slice()),
                    None => true,
                },
                None => false,
            },
            _ => false,
        }
    }
}

} // verus!
