//! Scripts of questions and wanted answers, and the verdict on a store.

use crate::conformance::ask::{
    append_event, drain_all, drain_stream, event_run, name_octets, run_at, run_views, Ask, AskView,
    Mark, Until, WriteRows, WriteRowsView,
};
use crate::conformance::reply::{before, reply_views, Reply, ReplyView};
use crate::conformance::row::{plain_row, row_views, ConformanceRow};
use crate::conformance::want::{
    octet_views, placed, AllWant, AllWantView, RowsWant, RowsWantView, StepsWant, StepsWantView,
    Want, WantView,
};
use crate::envelope::EventView;
use crate::octets::{copied, decimal_octets, numbered};
use crate::store::AllPosition;
use crate::stream_key::StreamKey;
use crate::version::{group_version, head_at, version_at, Version};
use vstd::prelude::*;

verus! {

broadcast use group_version;

/// One question of a check, and which answers keep the contract.
#[derive(Debug)]
pub struct Stage {
    /// The question.
    pub ask: Ask,
    /// The answers that will do.
    pub want: Want,
}

/// A stage, as a value.
#[verifier::ext_equal]
pub struct StageView {
    pub ask: AskView,
    pub want: WantView,
}

impl View for Stage {
    type V = StageView;

    open spec fn view(&self) -> StageView {
        StageView { ask: self.ask@, want: self.want@ }
    }
}

/// What a script holds.
pub open spec fn stage_views(stages: Seq<Stage>) -> Seq<StageView> {
    Seq::new(stages.len(), |i: int| stages[i]@)
}

/// What a check says to the answers so far.
#[derive(Debug)]
pub enum Verdict<P> {
    /// Ask this next.
    Ask {
        /// The question.
        ask: Ask,
        /// The position that goes with the question, where it has one.
        position: Option<P>,
    },
    /// The store keeps the contract, as far as this check goes.
    Pass,
    /// This answer breaks the contract.
    Fail {
        /// The number of the answer.
        at: usize,
    },
}

/// What a check says, as a value.
pub enum VerdictView<P> {
    Ask(AskView, Option<P>),
    Pass,
    Fail(nat),
}

impl<P> View for Verdict<P> {
    type V = VerdictView<P>;

    open spec fn view(&self) -> VerdictView<P> {
        match self {
            Verdict::Ask { ask, position } => VerdictView::Ask(ask@, *position),
            Verdict::Pass => VerdictView::Pass,
            Verdict::Fail { at } => VerdictView::Fail(*at as nat),
        }
    }
}

/// The verdict from stage `i` on: an answer that will not do fails the store, a stage without an
/// answer is asked, and a store that answered all stages passes.
pub open spec fn verdict_from<P: AllPosition>(
    stages: Seq<StageView>,
    seen: Seq<ReplyView<P>>,
    samples: Seq<P>,
    i: nat,
) -> VerdictView<P>
    decreases stages.len() - i,
{
    if i >= stages.len() {
        VerdictView::Pass
    } else if i >= seen.len() {
        let ask = stages[i as int].ask;
        VerdictView::Ask(ask, ask.mark().place(seen, i as int, samples))
    } else if !stages[i as int].want.fits(seen, i as int, samples) {
        VerdictView::Fail(i)
    } else {
        verdict_from(stages, seen, samples, i + 1)
    }
}

/// The verdict of a script on a store's answers.
pub open spec fn verdict_of<P: AllPosition>(
    stages: Seq<StageView>,
    seen: Seq<ReplyView<P>>,
    samples: Seq<P>,
) -> VerdictView<P> {
    verdict_from(stages, seen, samples, 0)
}

/// A script: stage by stage what to ask, and which answers will do.
#[derive(Debug)]
pub struct Script {
    stages: Vec<Stage>,
}

impl View for Script {
    type V = Seq<StageView>;

    closed spec fn view(&self) -> Seq<StageView> {
        stage_views(self.stages@)
    }
}

impl Script {
    /// The script without stages.
    pub fn new() -> (r: Script)
        ensures
            r@ == Seq::<StageView>::empty(),
    {
        let r: Script = Script { stages: Vec::new() };
        assert(r@ =~= Seq::<StageView>::empty());
        r
    }

    /// The script with one more stage.
    pub fn with(self, stage: Stage) -> (r: Script)
        ensures
            r@ == self@.push(stage@),
    {
        let mut stages: Vec<Stage> = self.stages;
        stages.push(stage);
        let r: Script = Script { stages };
        assert(r@ =~= self@.push(stage@));
        r
    }

    /// The verdict of the script on a store's answers.
    pub fn judge<P: AllPosition>(self, seen: &[Reply<P>]) -> (r: Verdict<P>)
        ensures
            r@ == verdict_of(self@, reply_views(seen@), Seq::empty()),
    {
        let samples: Vec<P> = Vec::new();
        assert(samples@ =~= Seq::<P>::empty());
        self.judge_with(seen, samples.as_slice())
    }

    /// The verdict of the script on a store's answers, with sample positions.
    pub fn judge_with<P: AllPosition>(self, seen: &[Reply<P>], samples: &[P]) -> (r: Verdict<P>)
        ensures
            r@ == verdict_of(self@, reply_views(seen@), samples@),
    {
        let mut stages: Vec<Stage> = self.stages;
        let ghost script = self@;
        let ghost answers = reply_views(seen@);
        let mut i: usize = 0;
        while i < stages.len()
            invariant
                0 <= i <= stages.len(),
                i <= seen.len(),
                script == self@,
                script == stage_views(stages@),
                answers == reply_views(seen@),
                verdict_of(script, answers, samples@) == verdict_from(
                    script,
                    answers,
                    samples@,
                    i as nat,
                ),
            decreases stages.len() - i,
        {
            assert(script[i as int] == stages@[i as int]@);
            if i == seen.len() {
                let stage: Stage = stages.swap_remove(i);
                let position: Option<P> = stage.ask.mark().find(seen, i, samples);
                return Verdict::Ask { ask: stage.ask, position };
            }
            if !stages[i].want.accepts(seen, i, samples) {
                return Verdict::Fail { at: i };
            }
            i = i + 1;
        }
        Verdict::Pass
    }
}

// ── Laws ────────────────────────────────────────────────────────────────────────────────────────

/// A store passes a check if and only if it answered every stage, each with an answer that will
/// do.
pub proof fn passes_if_every_answer_fits<P: AllPosition>(
    stages: Seq<StageView>,
    seen: Seq<ReplyView<P>>,
    samples: Seq<P>,
)
    ensures
        verdict_of(stages, seen, samples) is Pass <==> {
            &&& seen.len() >= stages.len()
            &&& forall|i: int|
                0 <= i < stages.len() ==> (#[trigger] stages[i]).want.fits(seen, i, samples)
        },
{
    passes_from(stages, seen, samples, 0);
}

proof fn passes_from<P: AllPosition>(
    stages: Seq<StageView>,
    seen: Seq<ReplyView<P>>,
    samples: Seq<P>,
    i: nat,
)
    requires
        i <= stages.len(),
        i <= seen.len(),
    ensures
        verdict_from(stages, seen, samples, i) is Pass <==> {
            &&& seen.len() >= stages.len()
            &&& forall|j: int|
                i <= j < stages.len() ==> (#[trigger] stages[j]).want.fits(seen, j, samples)
        },
    decreases stages.len() - i,
{
    if i < stages.len() && i < seen.len() {
        if stages[i as int].want.fits(seen, i as int, samples) {
            passes_from(stages, seen, samples, i + 1);
        }
    }
}

/// A store fails a check at the first answer that will not do.
pub proof fn fails_at_the_first_misfit<P: AllPosition>(
    stages: Seq<StageView>,
    seen: Seq<ReplyView<P>>,
    samples: Seq<P>,
    at: nat,
)
    ensures
        verdict_of(stages, seen, samples) == VerdictView::<P>::Fail(at) <==> {
            &&& at < stages.len()
            &&& at < seen.len()
            &&& !stages[at as int].want.fits(seen, at as int, samples)
            &&& forall|i: int|
                0 <= i < at ==> (#[trigger] stages[i]).want.fits(seen, i, samples)
        },
{
    fails_from(stages, seen, samples, at, 0);
}

proof fn fails_from<P: AllPosition>(
    stages: Seq<StageView>,
    seen: Seq<ReplyView<P>>,
    samples: Seq<P>,
    at: nat,
    i: nat,
)
    requires
        i <= stages.len(),
        i <= seen.len(),
    ensures
        verdict_from(stages, seen, samples, i) == VerdictView::<P>::Fail(at) <==> {
            &&& i <= at < stages.len()
            &&& at < seen.len()
            &&& !stages[at as int].want.fits(seen, at as int, samples)
            &&& forall|j: int|
                i <= j < at ==> (#[trigger] stages[j]).want.fits(seen, j, samples)
        },
    decreases stages.len() - i,
{
    if i < stages.len() && i < seen.len() {
        if stages[i as int].want.fits(seen, i as int, samples) {
            fails_from(stages, seen, samples, at, i + 1);
        }
    }
}

/// A verdict is final: further answers change neither a pass nor a failure.
pub proof fn verdict_is_final<P: AllPosition>(
    stages: Seq<StageView>,
    seen: Seq<ReplyView<P>>,
    more: Seq<ReplyView<P>>,
    samples: Seq<P>,
)
    requires
        !(verdict_of(stages, seen, samples) is Ask),
    ensures
        verdict_of(stages, seen + more, samples) == verdict_of(stages, seen, samples),
{
    final_from(stages, seen, more, samples, 0);
}

proof fn final_from<P: AllPosition>(
    stages: Seq<StageView>,
    seen: Seq<ReplyView<P>>,
    more: Seq<ReplyView<P>>,
    samples: Seq<P>,
    i: nat,
)
    requires
        i <= stages.len(),
        i <= seen.len(),
        !(verdict_from(stages, seen, samples, i) is Ask),
    ensures
        verdict_from(stages, seen + more, samples, i) == verdict_from(stages, seen, samples, i),
    decreases stages.len() - i,
{
    if i < stages.len() && i < seen.len() {
        fits_by_prefix(stages[i as int].want, seen, more, i as int, samples);
        if stages[i as int].want.fits(seen, i as int, samples) {
            final_from(stages, seen, more, samples, i + 1);
        }
    }
}

proof fn fits_by_prefix<P: AllPosition>(
    want: WantView,
    seen: Seq<ReplyView<P>>,
    more: Seq<ReplyView<P>>,
    n: int,
    samples: Seq<P>,
)
    requires
        0 <= n < seen.len(),
    ensures
        want.fits(seen + more, n, samples) == want.fits(seen, n, samples),
{
    let longer = seen + more;
    assert(longer[n] == seen[n]);
    assert forall|k: int| #[trigger] before(longer, n, k) == before(seen, n, k) by {}
    match want {
        WantView::All(AllWantView::At(all), _, _) => {
            match seen[n] {
                ReplyView::AllRows(rows) => {
                    assert forall|i: int| 0 <= i < all.len() implies placed(
                        rows,
                        longer,
                        n,
                        #[trigger] all[i],
                    ) == placed(rows, seen, n, all[i]) by {}
                },
                _ => {},
            }
        },
        _ => {},
    }
}

// ── Stages that the checks share ────────────────────────────────────────────────────────────────

impl StageView {
    /// Rows go to a fresh stream.
    pub open spec fn fresh(key: Seq<u8>, rows: Seq<EventView>) -> StageView {
        StageView { ask: AskView::Append(run_at(key, 0, rows)), want: WantView::Landed }
    }

    /// One event goes to a stream, with the expectation that goes with its version.
    pub open spec fn event(key: Seq<u8>, version: nat, payload: Seq<u8>) -> StageView {
        StageView {
            ask: AskView::Append(event_run(key, version, payload)),
            want: WantView::Landed,
        }
    }

    /// Rows go to a stream that is taken for fresh.
    pub open spec fn claims_fresh(
        key: Seq<u8>,
        rows: Seq<EventView>,
        want: WantView,
    ) -> StageView {
        StageView { ask: AskView::Append(run_at(key, 0, rows)), want }
    }

    /// A stream is read from a version on.
    pub open spec fn reads(key: Seq<u8>, from: nat, want: RowsWantView) -> StageView {
        StageView {
            ask: AskView::ReadStream(key, version_at(from), 0),
            want: WantView::Rows(want, 0),
        }
    }

    /// All streams are read behind a position.
    pub open spec fn reads_all(after: Mark, want: AllWantView, in_order: bool) -> StageView {
        StageView {
            ask: AskView::ReadAll(after),
            want: WantView::All(want, in_order, Mark::Start),
        }
    }

    /// All streams are read behind a position, and the first row stands behind it.
    pub open spec fn resumes_all(after: Mark, want: AllWantView) -> StageView {
        StageView { ask: AskView::ReadAll(after), want: WantView::All(want, false, after) }
    }

    /// A subscription to a stream is opened, behind version `behind` or from the beginning for 0.
    pub open spec fn subscribes(slot: usize, key: Seq<u8>, behind: nat) -> StageView {
        StageView {
            ask: AskView::Subscribe(slot, key, head_at(behind)),
            want: WantView::Done,
        }
    }

    /// One step is taken from a subscription.
    pub open spec fn steps(slot: usize, want: StepsWantView) -> StageView {
        StageView { ask: AskView::Steps(slot, Until::One), want: WantView::Steps(want) }
    }

    /// Steps are taken from a subscription up to the boundary.
    pub open spec fn catches_up(slot: usize, want: StepsWantView) -> StageView {
        StageView { ask: AskView::Steps(slot, Until::CaughtUp), want: WantView::Steps(want) }
    }

    /// The storage is closed and opened again.
    pub open spec fn reopens() -> StageView {
        StageView { ask: AskView::Reopen, want: WantView::Done }
    }
}

impl Stage {
    /// Rows go to a fresh stream. A stage without rows asks for an append all the same.
    pub fn fresh(key: StreamKey, rows: Vec<ConformanceRow>) -> (r: Stage)
        ensures
            r@ == StageView::fresh(key@, row_views(rows@)),
    {
        Stage::claims_fresh(key, rows, Want::Landed)
    }

    /// Rows go to a stream that is taken for fresh.
    pub fn claims_fresh(key: StreamKey, rows: Vec<ConformanceRow>, want: Want) -> (r: Stage)
        ensures
            r@ == StageView::claims_fresh(key@, row_views(rows@), want@),
    {
        Stage { ask: Ask::Append(WriteRows { key, expected: None, rows }), want }
    }

    /// One event goes to a stream, with the expectation that goes with its version.
    pub fn event(key: StreamKey, version: u64, payload: Vec<u8>) -> (r: Stage)
        ensures
            r@ == StageView::event(key@, version as nat, payload@),
    {
        Stage { ask: append_event(key, version, payload), want: Want::Landed }
    }

    /// A stream is read from a version on.
    pub fn reads(key: StreamKey, from: u64, want: RowsWant) -> (r: Stage)
        requires
            from > 0,
        ensures
            r@ == StageView::reads(key@, from as nat, want@),
    {
        Stage { ask: drain_stream(key, version_of(from)), want: Want::Rows { want, polls: 0 } }
    }

    /// All streams are read behind a position.
    pub fn reads_all(after: Mark, want: AllWant, in_order: bool) -> (r: Stage)
        ensures
            r@ == StageView::reads_all(after, want@, in_order),
    {
        Stage {
            ask: drain_all(after),
            want: Want::All { rows: want, in_order, behind: Mark::Start },
        }
    }

    /// All streams are read behind a position, and the first row stands behind it.
    pub fn resumes_all(after: Mark, want: AllWant) -> (r: Stage)
        ensures
            r@ == StageView::resumes_all(after, want@),
    {
        Stage {
            ask: drain_all(after),
            want: Want::All { rows: want, in_order: false, behind: after },
        }
    }

    /// A subscription to a stream is opened, behind version `behind` or from the beginning for 0.
    pub fn subscribes(slot: usize, key: StreamKey, behind: u64) -> (r: Stage)
        ensures
            r@ == StageView::subscribes(slot, key@, behind as nat),
    {
        Stage { ask: Ask::Subscribe { slot, key, behind: Version::new(behind) }, want: Want::Done }
    }

    /// One step is taken from a subscription.
    pub fn steps(slot: usize, want: StepsWant) -> (r: Stage)
        ensures
            r@ == StageView::steps(slot, want@),
    {
        Stage { ask: Ask::Steps { slot, until: Until::One }, want: Want::Steps(want) }
    }

    /// Steps are taken from a subscription up to the boundary.
    pub fn catches_up(slot: usize, want: StepsWant) -> (r: Stage)
        ensures
            r@ == StageView::catches_up(slot, want@),
    {
        Stage { ask: Ask::Steps { slot, until: Until::CaughtUp }, want: Want::Steps(want) }
    }

    /// The storage is closed and opened again.
    pub fn reopens() -> (r: Stage)
        ensures
            r@ == StageView::reopens(),
    {
        Stage { ask: Ask::Reopen, want: Want::Done }
    }
}

/// The version of a number.
pub fn version_of(n: u64) -> (r: Version)
    requires
        n > 0,
    ensures
        r == version_at(n as nat),
{
    match Version::new(n) {
        Some(version) => version,
        None => Version::initial(),
    }
}

// ── Bytes and rows ──────────────────────────────────────────────────────────────────────────────

/// The bytes of a name.
pub fn octets_of(name: &str) -> (r: Vec<u8>)
    ensures
        r@ == name_octets(name),
{
    copied(name.as_bytes())
}

/// A name with a number behind it.
pub open spec fn counted(name: &str, n: nat) -> Seq<u8> {
    name_octets(name) + decimal_octets(n)
}

/// A name with a number behind it.
pub fn counted_octets(name: &str, n: u64) -> (r: Vec<u8>)
    ensures
        r@ == counted(name, n as nat),
{
    numbered(name.as_bytes(), n)
}

/// A row of type `E` with one byte.
pub open spec fn octet_row(version: nat, octet: u8) -> EventView {
    plain_row(version, "E"@, seq![octet])
}

/// A row of type `E` with one byte.
pub fn row_of_octet(version: u64, octet: u8) -> (r: ConformanceRow)
    ensures
        r@ == octet_row(version as nat, octet),
{
    ConformanceRow::new(version, "E", one_octet(octet))
}

/// One row.
pub fn one_row(row: ConformanceRow) -> (r: Vec<ConformanceRow>)
    ensures
        row_views(r@) == seq![row@],
{
    and_row(no_rows(), row)
}

/// One byte.
pub fn one_octet(octet: u8) -> (r: Vec<u8>)
    ensures
        r@ == seq![octet],
{
    let mut out: Vec<u8> = Vec::new();
    out.push(octet);
    assert(out@ =~= seq![octet]);
    out
}

/// The bytes 1, 2 and 3.
pub fn one_two_three() -> (r: Vec<u8>)
    ensures
        r@ == seq![1u8, 2u8, 3u8],
{
    let mut out: Vec<u8> = Vec::new();
    out.push(1);
    out.push(2);
    out.push(3);
    assert(out@ =~= seq![1u8, 2u8, 3u8]);
    out
}

/// The bytes that count up to a modulus and start again, `n` of them.
pub open spec fn ramp(n: nat, modulus: int) -> Seq<u8> {
    Seq::new(n, |i: int| (i % modulus) as u8)
}

/// The bytes that count up to a modulus and start again, `n` of them.
pub fn ramp_octets(n: usize, modulus: usize) -> (r: Vec<u8>)
    requires
        0 < modulus <= 256,
    ensures
        r@ == ramp(n as nat, modulus as int),
{
    let mut out: Vec<u8> = Vec::with_capacity(n);
    let mut i: usize = 0;
    while i < n
        invariant
            0 <= i <= n,
            0 < modulus <= 256,
            out@.len() == i,
            forall|j: int| 0 <= j < i ==> out@[j] == (j % modulus as int) as u8,
        decreases n - i,
    {
        out.push((i % modulus) as u8);
        i = i + 1;
    }
    assert(out@ =~= ramp(n as nat, modulus as int));
    out
}

/// A byte `n` times.
pub open spec fn repeated(octet: u8, n: nat) -> Seq<u8> {
    Seq::new(n, |i: int| octet)
}

/// A byte `n` times.
pub fn repeated_octets(octet: u8, n: usize) -> (r: Vec<u8>)
    ensures
        r@ == repeated(octet, n as nat),
{
    let mut out: Vec<u8> = Vec::with_capacity(n);
    let mut i: usize = 0;
    while i < n
        invariant
            0 <= i <= n,
            out@.len() == i,
            forall|j: int| 0 <= j < i ==> out@[j] == octet,
        decreases n - i,
    {
        out.push(octet);
        i = i + 1;
    }
    assert(out@ =~= repeated(octet, n as nat));
    out
}

/// No byte vectors.
pub fn no_octets() -> (r: Vec<Vec<u8>>)
    ensures
        octet_views(r@) == Seq::<Seq<u8>>::empty(),
{
    let r: Vec<Vec<u8>> = Vec::new();
    assert(octet_views(r@) =~= Seq::<Seq<u8>>::empty());
    r
}

/// Byte vectors and one more.
pub fn and_octets(all: Vec<Vec<u8>>, one: Vec<u8>) -> (r: Vec<Vec<u8>>)
    ensures
        octet_views(r@) == octet_views(all@).push(one@),
{
    let mut out: Vec<Vec<u8>> = all;
    out.push(one);
    assert(octet_views(out@) =~= octet_views(all@).push(one@));
    out
}

/// Two byte vectors.
pub fn two_octets(a: Vec<u8>, b: Vec<u8>) -> (r: Vec<Vec<u8>>)
    ensures
        octet_views(r@) == seq![a@, b@],
{
    let r: Vec<Vec<u8>> = and_octets(and_octets(no_octets(), a), b);
    assert(octet_views(r@) =~= seq![a@, b@]);
    r
}

/// Three byte vectors.
pub fn three_octets(a: Vec<u8>, b: Vec<u8>, c: Vec<u8>) -> (r: Vec<Vec<u8>>)
    ensures
        octet_views(r@) == seq![a@, b@, c@],
{
    let r: Vec<Vec<u8>> = and_octets(two_octets(a, b), c);
    assert(octet_views(r@) =~= seq![a@, b@, c@]);
    r
}

/// No rows.
pub fn no_rows() -> (r: Vec<ConformanceRow>)
    ensures
        row_views(r@) == Seq::<EventView>::empty(),
{
    let r: Vec<ConformanceRow> = Vec::new();
    assert(row_views(r@) =~= Seq::<EventView>::empty());
    r
}

/// Rows and one more.
pub fn and_row(rows: Vec<ConformanceRow>, row: ConformanceRow) -> (r: Vec<ConformanceRow>)
    ensures
        row_views(r@) == row_views(rows@).push(row@),
{
    let mut out: Vec<ConformanceRow> = rows;
    out.push(row);
    assert(row_views(out@) =~= row_views(rows@).push(row@));
    out
}

/// Two rows.
pub fn two_rows(a: ConformanceRow, b: ConformanceRow) -> (r: Vec<ConformanceRow>)
    ensures
        row_views(r@) == seq![a@, b@],
{
    let r: Vec<ConformanceRow> = and_row(one_row(a), b);
    assert(row_views(r@) =~= seq![a@, b@]);
    r
}

/// Three rows.
pub fn three_rows(a: ConformanceRow, b: ConformanceRow, c: ConformanceRow) -> (r: Vec<
    ConformanceRow,
>)
    ensures
        row_views(r@) == seq![a@, b@, c@],
{
    let r: Vec<ConformanceRow> = and_row(two_rows(a, b), c);
    assert(row_views(r@) =~= seq![a@, b@, c@]);
    r
}

/// No runs.
pub fn no_runs() -> (r: Vec<WriteRows>)
    ensures
        run_views(r@) == Seq::<WriteRowsView>::empty(),
{
    let r: Vec<WriteRows> = Vec::new();
    assert(run_views(r@) =~= Seq::<WriteRowsView>::empty());
    r
}

/// Runs and one more.
pub fn and_run(runs: Vec<WriteRows>, run: WriteRows) -> (r: Vec<WriteRows>)
    ensures
        run_views(r@) == run_views(runs@).push(run@),
{
    let mut out: Vec<WriteRows> = runs;
    out.push(run);
    assert(run_views(out@) =~= run_views(runs@).push(run@));
    out
}

} // verus!
