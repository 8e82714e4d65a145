//! Laws of verdicts: which answers a check takes, and how a script goes on.

use crate::conformance::ask::{Ask, Mark, Pages, Until};
use crate::conformance::reply::{
    all_views, reply_views, step_views, AllRow, Landing, Reply, ReplyView, StepSeen, StepView,
};
use crate::conformance::row::{
    assert_strictly_increasing, envelope_for, row_of, row_views, ConformanceRow,
};
use crate::conformance::script::{verdict_from, Script, Stage, StageView, Verdict};
use crate::conformance::want::{
    appended_views, carries_at, event_at, first_at, first_landed, octet_views, one_boundary,
    optional_views, placed, sole_winner, step_rows, task_payload, AllWant, RowsWant, StepsWant,
    Want,
};
use crate::envelope::{PendingEnvelope, PersistedEnvelope};
use crate::state::Hydrated;
use crate::store::AllPosition;
use crate::value::schema_version_of_view;
use crate::version::{group_version, version_of_view};
use vstd::prelude::*;

verus! {

broadcast use group_version;

/// A script grows stage by stage. What fails or asks without a further stage does so with it. Where
/// all answers so far will do, the further stage asks its question; once that is answered, the
/// script passes if the stage's want takes the answer, and fails at it otherwise. A script without
/// stages passes.
pub proof fn script_goes_on_where_it_passed<P: AllPosition>(
    empty: Script,
    script: Script,
    stage: Stage,
    longer: Script,
    seen: &[Reply<P>],
    samples: &[P],
    n: usize,
    verdicts: (Verdict<P>, Verdict<P>, Verdict<P>),
    taken: bool,
    position: Option<P>,
    mark: Mark,
)
    requires
        call_ensures(Script::new, (), empty),
        call_ensures(Script::judge_with::<P>, (empty, seen, samples), verdicts.0),
        call_ensures(Script::with, (script, stage), longer),
        call_ensures(Script::judge_with::<P>, (script, seen, samples), verdicts.1),
        call_ensures(Script::judge_with::<P>, (longer, seen, samples), verdicts.2),
        n == script@.len(),
        n < seen@.len() ==> call_ensures(
            Want::accepts::<P>,
            (&stage.want, seen, n, samples),
            taken,
        ),
        call_ensures(Ask::mark, (&stage.ask,), mark),
        n == seen@.len() ==> call_ensures(Mark::find::<P>, (mark, seen, n, samples), position),
    ensures
        verdicts.0 is Pass,
        !(verdicts.1 is Pass) ==> verdicts.2@ == verdicts.1@,
        verdicts.1 is Pass ==> n <= seen@.len(),
        verdicts.1 is Pass && n == seen@.len() ==> (verdicts.2 matches Verdict::Ask {
            ask,
            position: given,
        } && ask@ == stage.ask@ && given == position),
        verdicts.1 is Pass && n < seen@.len() ==> if taken {
            verdicts.2 is Pass
        } else {
            verdicts.2 matches Verdict::Fail { at } && at == n
        },
{
    longer_from(script@, stage@, reply_views(seen@), samples@, 0);
}

proof fn longer_from<P: AllPosition>(
    stages: Seq<StageView>,
    stage: StageView,
    seen: Seq<ReplyView<P>>,
    samples: Seq<P>,
    i: nat,
)
    requires
        i <= stages.len(),
        i <= seen.len(),
    ensures
        !(verdict_from(stages, seen, samples, i) is Pass) ==> verdict_from(
            stages.push(stage),
            seen,
            samples,
            i,
        ) == verdict_from(stages, seen, samples, i),
        verdict_from(stages, seen, samples, i) is Pass ==> stages.len() <= seen.len()
            && verdict_from(stages.push(stage), seen, samples, i) == verdict_from(
            stages.push(stage),
            seen,
            samples,
            stages.len(),
        ),
        verdict_from(stages.push(stage), seen, samples, stages.len() + 1) is Pass,
    decreases stages.len() - i,
{
    if i < stages.len() {
        assert(stages.push(stage)[i as int] == stages[i as int]);
        if i < seen.len() && stages[i as int].want.fits(seen, i as int, samples) {
            longer_from(stages, stage, seen, samples, i + 1);
        }
    }
}

/// Judging without sample positions is judging with none.
pub proof fn judging_needs_no_samples<P: AllPosition>(
    script: Script,
    seen: &[Reply<P>],
    none: &[P],
    a: Verdict<P>,
    b: Verdict<P>,
)
    requires
        none@.len() == 0,
        call_ensures(Script::judge::<P>, (script, seen), a),
        call_ensures(Script::judge_with::<P>, (script, seen, none), b),
    ensures
        a@ == b@,
{
    assert(none@ =~= Seq::empty());
}

/// Of appends and transactions: a landing is taken where one is wanted, behind the earlier position
/// where that is wanted; a refusal where that is wanted, with the head that the stream has where
/// that is named.
pub proof fn writes_are_judged_by_how_they_ended<P: AllPosition>(
    want: &Want,
    seen: &[Reply<P>],
    n: usize,
    samples: &[P],
    r: bool,
)
    requires
        n < seen@.len(),
        call_ensures(Want::accepts::<P>, (want, seen, n, samples), r),
    ensures
        *want is Landed ==> (r <==> seen@[n as int] is Landed),
        *want is Refused ==> (r <==> seen@[n as int] is Conflict || seen@[n as int] is Failed),
        *want is Conflict ==> (r <==> seen@[n as int] is Conflict),
        *want is Committed ==> (r <==> seen@[n as int] is Committed),
        *want is Done ==> (r <==> seen@[n as int] is Done),
        *want matches Want::LandedBehind { answer } ==> (r <==> (answer < n && (
        seen@[n as int] matches Reply::Landed(q) && (seen@[answer as int] matches Reply::Landed(p)
            && p.ordinal() < q.ordinal())))),
        *want matches Want::ConflictAt { head } ==> (r <==> (
        seen@[n as int] matches Reply::Conflict { actual } && match actual {
            None => head == 0,
            Some(v) => head > 0 && v@ == head,
        })),
        *want matches Want::AtomicConflictAt { index, head } ==> (r <==> (
        seen@[n as int] matches Reply::AtomicConflict { index: i, actual } && i == index
            && match actual {
            None => head == 0,
            Some(v) => head > 0 && v@ == head,
        })),
{
    assert(reply_views(seen@)[n as int] == seen@[n as int]@);
    match want {
        Want::LandedBehind { answer } => {
            if *answer < n {
                assert(reply_views(seen@)[*answer as int] == seen@[*answer as int]@);
            }
        },
        Want::ConflictAt { head } => {
            if let Reply::Conflict { actual: Some(v) } = seen@[n as int] {
                version_of_view(v);
            }
        },
        Want::AtomicConflictAt { index, head } => {
            if let Reply::AtomicConflict { index: i, actual: Some(v) } = seen@[n as int] {
                version_of_view(v);
            }
        },
        _ => {},
    }
}

/// Task `w` landed, and every other task was refused as a conflict.
pub open spec fn alone_landed(ended: Seq<Landing>, w: int) -> bool {
    &&& 0 <= w < ended.len()
    &&& ended[w] is Landed
    &&& forall|j: int| 0 <= j < ended.len() && j != w ==> #[trigger] ended[j] is Conflict
}

/// Of races: where one winner is wanted, exactly one task landed and every other one was refused as
/// a conflict; where all are to win, all landed. There are as many tasks as were started.
pub proof fn races_are_judged_task_by_task<P: AllPosition>(
    want: &Want,
    seen: &[Reply<P>],
    n: usize,
    samples: &[P],
    r: bool,
)
    requires
        n < seen@.len(),
        call_ensures(Want::accepts::<P>, (want, seen, n, samples), r),
    ensures
        *want matches Want::OneWinner { tasks } ==> (r <==> (seen@[n as int] matches Reply::Raced(
            ended,
        ) && ended@.len() == tasks && exists|w: int| #[trigger] alone_landed(ended@, w))),
        *want matches Want::AllWin { tasks } ==> (r <==> (seen@[n as int] matches Reply::Raced(
            ended,
        ) && ended@.len() == tasks && forall|w: int|
            0 <= w < ended@.len() ==> #[trigger] ended@[w] is Landed)),
{
    assert(reply_views(seen@)[n as int] == seen@[n as int]@);
    if let Reply::Raced(ended) = seen@[n as int] {
        assert forall|w: int| #[trigger] alone_landed(ended@, w) == sole_winner(ended@, w) by {}
        if exists|w: int| #[trigger] sole_winner(ended@, w) {
            let w = choose|w: int| #[trigger] sole_winner(ended@, w);
            assert(alone_landed(ended@, w));
        }
    }
}

/// Of snapshots: nothing saved; a stale one with its schema version; or one that is found at the
/// wanted position and, where it matters, with the wanted state.
pub proof fn snapshots_are_judged_whole<P: AllPosition>(
    want: &Want,
    seen: &[Reply<P>],
    n: usize,
    samples: &[P],
    r: bool,
    place: Option<P>,
)
    requires
        n < seen@.len(),
        call_ensures(Want::accepts::<P>, (want, seen, n, samples), r),
        *want matches Want::FoundAt { position, .. } ==> call_ensures(
            Mark::find::<P>,
            (position, seen, n, samples),
            place,
        ),
    ensures
        *want is Absent ==> (r <==> (seen@[n as int] matches Reply::Snapshot(Hydrated::Absent))),
        *want matches Want::StaleAt { schema } ==> (r <==> (seen@[n as int] matches Reply::Snapshot(
            Hydrated::Stale { stored_schema },
        ) && stored_schema == schema)),
        *want matches Want::FoundAt { position, state } ==> (r <==> (
        seen@[n as int] matches Reply::Snapshot(Hydrated::Found { position: p, state: found })
            && place is Some && p.ordinal() == place->0.ordinal() && (state matches Some(s)
            ==> found@ == s@))),
{
    assert(reply_views(seen@)[n as int] == seen@[n as int]@);
    if let Want::StaleAt { schema } = want {
        if let Reply::Snapshot(Hydrated::Stale { stored_schema }) = seen@[n as int] {
            schema_version_of_view(stored_schema, *schema);
        }
    }
}

/// Task `w` landed, and no task before it did.
pub open spec fn first_to_land(ended: Seq<Landing>, w: int) -> bool {
    &&& 0 <= w < ended.len()
    &&& ended[w] is Landed
    &&& forall|j: int| 0 <= j < w ==> !(#[trigger] ended[j] is Landed)
}

/// The payload is one byte: the task's number, as far as a byte holds it.
pub open spec fn is_task_number(payload: Seq<u8>, w: int) -> bool {
    &&& payload.len() == 1
    &&& if w < 256 {
        payload[0] == w as u8
    } else {
        payload[0] == 0
    }
}

/// Rows of a stream are taken if they are what is wanted: the same rows, the versions in a row, so
/// many, with these payloads, leading with this metadata, the first of this type; or the rows of an
/// earlier answer; or the one row of the first task of a race that landed, whose payload is that
/// task's number.
pub proof fn stream_rows_are_judged_row_by_row<P>(
    want: &RowsWant,
    rows: &[ConformanceRow],
    seen: &[Reply<P>],
    n: usize,
    r: bool,
)
    requires
        n <= seen@.len(),
        call_ensures(RowsWant::accepts::<P>, (want, rows, seen, n), r),
    ensures
        *want is Any ==> r,
        *want matches RowsWant::Exact(all) ==> (r <==> rows@.len() == all@.len() && forall|i: int|
            0 <= i < rows@.len() ==> (#[trigger] rows@[i])@ == all@[i]@),
        *want matches RowsWant::Versions { first, count } ==> (r <==> rows@.len() == count
            && forall|i: int| 0 <= i < rows@.len() ==> (#[trigger] rows@[i]).version == first + i),
        *want matches RowsWant::Count(count) ==> (r <==> rows@.len() == count),
        *want matches RowsWant::Payloads(all) ==> (r <==> rows@.len() == all@.len() && forall|
            i: int,
        |
            0 <= i < rows@.len() ==> (#[trigger] rows@[i]).payload@ == all@[i]@),
        *want matches RowsWant::LeadingMetadata(all) ==> (r <==> rows@.len() >= all@.len()
            && forall|i: int|
            0 <= i < all@.len() ==> match (rows@[i].metadata, #[trigger] all@[i]) {
                (Some(a), Some(b)) => a@ == b@,
                (None, None) => true,
                _ => false,
            }),
        *want matches RowsWant::FirstEventType(text) ==> (r <==> rows@.len() > 0
            && rows@[0].event_type@ == text@),
        *want matches RowsWant::SameAs { answer } ==> (r <==> (answer < n && (
        seen@[answer as int] matches Reply::Rows { rows: earlier, .. } && rows@.len()
            == earlier@.len() && forall|i: int|
            0 <= i < rows@.len() ==> (#[trigger] rows@[i])@ == earlier@[i]@))),
        *want matches RowsWant::WinnerOf { answer } ==> (r <==> (answer < n && (
        seen@[answer as int] matches Reply::Raced(ended) && rows@.len() == 1 && exists|w: int|
            #[trigger] first_to_land(ended@, w) && is_task_number(rows@[0].payload@, w)))),
{
    let views = row_views(rows@);
    assert(views.len() == rows@.len());
    assert forall|i: int| 0 <= i < rows@.len() implies #[trigger] rows@[i]@ == views[i]
        && rows@[i].version == views[i].version && rows@[i].payload@ == views[i].payload by {}
    let answers = reply_views(seen@);
    match want {
        RowsWant::Exact(all) => {
            let wanted = row_views(all@);
            if rows@.len() == all@.len() && forall|i: int|
                0 <= i < rows@.len() ==> (#[trigger] rows@[i])@ == all@[i]@ {
                assert(views =~= wanted);
            }
            if r {
                assert(views == wanted);
                assert forall|i: int| 0 <= i < rows@.len() implies (#[trigger] rows@[i])@
                    == all@[i]@ by {
                    assert(views[i] == wanted[i]);
                }
            }
        },
        RowsWant::Versions { first, count } => {
            if rows@.len() == count && forall|i: int|
                0 <= i < rows@.len() ==> (#[trigger] rows@[i]).version == first + i {
                assert forall|i: int| 0 <= i < views.len() implies (#[trigger] views[i]).version
                    == *first as nat + i by {
                    assert(rows@[i].version == first + i);
                }
            }
            if r {
                assert forall|i: int| 0 <= i < rows@.len() implies (#[trigger] rows@[i]).version
                    == first + i by {
                    assert(views[i].version == *first as nat + i);
                }
            }
        },
        RowsWant::Payloads(all) => {
            let wanted = octet_views(all@);
            if rows@.len() == all@.len() && forall|i: int|
                0 <= i < rows@.len() ==> (#[trigger] rows@[i]).payload@ == all@[i]@ {
                assert forall|i: int| 0 <= i < views.len() implies (#[trigger] views[i]).payload
                    == wanted[i] by {
                    assert(rows@[i].payload@ == all@[i]@);
                }
            }
            if r {
                assert forall|i: int| 0 <= i < rows@.len() implies (#[trigger] rows@[i]).payload@
                    == all@[i]@ by {
                    assert(views[i].payload == wanted[i]);
                }
            }
        },
        RowsWant::LeadingMetadata(all) => {
            let wanted = optional_views(all@);
            assert(wanted.len() == all@.len());
            assert forall|i: int| 0 <= i < all@.len() && rows@.len() >= all@.len() implies (
            views[i].metadata == #[trigger] wanted[i] <==> match (rows@[i].metadata, all@[i]) {
                (Some(a), Some(b)) => a@ == b@,
                (None, None) => true,
                _ => false,
            }) by {}
            if r {
                assert forall|i: int| 0 <= i < all@.len() implies match (
                    rows@[i].metadata,
                    #[trigger] all@[i],
                ) {
                    (Some(a), Some(b)) => a@ == b@,
                    (None, None) => true,
                    _ => false,
                } by {
                    assert(views[i].metadata == wanted[i]);
                }
            }
        },
        RowsWant::SameAs { answer } => {
            if *answer < n {
                assert(answers[*answer as int] == seen@[*answer as int]@);
                if let Reply::Rows { rows: earlier, .. } = seen@[*answer as int] {
                    let wanted = row_views(earlier@);
                    if rows@.len() == earlier@.len() && forall|i: int|
                        0 <= i < rows@.len() ==> (#[trigger] rows@[i])@ == earlier@[i]@ {
                        assert(views =~= wanted);
                    }
                    if r {
                        assert(views == wanted);
                        assert forall|i: int| 0 <= i < rows@.len() implies (#[trigger] rows@[i])@
                            == earlier@[i]@ by {
                            assert(views[i] == wanted[i]);
                        }
                    }
                }
            }
        },
        RowsWant::WinnerOf { answer } => {
            if *answer < n {
                assert(answers[*answer as int] == seen@[*answer as int]@);
                if let Reply::Raced(ended) = seen@[*answer as int] {
                    assert forall|w: int| #[trigger]
                        first_to_land(ended@, w) == first_landed(ended@, w) by {}
                    assert forall|w: int| is_task_number(rows@[0].payload@, w) == (
                    rows@[0].payload@ == #[trigger] task_payload(w)) by {
                        if is_task_number(rows@[0].payload@, w) {
                            assert(rows@[0].payload@ =~= task_payload(w));
                        }
                    }
                    if r {
                        let w = choose|w: int|
                            #[trigger] first_landed(ended@, w) && views[0].payload
                                == task_payload(w);
                        assert(first_to_land(ended@, w));
                    }
                    if rows@.len() == 1 && exists|w: int|
                        #[trigger] first_to_land(ended@, w) && is_task_number(
                            rows@[0].payload@,
                            w,
                        ) {
                        let w = choose|w: int|
                            #[trigger] first_to_land(ended@, w) && is_task_number(
                                rows@[0].payload@,
                                w,
                            );
                        assert(first_landed(ended@, w) && views[0].payload == task_payload(w));
                    }
                }
            }
        },
        _ => {},
    }
}

/// The same rows are rows that agree one by one, in every part.
pub proof fn same_rows_agree_in_every_part(a: &ConformanceRow, b: &ConformanceRow, r: bool)
    requires
        call_ensures(ConformanceRow::same, (a, b), r),
    ensures
        r <==> {
            &&& a.version == b.version
            &&& a.event_type@ == b.event_type@
            &&& a.schema_version == b.schema_version
            &&& a.payload@ == b.payload@
            &&& match (a.metadata, b.metadata) {
                (Some(x), Some(y)) => x@ == y@,
                (None, None) => true,
                _ => false,
            }
        },
{
}

/// The row of an event has the event's parts: version, type, schema version, payload and metadata.
pub proof fn row_has_the_parts_of_its_event(env: &PersistedEnvelope, row: ConformanceRow)
    requires
        call_ensures(row_of, (env,), row),
    ensures
        row.version == env@.version,
        row.event_type@ == env@.event_type,
        row.schema_version == env@.schema_version,
        row.payload@ == env@.payload,
        row.metadata is Some <==> env@.metadata is Some,
        row.metadata matches Some(m) ==> m@ == env@.metadata->0,
{
}

/// The envelope of a row has the row's parts.
pub proof fn envelope_has_the_parts_of_its_row(row: &ConformanceRow, env: PendingEnvelope)
    requires
        call_ensures(envelope_for, (row,), env),
    ensures
        env@.version == row.version,
        env@.event_type == row.event_type@,
        env@.schema_version == row.schema_version,
        env@.payload == row.payload@,
        env@.metadata is Some <==> row.metadata is Some,
        row.metadata matches Some(m) ==> env@.metadata->0 == m@,
{
}

/// Row `k` is the first one at a position.
pub open spec fn first_row_at<P: AllPosition>(rows: Seq<AllRow<P>>, position: P, k: int) -> bool {
    &&& 0 <= k < rows.len()
    &&& rows[k].position.ordinal() == position.ordinal()
    &&& forall|j: int|
        0 <= j < k ==> (#[trigger] rows[j]).position.ordinal() != position.ordinal()
}

proof fn row_at_its_place<P: AllPosition>(rows: Seq<AllRow<P>>, position: P, payload: Seq<u8>)
    ensures
        carries_at(all_views(rows), position.ordinal(), payload) <==> exists|k: int|
            #[trigger] first_row_at(rows, position, k) && rows[k].payload@ == payload,
{
    let views = all_views(rows);
    let place = position.ordinal();
    assert(views.len() == rows.len());
    assert forall|k: int| #[trigger] first_row_at(rows, position, k) == first_at(
        views,
        place,
        k,
    ) by {
        assert forall|j: int| 0 <= j < rows.len() implies (#[trigger] rows[j])@ == views[j] by {}
        if first_at(views, place, k) {
            assert forall|j: int| 0 <= j < k implies (#[trigger] rows[j]).position.ordinal()
                != place by {
                assert(views[j].position.ordinal() != place);
            }
        }
        if first_row_at(rows, position, k) {
            assert forall|j: int| 0 <= j < k implies (#[trigger] views[j]).position.ordinal()
                != place by {
                assert(rows[j].position.ordinal() != place);
            }
        }
    }
    if carries_at(views, place, payload) {
        let k = choose|k: int| #[trigger]
            first_at(views, place, k) && views[k].payload == payload;
        assert(first_row_at(rows, position, k));
    }
    if exists|k: int| #[trigger] first_row_at(rows, position, k) && rows[k].payload@ == payload {
        let k = choose|k: int| #[trigger]
            first_row_at(rows, position, k) && rows[k].payload@ == payload;
        assert(first_at(views, place, k));
    }
}

/// Rows of all streams are taken if they are what is wanted: so many, as many as an earlier answer,
/// with these payloads, of these streams, with the payload of an append at the append's position.
pub proof fn all_rows_are_judged_row_by_row<P: AllPosition>(
    want: &AllWant,
    rows: &[AllRow<P>],
    seen: &[Reply<P>],
    n: usize,
    r: bool,
)
    requires
        n <= seen@.len(),
        call_ensures(AllWant::accepts::<P>, (want, rows, seen, n), r),
    ensures
        *want is Any ==> r,
        *want is NotEmpty ==> (r <==> rows@.len() > 0),
        *want matches AllWant::Count(count) ==> (r <==> rows@.len() == count),
        *want matches AllWant::CountOf { answer } ==> (r <==> (answer < n && (
        seen@[answer as int] matches Reply::AllRows(earlier) && rows@.len() == earlier@.len()))),
        *want matches AllWant::Payloads(all) ==> (r <==> rows@.len() == all@.len() && forall|i: int|
            0 <= i < rows@.len() ==> (#[trigger] rows@[i]).payload@ == all@[i]@),
        *want matches AllWant::Attributed { keys, payloads } ==> (r <==> rows@.len() == keys@.len()
            && rows@.len() == payloads@.len() && forall|i: int|
            0 <= i < rows@.len() ==> (#[trigger] rows@[i]).payload@ == payloads@[i]@
                && rows@[i].key@ == keys@[i]@),
        *want matches AllWant::At(all) ==> (r <==> forall|i: int|
            0 <= i < all@.len() ==> ((#[trigger] all@[i]).answer < n && (
            seen@[all@[i].answer as int] matches Reply::Landed(p) && exists|k: int|
                #[trigger] first_row_at(rows@, p, k) && rows@[k].payload@ == all@[i].payload@))),
        *want matches AllWant::LastAt { answer, payload } ==> (r <==> (answer < n && (
        seen@[answer as int] matches Reply::Landed(p) && rows@.len() > 0
            && rows@.last().position.ordinal() == p.ordinal() && rows@.last().payload@ == payload@
            && rows@[0].position.ordinal() != p.ordinal()))),
{
    let views = all_views(rows@);
    assert(views.len() == rows@.len());
    assert forall|i: int| 0 <= i < rows@.len() implies (#[trigger] rows@[i])@ == views[i] by {}
    match want {
        AllWant::CountOf { answer } => {
            if *answer < n {
                assert(reply_views(seen@)[*answer as int] == seen@[*answer as int]@);
            }
        },
        AllWant::Payloads(all) => {
            let wanted = octet_views(all@);
            if rows@.len() == all@.len() && forall|i: int|
                0 <= i < rows@.len() ==> (#[trigger] rows@[i]).payload@ == all@[i]@ {
                assert forall|i: int| 0 <= i < views.len() implies (#[trigger] views[i]).payload
                    == wanted[i] by {
                    assert(rows@[i].payload@ == all@[i]@);
                }
            }
            if r {
                assert forall|i: int| 0 <= i < rows@.len() implies (#[trigger] rows@[i]).payload@
                    == all@[i]@ by {
                    assert(views[i].payload == wanted[i]);
                }
            }
        },
        AllWant::Attributed { keys, payloads } => {
            let wanted = octet_views(payloads@);
            let named = octet_views(keys@);
            if rows@.len() == keys@.len() && rows@.len() == payloads@.len() && forall|i: int|
                0 <= i < rows@.len() ==> (#[trigger] rows@[i]).payload@ == payloads@[i]@
                    && rows@[i].key@ == keys@[i]@ {
                assert forall|i: int| 0 <= i < views.len() implies (#[trigger] views[i]).payload
                    == wanted[i] && views[i].key == named[i] by {
                    assert(rows@[i].payload@ == payloads@[i]@);
                }
            }
            if r {
                assert forall|i: int| 0 <= i < rows@.len() implies (#[trigger] rows@[i]).payload@
                    == payloads@[i]@ && rows@[i].key@ == keys@[i]@ by {
                    assert(views[i].payload == wanted[i] && views[i].key == named[i]);
                }
            }
        },
        AllWant::At(all) => {
            let wanted = appended_views(all@);
            let answers = reply_views(seen@);
            assert(wanted.len() == all@.len());
            assert forall|i: int| 0 <= i < all@.len() implies (placed(
                views,
                answers,
                n as int,
                #[trigger] wanted[i],
            ) <==> (all@[i].answer < n && (seen@[all@[i].answer as int] matches Reply::Landed(p)
                && exists|k: int|
                #[trigger] first_row_at(rows@, p, k) && rows@[k].payload@ == all@[i].payload@)))
                    by {
                assert(wanted[i] == all@[i]@);
                let answer = all@[i].answer as int;
                if answer < n {
                    assert(answers[answer] == seen@[answer]@);
                    if let Reply::Landed(p) = seen@[answer] {
                        row_at_its_place(rows@, p, all@[i].payload@);
                    }
                }
            }
            if r {
                assert forall|i: int| 0 <= i < all@.len() implies ((#[trigger] all@[i]).answer < n
                    && (seen@[all@[i].answer as int] matches Reply::Landed(p) && exists|k: int|
                    #[trigger] first_row_at(rows@, p, k) && rows@[k].payload@
                        == all@[i].payload@)) by {
                    assert(placed(views, answers, n as int, wanted[i]));
                }
            }
            if forall|i: int|
                0 <= i < all@.len() ==> ((#[trigger] all@[i]).answer < n && (
                seen@[all@[i].answer as int] matches Reply::Landed(p) && exists|k: int|
                    #[trigger] first_row_at(rows@, p, k) && rows@[k].payload@
                        == all@[i].payload@)) {
                assert forall|i: int| 0 <= i < wanted.len() implies placed(
                    views,
                    answers,
                    n as int,
                    #[trigger] wanted[i],
                ) by {
                    assert(all@[i].answer < n);
                }
            }
        },
        AllWant::LastAt { answer, .. } => {
            if *answer < n {
                assert(reply_views(seen@)[*answer as int] == seen@[*answer as int]@);
            }
            if rows@.len() > 0 {
                assert(views.last() == rows@.last()@);
            }
        },
        _ => {},
    }
}

/// Step `b` is a boundary, and the others are the events with the versions from 1 on, in order.
pub open spec fn boundary_among<P>(steps: Seq<StepSeen<P>>, b: int) -> bool {
    &&& 0 <= b < steps.len()
    &&& steps[b] is CaughtUp
    &&& forall|i: int|
        0 <= i < steps.len() && i != b ==> (#[trigger] steps[i] matches StepSeen::Event {
            version: v,
            ..
        } && v == (if i < b {
            i + 1
        } else {
            i
        }))
}

/// Steps of a subscription are taken if they are what is wanted: one event, one boundary, or a
/// backlog whose versions are in a row with the boundary behind it and nowhere else.
pub proof fn steps_are_judged_one_by_one<P: AllPosition>(
    want: &StepsWant,
    steps: &[StepSeen<P>],
    seen: &[Reply<P>],
    n: usize,
    r: bool,
)
    requires
        n <= seen@.len(),
        call_ensures(StepsWant::accepts::<P>, (want, steps, seen, n), r),
    ensures
        *want matches StepsWant::Event { version } ==> (r <==> steps@.len() == 1 && (
        steps@[0] matches StepSeen::Event { version: v, .. } && v == version)),
        *want matches StepsWant::EventWith { version, payload } ==> (r <==> steps@.len() == 1 && (
        steps@[0] matches StepSeen::Event { version: v, payload: p } && v == version && p@
            == payload@)),
        *want is CaughtUp ==> (r <==> steps@.len() == 1 && steps@[0] is CaughtUp),
        *want is EndsCaughtUp ==> (r <==> steps@.len() > 0 && steps@.last() is CaughtUp),
        *want matches StepsWant::Backlog { first, count } ==> (r <==> steps@.len() == count + 1
            && steps@.last() is CaughtUp && forall|i: int|
            0 <= i < count ==> (#[trigger] steps@[i] matches StepSeen::Event { version: v, .. } && v
                == first + i)),
        *want matches StepsWant::AllBacklog { keys, payloads } ==> (r <==> steps@.len()
            == payloads@.len() + 1 && keys@.len() == payloads@.len() && steps@.last() is CaughtUp
            && (forall|i: int|
            0 <= i < payloads@.len() ==> (#[trigger] steps@[i] matches StepSeen::AllEvent(row)
                && row.payload@ == payloads@[i]@ && row.key@ == keys@[i]@)) && (forall|
            i: int,
            j: int,
        |
            0 <= i < j < payloads@.len() ==> (
            #[trigger] steps@[i])->AllEvent_0.position.ordinal() < (
            #[trigger] steps@[j])->AllEvent_0.position.ordinal())),
        *want matches StepsWant::AllLive { key, payload, answer } ==> (r <==> answer < n && (
        seen@[answer as int] matches Reply::Steps(earlier) && earlier@.len() >= 2 && (earlier@[
            earlier@.len() - 2
        ] matches StepSeen::AllEvent(last) && steps@.len() == 1 && (
        steps@[0] matches StepSeen::AllEvent(row) && row.key@ == key@ && row.payload@ == payload@
            && last.position.ordinal() < row.position.ordinal())))),
        *want matches StepsWant::OneBoundary { count } ==> (r <==> steps@.len() == count + 1
            && exists|b: int| #[trigger] boundary_among(steps@, b)),
{
    let views = step_views(steps@);
    assert(views.len() == steps@.len());
    assert forall|i: int| 0 <= i < steps@.len() implies (#[trigger] steps@[i])@ == views[i] by {}
    match want {
        StepsWant::Backlog { first, count } => {
            if steps@.len() == count + 1 {
                let shorter = views.drop_last();
                if r {
                    assert forall|i: int| 0 <= i < *count implies (
                    #[trigger] steps@[i] matches StepSeen::Event { version: v, .. } && v == first
                        + i) by {
                        assert(event_at(
                            shorter[i],
                            *first as nat + i,
                        ));
                    }
                }
                if steps@.last() is CaughtUp && forall|i: int|
                    0 <= i < *count ==> (#[trigger] steps@[i] matches StepSeen::Event {
                        version: v,
                        ..
                    } && v == first + i) {
                    assert(views.last() is CaughtUp);
                    assert forall|i: int|
                        0 <= i < shorter.len() implies event_at(
                        #[trigger] shorter[i],
                        *first as nat + i,
                    ) by {
                        assert(steps@[i]@ == shorter[i]);
                    }
                }
            }
        },
        StepsWant::EndsCaughtUp => {
            if steps@.len() > 0 {
                assert(views.last() == steps@.last()@);
            }
        },
        StepsWant::AllBacklog { keys, payloads } => {
            let shorter = views.drop_last();
            let rows = step_rows(shorter);
            let wanted = octet_views(payloads@);
            let named = octet_views(keys@);
            assert(rows.len() == shorter.len());
            assert(wanted.len() == payloads@.len());
            assert(named.len() == keys@.len());
            if steps@.len() > 0 {
                assert(views.last() == steps@.last()@);
            }
            if r {
                assert forall|i: int| 0 <= i < payloads@.len() implies (
                #[trigger] steps@[i] matches StepSeen::AllEvent(row) && row.payload@
                    == payloads@[i]@ && row.key@ == keys@[i]@) by {
                    assert(views[i] is AllEvent);
                    assert(rows[i].payload == wanted[i]);
                    assert(rows[i].key == named[i]);
                }
                assert forall|i: int, j: int| 0 <= i < j < payloads@.len() implies (
                #[trigger] steps@[i])->AllEvent_0.position.ordinal() < (
                #[trigger] steps@[j])->AllEvent_0.position.ordinal() by {
                    assert(views[i] is AllEvent && views[j] is AllEvent);
                    assert(rows[i].position.ordinal() < rows[j].position.ordinal());
                }
            }
            if steps@.len() == payloads@.len() + 1 && keys@.len() == payloads@.len()
                && steps@.last() is CaughtUp && (forall|i: int|
                0 <= i < payloads@.len() ==> (#[trigger] steps@[i] matches StepSeen::AllEvent(row)
                    && row.payload@ == payloads@[i]@ && row.key@ == keys@[i]@)) && (forall|
                i: int,
                j: int,
            |
                0 <= i < j < payloads@.len() ==> (
                #[trigger] steps@[i])->AllEvent_0.position.ordinal() < (
                #[trigger] steps@[j])->AllEvent_0.position.ordinal()) {
                assert forall|i: int| 0 <= i < steps@.len() - 1
                    implies #[trigger] views[i] is AllEvent
                    && rows[i] == steps@[i]->AllEvent_0@ && rows[i].payload == wanted[i]
                    && rows[i].key == named[i] by {
                    assert(steps@[i] is AllEvent);
                }
                assert forall|i: int| 0 <= i < rows.len() implies (#[trigger] rows[i]).payload
                    == wanted[i] && rows[i].key == named[i] by {
                    assert(views[i] is AllEvent);
                }
                assert forall|i: int, j: int| 0 <= i < j < rows.len() implies (
                #[trigger] rows[i]).position.ordinal() < (
                #[trigger] rows[j]).position.ordinal() by {
                    assert(views[i] is AllEvent && views[j] is AllEvent);
                    assert(steps@[i]->AllEvent_0.position.ordinal()
                        < steps@[j]->AllEvent_0.position.ordinal());
                }
            }
        },
        StepsWant::AllLive { answer, .. } => {
            if *answer < n {
                assert(reply_views(seen@)[*answer as int] == seen@[*answer as int]@);
                if let Reply::Steps(earlier) = seen@[*answer as int] {
                    let shown = step_views(earlier@);
                    assert(shown.len() == earlier@.len());
                    if earlier@.len() >= 2 {
                        assert(shown[earlier@.len() - 2] == earlier@[earlier@.len() - 2]@);
                    }
                }
            }
        },
        StepsWant::OneBoundary { count } => {
            if r {
                let b = choose|b: int| #[trigger] one_boundary(views, b);
                let rest = views.remove(b);
                assert forall|i: int| 0 <= i < steps@.len() && i != b implies (
                #[trigger] steps@[i] matches StepSeen::Event { version: v, .. } && v == (if i < b {
                    i + 1
                } else {
                    i
                })) by {
                    if i < b {
                        assert(rest[i] == views[i]);
                        assert(event_at(rest[i], 1 + i));
                    } else {
                        assert(rest[i - 1] == views[i]);
                        assert(event_at(rest[i - 1], 1 + (i - 1)));
                    }
                }
                assert(boundary_among(steps@, b));
            }
            if exists|b: int| #[trigger] boundary_among(steps@, b) {
                let b = choose|b: int| #[trigger] boundary_among(steps@, b);
                let rest = views.remove(b);
                assert forall|i: int| 0 <= i < rest.len() implies event_at(
                    #[trigger] rest[i],
                    1 + i,
                ) by {
                    if i < b {
                        assert(steps@[i]@ == rest[i]);
                    } else {
                        assert(steps@[i + 1]@ == rest[i]);
                    }
                }
                assert(one_boundary(views, b));
            }
        },
        _ => {},
    }
}

/// Positions are told to increase exactly if each lies before every later one.
pub proof fn increasing_positions_are_told<P: AllPosition>(positions: &[(P, Vec<u8>)], r: bool)
    requires
        call_ensures(assert_strictly_increasing::<P>, (positions,), r),
    ensures
        r <==> forall|i: int, j: int|
            0 <= i < j < positions@.len() ==> (#[trigger] positions@[i]).0.ordinal() < (
            #[trigger] positions@[j]).0.ordinal(),
{
    if r {
        assert forall|i: int, j: int| 0 <= i < j < positions@.len() implies (
        #[trigger] positions@[i]).0.ordinal() < (#[trigger] positions@[j]).0.ordinal() by {
            assert(positions@[i].0.ordinal() < positions@[j].0.ordinal());
        }
    }
    if forall|i: int, j: int|
        0 <= i < j < positions@.len() ==> (#[trigger] positions@[i]).0.ordinal() < (
        #[trigger] positions@[j]).0.ordinal() {
        assert forall|i: int, j: int| 0 <= i < j < positions@.len()
            implies positions@[i].0.ordinal()
            < positions@[j].0.ordinal() by {
            let a = positions@[i];
            let b = positions@[j];
            assert(a.0.ordinal() < b.0.ordinal());
        }
        assert(r);
    }
}

/// A read in cycles collects the rows of its cycles, in order, reads on behind the last row, and is
/// over with the first cycle without rows.
pub proof fn cycles_are_collected<P: AllPosition>(
    fresh: Pages<P>,
    pages: &mut Pages<P>,
    cycle: Vec<AllRow<P>>,
    done: (bool, bool, bool),
    behind: (Option<P>, Option<P>, Option<P>),
    rows: (Vec<AllRow<P>>, Vec<AllRow<P>>),
)
    requires
        call_ensures(Pages::<P>::new, (), fresh),
        call_ensures(Pages::<P>::is_done, (&fresh,), done.0),
        call_ensures(Pages::<P>::behind, (&fresh,), behind.0),
        call_ensures(Pages::<P>::behind, (&*old(pages),), behind.1),
        call_ensures(Pages::<P>::is_done, (&*old(pages),), done.1),
        !done.1,
        call_ensures(Pages::<P>::into_rows, (*old(pages),), rows.0),
        call_ensures(Pages::<P>::on_cycle, (pages, cycle), ()),
        call_ensures(Pages::<P>::is_done, (&*final(pages),), done.2),
        call_ensures(Pages::<P>::behind, (&*final(pages),), behind.2),
        call_ensures(Pages::<P>::into_rows, (*final(pages),), rows.1),
    ensures
        !done.0,
        behind.0 is None,
        done.2 <==> cycle@.len() == 0,
        cycle@.len() > 0 ==> behind.2 == Some(cycle@.last().position),
        cycle@.len() > 0 ==> all_views(rows.1@) == all_views(rows.0@) + all_views(cycle@),
        cycle@.len() == 0 ==> all_views(rows.1@) == all_views(rows.0@),
{
    if cycle@.len() == 0 {
        assert(all_views(cycle@) =~= Seq::empty());
        assert(all_views(rows.0@) + all_views(cycle@) =~= all_views(rows.0@));
    } else {
        assert(all_views(cycle@).last() == cycle@.last()@);
    }
}

/// Steps are enough after one, after the first boundary, or after so many events and a boundary.
pub proof fn steps_are_taken_until_there_are_enough<P>(
    until: Until,
    steps: &[StepSeen<P>],
    r: bool,
)
    requires
        call_ensures(Until::reached::<P>, (until, steps), r),
    ensures
        until is One ==> (r <==> steps@.len() >= 1),
        until is CaughtUp ==> (r <==> exists|i: int|
            0 <= i < steps@.len() && #[trigger] steps@[i] is CaughtUp),
        until matches Until::EventsAndCaughtUp(n) ==> (r <==> steps@.filter(
            |s: StepSeen<P>| !(s is CaughtUp),
        ).len() >= n && exists|i: int| 0 <= i < steps@.len() && #[trigger] steps@[i] is CaughtUp),
{
    let views = step_views(steps@);
    assert(views.len() == steps@.len());
    assert forall|i: int| 0 <= i < steps@.len() implies (#[trigger] steps@[i])@ == views[i] by {}
    if views.contains(StepView::CaughtUp) {
        let i = choose|i: int| 0 <= i < views.len() && views[i] == StepView::<P>::CaughtUp;
        assert(steps@[i] is CaughtUp);
    }
    if exists|i: int| 0 <= i < steps@.len() && #[trigger] steps@[i] is CaughtUp {
        let i = choose|i: int| 0 <= i < steps@.len() && #[trigger] steps@[i] is CaughtUp;
        assert(views[i] == StepView::<P>::CaughtUp);
    }
    same_count(steps@);
}

proof fn same_count<P>(steps: Seq<StepSeen<P>>)
    ensures
        step_views(steps).filter(|s: StepView<P>| !(s is CaughtUp)).len() == steps.filter(
            |s: StepSeen<P>| !(s is CaughtUp),
        ).len(),
    decreases steps.len(),
{
    reveal(Seq::filter);
    let views = step_views(steps);
    if steps.len() > 0 {
        same_count(steps.drop_last());
        assert(views.drop_last() =~= step_views(steps.drop_last()));
        assert(views.last() == steps.last()@);
    }
}

} // verus!
