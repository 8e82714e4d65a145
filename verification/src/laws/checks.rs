//! Laws of the checks: what a store must have answered where a check passes it.

use crate::conformance::ask::{AskView, Mark, WriteRowsView};
use crate::conformance::atomic::{
    atomic_conflict_aborts_all, atomic_empty_batch_is_noop, atomic_multi_stream_commits_all,
    check_atomic_conflict_aborts_all, check_atomic_empty_batch_is_noop,
    check_atomic_multi_stream_commits_all,
};
use crate::conformance::boundary::{
    check_conflict_leaves_store_unchanged, check_large_payload_round_trips,
    check_max_length_event_type_round_trips, check_metadata_absent_vs_present_distinct,
    check_prefix_stream_ids_isolated, check_version_gap_batch_rejected,
    check_wrong_first_version_rejected, conflict_leaves_store_unchanged, large_payload_round_trips,
    max_length_event_type_round_trips, metadata_absent_vs_present_distinct, metadata_samples,
    prefix_stream_ids_isolated, version_gap_batch_rejected, wrong_first_version_rejected,
};
use crate::conformance::lifecycle::{
    check_reopen_conflict_state_intact, check_reopen_preserves_events,
    check_reopen_preserves_position_watermark, check_reopen_subscription_catches_up,
    reopen_conflict_state_intact, reopen_preserves_events, reopen_preserves_position_watermark,
    reopen_subscription_catches_up,
};
use crate::conformance::linearizability::{
    caught_up_boundary_race, check_caught_up_boundary_race,
    check_concurrent_distinct_streams_all_land, check_concurrent_same_stream_single_winner,
    check_wake_after_idle, concurrent_distinct_streams_all_land,
    concurrent_same_stream_single_winner, own_payloads, own_reads, own_runs, wake_after_idle,
};
use crate::conformance::reply::{reply_views, AllRowView, Reply, ReplyView, StepView};
use crate::conformance::script::{passes_if_every_answer_fits, Verdict};
use crate::conformance::sequence::{
    all_boundary_then_new_append, all_empty_store_yields_none, all_from_is_exclusive,
    all_global_order_across_streams, all_items_carry_their_stream_key, all_multi_resume_cycles,
    alternating_payloads, append_conflict_is_surfaced, append_retry_after_conflict_succeeds,
    append_returns_assigned_all_position, append_then_read_round_trips,
    check_all_boundary_then_new_append, check_all_empty_store_yields_none,
    check_all_from_is_exclusive, check_all_global_order_across_streams,
    check_all_items_carry_their_stream_key, check_all_multi_resume_cycles,
    check_append_conflict_is_surfaced, check_append_retry_after_conflict_succeeds,
    check_append_returns_assigned_all_position, check_append_then_read_round_trips,
    check_empty_read_yields_none, check_large_stream_completes,
    check_multi_event_append_returns_last_position, check_read_stream_from_is_inclusive,
    check_read_stream_inclusive_read_all_exclusive_coexist,
    check_subscription_absent_stream_waits_then_delivers,
    check_subscription_all_backlog_then_caught_up_then_live,
    check_subscription_backlog_then_caught_up_then_live,
    check_subscription_beyond_head_filters_below_bound,
    check_subscription_large_backlog_crosses_chunk_seam, check_subscription_resume_strict_after,
    check_two_subscribers_same_stream_both_receive, check_versions_strictly_monotonic_and_fused,
    empty_read_yields_none, global_order, large_stream_completes,
    multi_event_append_returns_last_position, read_stream_from_is_inclusive,
    read_stream_inclusive_read_all_exclusive_coexist,
    subscription_absent_stream_waits_then_delivers,
    subscription_all_backlog_then_caught_up_then_live,
    subscription_backlog_then_caught_up_then_live, subscription_beyond_head_filters_below_bound,
    subscription_large_backlog_crosses_chunk_seam, subscription_resume_strict_after,
    two_subscribers_same_stream_both_receive, versions_strictly_monotonic_and_fused,
};
use crate::conformance::snapshot::{
    check_snapshot_absent_then_commit_then_found, check_snapshot_empty_state_round_trips,
    check_snapshot_extreme_positions_round_trip, check_snapshot_overwrite_latest_wins,
    check_snapshot_stale_on_schema_change, snapshot_absent_then_commit_then_found,
    snapshot_empty_state_round_trips, snapshot_extreme_positions_round_trip,
    snapshot_overwrite_latest_wins, snapshot_stale_on_schema_change,
};
use crate::conformance::want::{
    event_at, first_at, first_landed, one_boundary, placed, sole_winner, step_rows, task_payload,
};
use crate::laws::verdict::alone_landed;
use crate::store::AllPosition;
use crate::subscription::CATCHUP_CHUNK;
use crate::value::MAX_EVENT_TYPE_LEN;
use crate::version::group_version;
use vstd::prelude::*;

verus! {

broadcast use group_version;

/// The payload of the first event that a question appends.
pub open spec fn only_payload(ask: AskView) -> Seq<u8> {
    ask->Append_0.rows[0].payload
}

/// The version of the first event that a question appends.
pub open spec fn only_version(ask: AskView) -> nat {
    ask->Append_0.rows[0].version
}

/// The answer is one step: the event with this version.
pub open spec fn yields_event<P>(reply: ReplyView<P>, version: nat) -> bool {
    reply matches ReplyView::Steps(steps) && steps.len() == 1 && (
    steps[0] matches StepView::Event(v, _) && v == version)
}

/// The answer is one step: the boundary.
pub open spec fn yields_boundary<P>(reply: ReplyView<P>) -> bool {
    reply matches ReplyView::Steps(steps) && steps.len() == 1 && steps[0] is CaughtUp
}

/// The answer is the events with versions 1 to `n`, in order, and the boundary behind them.
pub open spec fn yields_backlog<P>(reply: ReplyView<P>, n: nat) -> bool {
    reply matches ReplyView::Steps(steps) && {
        &&& steps.len() == n + 1
        &&& steps[n as int] is CaughtUp
        &&& forall|i: int|
            0 <= i < n ==> (#[trigger] steps[i] matches StepView::Event(v, _) && v == i + 1)
    }
}

/// Step `b` is a boundary, and the others are the events with the versions from 1 on, in order.
pub open spec fn around_boundary<P>(steps: Seq<StepView<P>>, b: int) -> bool {
    &&& 0 <= b < steps.len()
    &&& steps[b] is CaughtUp
    &&& forall|i: int|
        0 <= i < steps.len() && i != b ==> (#[trigger] steps[i] matches StepView::Event(v, _) && v
            == (if i < b {
            i + 1
        } else {
            i
        }))
}

/// One of the rows is at a position and carries a payload.
pub open spec fn holds_at<P: AllPosition>(
    rows: Seq<AllRowView<P>>,
    position: P,
    payload: Seq<u8>,
) -> bool {
    exists|k: int|
        0 <= k < rows.len() && (#[trigger] rows[k]).position.ordinal() == position.ordinal()
            && rows[k].payload == payload
}

/// The answer is one row per run, with the run's payload, in order.
pub open spec fn own_rows<P>(runs: Seq<WriteRowsView>, reply: ReplyView<P>) -> bool {
    reply matches ReplyView::Rows(rows, _) && {
        &&& rows.len() == runs.len()
        &&& forall|i: int|
            0 <= i < rows.len() ==> (#[trigger] rows[i]).payload == runs[i].rows[0].payload
    }
}

/// A check of an absent stream passes only a read without rows.
pub proof fn absent_stream_passes_empty<P: AllPosition>(seen: &[Reply<P>], r: Verdict<P>)
    requires
        call_ensures(check_empty_read_yields_none::<P>, (seen,), r),
        r is Pass,
    ensures
        ({
            let s = empty_read_yields_none();
            let a = reply_views(seen@);
            &&& a.len() >= s.len()
            &&& s[0].ask matches AskView::ReadStream(_, from, _) && from@ == 1
            &&& a[0] matches ReplyView::Rows(rows, _) && rows.len() == 0
        }),
{
    let s = empty_read_yields_none();
    let a = reply_views(seen@);
    passes_if_every_answer_fits(s, a, Seq::<P>::empty());
    assert(s[0].want.fits(a, 0, Seq::<P>::empty()));
}

/// A round trip passes only if the rows that were appended come back, all of them, in order and
/// part for part.
pub proof fn round_trip_passes_what_was_appended<P: AllPosition>(seen: &[Reply<P>], r: Verdict<P>)
    requires
        call_ensures(check_append_then_read_round_trips::<P>, (seen,), r),
        r is Pass,
    ensures
        ({
            let s = append_then_read_round_trips();
            let a = reply_views(seen@);
            &&& a.len() >= s.len()
            &&& s[0].ask matches AskView::Append(run) && run.rows.len() > 0
            &&& a[0] is Landed
            &&& s[1].ask matches AskView::ReadStream(key, from, _)
                && key == s[0].ask->Append_0.key && from@ == 1
            &&& a[1] matches ReplyView::Rows(rows, _) && rows == s[0].ask->Append_0.rows
        }),
{
    let s = append_then_read_round_trips();
    let a = reply_views(seen@);
    passes_if_every_answer_fits(s, a, Seq::<P>::empty());
    assert(s[0].want.fits(a, 0, Seq::<P>::empty()));
    assert(s[1].want.fits(a, 1, Seq::<P>::empty()));
}

/// The order check passes only if as many rows come back as were appended, in version order, and
/// every further look behind the end finds the end.
pub proof fn order_passes_every_version<P: AllPosition>(seen: &[Reply<P>], r: Verdict<P>)
    requires
        call_ensures(check_versions_strictly_monotonic_and_fused::<P>, (seen,), r),
        r is Pass,
    ensures
        ({
            let s = versions_strictly_monotonic_and_fused();
            let a = reply_views(seen@);
            &&& a.len() >= s.len()
            &&& s[0].ask is Append
            &&& a[0] is Landed
            &&& s[1].ask matches AskView::ReadStream(key, from, polls)
                && key == s[0].ask->Append_0.key && from@ == 1 && polls > 0
            &&& a[1] matches ReplyView::Rows(rows, ended) && {
                &&& rows.len() == s[0].ask->Append_0.rows.len()
                &&& forall|i: int| 0 <= i < rows.len() ==> (#[trigger] rows[i]).version == i + 1
                &&& forall|i: int| 0 <= i < rows.len()
                    ==> rows[i].version == (#[trigger] s[0].ask->Append_0.rows[i]).version
                &&& ended.len() == s[1].ask->ReadStream_2
                &&& forall|i: int| 0 <= i < ended.len() ==> #[trigger] ended[i]
            }
        }),
{
    let s = versions_strictly_monotonic_and_fused();
    let a = reply_views(seen@);
    passes_if_every_answer_fits(s, a, Seq::<P>::empty());
    assert(s[0].want.fits(a, 0, Seq::<P>::empty()));
    assert(s[1].want.fits(a, 1, Seq::<P>::empty()));
}

/// A stream that is longer than one chunk passes only if every version of it comes back.
pub proof fn long_stream_passes_every_version<P: AllPosition>(seen: &[Reply<P>], r: Verdict<P>)
    requires
        call_ensures(check_large_stream_completes::<P>, (seen,), r),
        r is Pass,
    ensures
        ({
            let s = large_stream_completes();
            let a = reply_views(seen@);
            &&& a.len() >= s.len()
            &&& s[0].ask matches AskView::Append(run) && run.rows.len() > CATCHUP_CHUNK
            &&& a[0] is Landed
            &&& s[1].ask matches AskView::ReadStream(key, from, _)
                && key == s[0].ask->Append_0.key && from@ == 1
            &&& a[1] matches ReplyView::Rows(rows, _)
                && rows.len() == s[0].ask->Append_0.rows.len()
                && forall|i: int| 0 <= i < rows.len() ==> (#[trigger] rows[i]).version == i + 1
        }),
{
    let s = large_stream_completes();
    let a = reply_views(seen@);
    passes_if_every_answer_fits(s, a, Seq::<P>::empty());
    assert(s[0].want.fits(a, 0, Seq::<P>::empty()));
    assert(s[1].want.fits(a, 1, Seq::<P>::empty()));
}

/// A read from the middle passes only if it takes its bound along and goes on to the last version.
pub proof fn inclusive_read_passes_its_bound<P: AllPosition>(seen: &[Reply<P>], r: Verdict<P>)
    requires
        call_ensures(check_read_stream_from_is_inclusive::<P>, (seen,), r),
        r is Pass,
    ensures
        ({
            let s = read_stream_from_is_inclusive();
            let a = reply_views(seen@);
            &&& a.len() >= s.len()
            &&& s[0].ask is Append
            &&& a[0] is Landed
            &&& s[1].ask matches AskView::ReadStream(key, from, _)
                && key == s[0].ask->Append_0.key && 1 < from@ < s[0].ask->Append_0.rows.len()
            &&& a[1] matches ReplyView::Rows(rows, _) && {
                &&& s[1].ask->ReadStream_1@ + rows.len() == s[0].ask->Append_0.rows.len() + 1
                &&& forall|i: int| 0 <= i < rows.len()
                    ==> (#[trigger] rows[i]).version == s[1].ask->ReadStream_1@ + i
            }
        }),
{
    let s = read_stream_from_is_inclusive();
    let a = reply_views(seen@);
    passes_if_every_answer_fits(s, a, Seq::<P>::empty());
    assert(s[0].want.fits(a, 0, Seq::<P>::empty()));
    assert(s[1].want.fits(a, 1, Seq::<P>::empty()));
}

/// A stale append passes only as a conflict that names the head that the stream has, and the stream
/// keeps the payloads that were appended before.
pub proof fn stale_append_passes_as_conflict<P: AllPosition>(seen: &[Reply<P>], r: Verdict<P>)
    requires
        call_ensures(check_append_conflict_is_surfaced::<P>, (seen,), r),
        r is Pass,
    ensures
        ({
            let s = append_conflict_is_surfaced();
            let a = reply_views(seen@);
            &&& a.len() >= s.len()
            &&& s[0].ask matches AskView::Append(run) && run.rows.len() == 2 && run.expected is None
            &&& a[0] is Landed
            &&& s[1].ask matches AskView::Append(stale) && stale.key == s[0].ask->Append_0.key
                && stale.expected is None
                && stale.rows[0].payload != s[0].ask->Append_0.rows[0].payload
            &&& a[1] matches ReplyView::Conflict(Some(head))
                && head@ == s[0].ask->Append_0.rows.len()
            &&& s[2].ask matches AskView::ReadStream(key, from, _)
                && key == s[0].ask->Append_0.key && from@ == 1
            &&& a[2] matches ReplyView::Rows(rows, _)
                && rows.len() == s[0].ask->Append_0.rows.len()
                && forall|i: int| 0 <= i < rows.len()
                ==> (#[trigger] rows[i]).payload == s[0].ask->Append_0.rows[i].payload
        }),
{
    let s = append_conflict_is_surfaced();
    let a = reply_views(seen@);
    passes_if_every_answer_fits(s, a, Seq::<P>::empty());
    assert(s[0].want.fits(a, 0, Seq::<P>::empty()));
    assert(s[1].want.fits(a, 1, Seq::<P>::empty()));
    assert(s[2].want.fits(a, 2, Seq::<P>::empty()));
    let rows = a[2]->Rows_0;
    let run = s[0].ask->Append_0;
    assert(s[1].ask->Append_0.rows[0].payload[0] == 9);
    assert(run.rows[0].payload[0] == 1);
    assert forall|i: int| 0 <= i < rows.len()
        implies (#[trigger] rows[i]).payload == run.rows[i].payload by {
        assert(i == 0 || i == 1);
    }
}

/// A retry passes only if the stale append was refused, the retry landed, and both batches are
/// there.
pub proof fn retry_passes_behind_a_refusal<P: AllPosition>(seen: &[Reply<P>], r: Verdict<P>)
    requires
        call_ensures(check_append_retry_after_conflict_succeeds::<P>, (seen,), r),
        r is Pass,
    ensures
        ({
            let s = append_retry_after_conflict_succeeds();
            let a = reply_views(seen@);
            &&& a.len() >= s.len()
            &&& s[0].ask is Append && s[1].ask is Append && s[2].ask is Append
            &&& a[0] is Landed
            &&& a[1] is Conflict || a[1] is Failed
            &&& a[2] is Landed
            &&& s[2].ask->Append_0.expected matches Some(v) && v@ == s[0].ask->Append_0.rows.len()
            &&& a[3] matches ReplyView::Rows(rows, _)
                && rows.len() == s[0].ask->Append_0.rows.len() + s[2].ask->Append_0.rows.len()
                && forall|i: int| 0 <= i < rows.len() ==> (#[trigger] rows[i]).version == i + 1
        }),
{
    let s = append_retry_after_conflict_succeeds();
    let a = reply_views(seen@);
    passes_if_every_answer_fits(s, a, Seq::<P>::empty());
    assert(s[0].want.fits(a, 0, Seq::<P>::empty()));
    assert(s[1].want.fits(a, 1, Seq::<P>::empty()));
    assert(s[2].want.fits(a, 2, Seq::<P>::empty()));
    assert(s[3].want.fits(a, 3, Seq::<P>::empty()));
}

/// An empty store passes only a read of all streams without rows.
pub proof fn empty_store_passes_nothing<P: AllPosition>(seen: &[Reply<P>], r: Verdict<P>)
    requires
        call_ensures(check_all_empty_store_yields_none::<P>, (seen,), r),
        r is Pass,
    ensures
        ({
            let s = all_empty_store_yields_none();
            let a = reply_views(seen@);
            &&& a.len() >= s.len()
            &&& s[0].ask is ReadAll
            &&& a[0] matches ReplyView::AllRows(rows) && rows.len() == 0
        }),
{
    let s = all_empty_store_yields_none();
    let a = reply_views(seen@);
    passes_if_every_answer_fits(s, a, Seq::<P>::empty());
    assert(s[0].want.fits(a, 0, Seq::<P>::empty()));
}

/// The read of all streams passes only if it has the payload of every append, in the order of the
/// appends and at increasing positions.
pub proof fn global_order_passes_in_append_order<P: AllPosition>(seen: &[Reply<P>], r: Verdict<P>)
    requires
        call_ensures(check_all_global_order_across_streams::<P>, (seen,), r),
        r is Pass,
    ensures
        ({
            let s = all_global_order_across_streams();
            let a = reply_views(seen@);
            &&& a.len() >= s.len()
            &&& forall|i: int| 0 <= i < 5 ==> #[trigger] a[i] is Landed
            &&& a[5] matches ReplyView::AllRows(rows) && {
                &&& rows.len() == 5
                &&& forall|i: int| 0 <= i < 5
                    ==> (#[trigger] rows[i]).payload == only_payload(s[i].ask)
                &&& forall|i: int, j: int| 0 <= i < j < 5
                    ==> (#[trigger] rows[i]).position.ordinal() < (
                    #[trigger] rows[j]).position.ordinal()
            }
        }),
{
    let s = all_global_order_across_streams();
    let a = reply_views(seen@);
    passes_if_every_answer_fits(s, a, Seq::<P>::empty());
    assert(s[0].want.fits(a, 0, Seq::<P>::empty()));
    assert(s[1].want.fits(a, 1, Seq::<P>::empty()));
    assert(s[2].want.fits(a, 2, Seq::<P>::empty()));
    assert(s[3].want.fits(a, 3, Seq::<P>::empty()));
    assert(s[4].want.fits(a, 4, Seq::<P>::empty()));
    assert(s[5].want.fits(a, 5, Seq::<P>::empty()));
    let rows = a[5]->AllRows_0;
    let payloads = global_order();
    assert forall|i: int| 0 <= i < 5
        implies (#[trigger] rows[i]).payload == only_payload(s[i].ask) by {
        assert(rows[i].payload == payloads[i]);
        assert(i == 0 || i == 1 || i == 2 || i == 3 || i == 4);
    }
}

/// The position that an append answers passes only if it lies behind the one before and the row
/// there carries the append's payload.
pub proof fn answered_positions_pass_at_their_rows<P: AllPosition>(seen: &[Reply<P>], r: Verdict<P>)
    requires
        call_ensures(check_append_returns_assigned_all_position::<P>, (seen,), r),
        r is Pass,
    ensures
        ({
            let s = append_returns_assigned_all_position();
            let a = reply_views(seen@);
            &&& a.len() >= s.len()
            &&& a[0] is Landed && a[1] is Landed && a[2] is Landed
            &&& a[0]->Landed_0.ordinal() < a[1]->Landed_0.ordinal() < a[2]->Landed_0.ordinal()
            &&& a[3] matches ReplyView::AllRows(rows) && forall|i: int| 0 <= i < 3
                ==> holds_at(rows, #[trigger] a[i]->Landed_0, only_payload(s[i].ask))
        }),
{
    let s = append_returns_assigned_all_position();
    let a = reply_views(seen@);
    passes_if_every_answer_fits(s, a, Seq::<P>::empty());
    assert(s[0].want.fits(a, 0, Seq::<P>::empty()));
    assert(s[1].want.fits(a, 1, Seq::<P>::empty()));
    assert(s[2].want.fits(a, 2, Seq::<P>::empty()));
    assert(s[3].want.fits(a, 3, Seq::<P>::empty()));
    let rows = a[3]->AllRows_0;
    let all = s[3].want->All_0->At_0;
    assert forall|i: int| 0 <= i < 3
        implies holds_at(rows, #[trigger] a[i]->Landed_0, only_payload(s[i].ask)) by {
        assert(i == 0 || i == 1 || i == 2);
        assert(placed(rows, a, 3, all[i]));
        assert(all[i].0 == i && all[i].1 == only_payload(s[i].ask));
        let k = choose|k: int| #[trigger] first_at(rows, a[i]->Landed_0.ordinal(), k)
            && rows[k].payload == all[i].1;
        assert(rows[k].position.ordinal() == a[i]->Landed_0.ordinal());
    }
}

/// An append of several events passes only if it answers the position of the last one, and that is
/// the last row.
pub proof fn batch_passes_at_its_last_row<P: AllPosition>(seen: &[Reply<P>], r: Verdict<P>)
    requires
        call_ensures(check_multi_event_append_returns_last_position::<P>, (seen,), r),
        r is Pass,
    ensures
        ({
            let s = multi_event_append_returns_last_position();
            let a = reply_views(seen@);
            &&& a.len() >= s.len()
            &&& s[0].ask matches AskView::Append(run) && run.rows.len() > 1
            &&& a[0] is Landed
            &&& a[1] matches ReplyView::AllRows(rows) && {
                &&& rows.len() > 1
                &&& rows.last().position.ordinal() == a[0]->Landed_0.ordinal()
                &&& rows.last().payload == s[0].ask->Append_0.rows.last().payload
            }
        }),
{
    let s = multi_event_append_returns_last_position();
    let a = reply_views(seen@);
    passes_if_every_answer_fits(s, a, Seq::<P>::empty());
    assert(s[0].want.fits(a, 0, Seq::<P>::empty()));
    assert(s[1].want.fits(a, 1, Seq::<P>::empty()));
    let rows = a[1]->AllRows_0;
    if rows.len() == 1 {
        assert(rows.last() == rows[0]);
    }
}

/// Rows of all streams pass only if each tells the stream that it was appended to.
pub proof fn rows_pass_with_their_streams<P: AllPosition>(seen: &[Reply<P>], r: Verdict<P>)
    requires
        call_ensures(check_all_items_carry_their_stream_key::<P>, (seen,), r),
        r is Pass,
    ensures
        ({
            let s = all_items_carry_their_stream_key();
            let a = reply_views(seen@);
            &&& a.len() >= s.len()
            &&& a[0] is Landed && a[1] is Landed && a[2] is Landed
            &&& a[3] matches ReplyView::AllRows(rows) && {
                &&& rows.len() == 3
                &&& forall|i: int| 0 <= i < 3
                    ==> (#[trigger] rows[i]).payload == only_payload(s[i].ask)
                    && rows[i].key == s[i].ask->Append_0.key
            }
        }),
{
    let s = all_items_carry_their_stream_key();
    let a = reply_views(seen@);
    passes_if_every_answer_fits(s, a, Seq::<P>::empty());
    assert(s[0].want.fits(a, 0, Seq::<P>::empty()));
    assert(s[1].want.fits(a, 1, Seq::<P>::empty()));
    assert(s[2].want.fits(a, 2, Seq::<P>::empty()));
    assert(s[3].want.fits(a, 3, Seq::<P>::empty()));
    let rows = a[3]->AllRows_0;
    assert forall|i: int| 0 <= i < 3
        implies (#[trigger] rows[i]).payload == only_payload(s[i].ask)
        && rows[i].key == s[i].ask->Append_0.key by {
        assert(i == 0 || i == 1 || i == 2);
    }
}

/// A resumed read of all streams passes only if it leaves its bound out and has everything behind
/// it.
pub proof fn resumed_read_passes_behind_its_bound<P: AllPosition>(seen: &[Reply<P>], r: Verdict<P>)
    requires
        call_ensures(check_all_from_is_exclusive::<P>, (seen,), r),
        r is Pass,
    ensures
        ({
            let s = all_from_is_exclusive();
            let a = reply_views(seen@);
            &&& a.len() >= s.len()
            &&& a[0] is Landed && a[1] is Landed && a[2] is Landed
            &&& a[3] matches ReplyView::AllRows(all) && all.len() == 3
            &&& a[4] matches ReplyView::AllRows(rest) && {
                &&& rest.len() == 2
                &&& rest[0].payload == only_payload(s[1].ask)
                &&& rest[1].payload == only_payload(s[2].ask)
                &&& a[3]->AllRows_0[0].position.ordinal() < rest[0].position.ordinal()
            }
        }),
{
    let s = all_from_is_exclusive();
    let a = reply_views(seen@);
    passes_if_every_answer_fits(s, a, Seq::<P>::empty());
    assert(s[0].want.fits(a, 0, Seq::<P>::empty()));
    assert(s[1].want.fits(a, 1, Seq::<P>::empty()));
    assert(s[2].want.fits(a, 2, Seq::<P>::empty()));
    assert(s[3].want.fits(a, 3, Seq::<P>::empty()));
    assert(s[4].want.fits(a, 4, Seq::<P>::empty()));
}

/// A read in cycles passes only if it has what was appended, as the read at once does, at
/// increasing positions.
pub proof fn cycles_pass_what_was_appended<P: AllPosition>(seen: &[Reply<P>], r: Verdict<P>)
    requires
        call_ensures(check_all_multi_resume_cycles::<P>, (seen,), r),
        r is Pass,
    ensures
        ({
            let s = all_multi_resume_cycles();
            let a = reply_views(seen@);
            &&& a.len() >= s.len()
            &&& forall|i: int| 0 <= i < 10 ==> #[trigger] a[i] is Landed
            &&& s[11].ask is ReadPages
            &&& a[10] matches ReplyView::AllRows(whole) && whole.len() == 10
                && forall|i: int| 0 <= i < 10
                ==> (#[trigger] whole[i]).payload == only_payload(s[i].ask)
            &&& a[11] matches ReplyView::AllRows(rows) && {
                &&& rows.len() == 10
                &&& forall|i: int| 0 <= i < 10
                    ==> (#[trigger] rows[i]).payload == only_payload(s[i].ask)
                &&& forall|i: int, j: int| 0 <= i < j < 10
                    ==> (#[trigger] rows[i]).position.ordinal() < (
                    #[trigger] rows[j]).position.ordinal()
            }
        }),
{
    let s = all_multi_resume_cycles();
    let a = reply_views(seen@);
    passes_if_every_answer_fits(s, a, Seq::<P>::empty());
    assert(s[0].want.fits(a, 0, Seq::<P>::empty()));
    assert(s[1].want.fits(a, 1, Seq::<P>::empty()));
    assert(s[2].want.fits(a, 2, Seq::<P>::empty()));
    assert(s[3].want.fits(a, 3, Seq::<P>::empty()));
    assert(s[4].want.fits(a, 4, Seq::<P>::empty()));
    assert(s[5].want.fits(a, 5, Seq::<P>::empty()));
    assert(s[6].want.fits(a, 6, Seq::<P>::empty()));
    assert(s[7].want.fits(a, 7, Seq::<P>::empty()));
    assert(s[8].want.fits(a, 8, Seq::<P>::empty()));
    assert(s[9].want.fits(a, 9, Seq::<P>::empty()));
    assert(s[10].want.fits(a, 10, Seq::<P>::empty()));
    assert(s[11].want.fits(a, 11, Seq::<P>::empty()));
    let whole = a[10]->AllRows_0;
    let rows = a[11]->AllRows_0;
    let payloads = alternating_payloads();
    assert forall|i: int| 0 <= i < 10 implies payloads[i] == only_payload(#[trigger] s[i].ask) by {
        assert(i == 0 || i == 1 || i == 2 || i == 3 || i == 4 || i == 5 || i == 6 || i == 7
            || i == 8 || i == 9);
    }
    assert forall|i: int| 0 <= i < 10
        implies (#[trigger] whole[i]).payload == only_payload(s[i].ask) by {
        assert(whole[i].payload == payloads[i]);
    }
    assert forall|i: int| 0 <= i < 10
        implies (#[trigger] rows[i]).payload == only_payload(s[i].ask) by {
        assert(rows[i].payload == payloads[i]);
    }
}

/// Behind the last row there is nothing until something is appended, and then that alone passes.
pub proof fn boundary_passes_the_new_append_alone<P: AllPosition>(seen: &[Reply<P>], r: Verdict<P>)
    requires
        call_ensures(check_all_boundary_then_new_append::<P>, (seen,), r),
        r is Pass,
    ensures
        ({
            let s = all_boundary_then_new_append();
            let a = reply_views(seen@);
            &&& a.len() >= s.len()
            &&& a[0] is Landed && a[1] is Landed && a[4] is Landed
            &&& a[2] matches ReplyView::AllRows(all) && all.len() == 2
            &&& a[3] matches ReplyView::AllRows(none) && none.len() == 0
            &&& a[5] matches ReplyView::AllRows(rest) && rest.len() == 1
                && rest[0].payload == only_payload(s[4].ask)
                && a[2]->AllRows_0.last().position.ordinal() < rest[0].position.ordinal()
        }),
{
    let s = all_boundary_then_new_append();
    let a = reply_views(seen@);
    passes_if_every_answer_fits(s, a, Seq::<P>::empty());
    assert(s[0].want.fits(a, 0, Seq::<P>::empty()));
    assert(s[1].want.fits(a, 1, Seq::<P>::empty()));
    assert(s[2].want.fits(a, 2, Seq::<P>::empty()));
    assert(s[3].want.fits(a, 3, Seq::<P>::empty()));
    assert(s[4].want.fits(a, 4, Seq::<P>::empty()));
    assert(s[5].want.fits(a, 5, Seq::<P>::empty()));
}

/// Both kinds of reads pass side by side: that of a stream with its bound, that of all streams
/// without.
pub proof fn both_reads_pass_side_by_side<P: AllPosition>(seen: &[Reply<P>], r: Verdict<P>)
    requires
        call_ensures(check_read_stream_inclusive_read_all_exclusive_coexist::<P>, (seen,), r),
        r is Pass,
    ensures
        ({
            let s = read_stream_inclusive_read_all_exclusive_coexist();
            let a = reply_views(seen@);
            &&& a.len() >= s.len()
            &&& a[0] is Landed && a[1] is Landed && a[2] is Landed
            &&& s[3].ask matches AskView::ReadStream(_, from, _) && from@ == 2
            &&& a[3] matches ReplyView::Rows(rows, _) && rows.len() == 2 && rows[0].version == 2
                && rows[1].version == 3
            &&& a[4] matches ReplyView::AllRows(all) && all.len() == 3
            &&& s[5].ask == AskView::ReadAll(Mark::Row { answer: 4, row: 1 })
            &&& a[5] matches ReplyView::AllRows(rest) && rest.len() == 1
                && rest[0].payload == only_payload(s[2].ask)
        }),
{
    let s = read_stream_inclusive_read_all_exclusive_coexist();
    let a = reply_views(seen@);
    passes_if_every_answer_fits(s, a, Seq::<P>::empty());
    assert(s[0].want.fits(a, 0, Seq::<P>::empty()));
    assert(s[1].want.fits(a, 1, Seq::<P>::empty()));
    assert(s[2].want.fits(a, 2, Seq::<P>::empty()));
    assert(s[3].want.fits(a, 3, Seq::<P>::empty()));
    assert(s[4].want.fits(a, 4, Seq::<P>::empty()));
    assert(s[5].want.fits(a, 5, Seq::<P>::empty()));
}

/// A subscription passes only if it yields the backlog in order, then the boundary, then what is
/// appended while it is open.
pub proof fn subscription_passes_backlog_boundary_live<P: AllPosition>(seen: &[Reply<P>],
    r: Verdict<P>)
    requires
        call_ensures(check_subscription_backlog_then_caught_up_then_live::<P>, (seen,), r),
        r is Pass,
    ensures
        ({
            let s = subscription_backlog_then_caught_up_then_live();
            let a = reply_views(seen@);
            &&& a.len() >= s.len()
            &&& a[0] is Landed && a[1] is Landed && a[2] is Landed && a[8] is Landed
            &&& s[3].ask matches AskView::Subscribe(_, key, behind) && behind is None
                && key == s[0].ask->Append_0.key
            &&& yields_event(a[4], 1) && yields_event(a[5], 2) && yields_event(a[6], 3)
            &&& yields_boundary(a[7])
            &&& yields_event(a[9], 4)
            &&& only_version(s[8].ask) == 4
        }),
{
    let s = subscription_backlog_then_caught_up_then_live();
    let a = reply_views(seen@);
    passes_if_every_answer_fits(s, a, Seq::<P>::empty());
    assert(s[0].want.fits(a, 0, Seq::<P>::empty()));
    assert(s[1].want.fits(a, 1, Seq::<P>::empty()));
    assert(s[2].want.fits(a, 2, Seq::<P>::empty()));
    assert(s[3].want.fits(a, 3, Seq::<P>::empty()));
    assert(s[4].want.fits(a, 4, Seq::<P>::empty()));
    assert(s[5].want.fits(a, 5, Seq::<P>::empty()));
    assert(s[6].want.fits(a, 6, Seq::<P>::empty()));
    assert(s[7].want.fits(a, 7, Seq::<P>::empty()));
    assert(s[8].want.fits(a, 8, Seq::<P>::empty()));
    assert(s[9].want.fits(a, 9, Seq::<P>::empty()));
}

/// A subscription that resumes behind a version passes only if it goes on with the next one.
pub proof fn resumed_subscription_passes_the_next_version<P: AllPosition>(seen: &[Reply<P>],
    r: Verdict<P>)
    requires
        call_ensures(check_subscription_resume_strict_after::<P>, (seen,), r),
        r is Pass,
    ensures
        ({
            let s = subscription_resume_strict_after();
            let a = reply_views(seen@);
            &&& a.len() >= s.len()
            &&& forall|i: int| 0 <= i < 5 ==> #[trigger] a[i] is Landed
            &&& s[5].ask matches AskView::Subscribe(_, _, Some(behind))
                && yields_event(a[6], behind@ + 1) && behind@ < 5
        }),
{
    let s = subscription_resume_strict_after();
    let a = reply_views(seen@);
    passes_if_every_answer_fits(s, a, Seq::<P>::empty());
    assert(s[0].want.fits(a, 0, Seq::<P>::empty()));
    assert(s[1].want.fits(a, 1, Seq::<P>::empty()));
    assert(s[2].want.fits(a, 2, Seq::<P>::empty()));
    assert(s[3].want.fits(a, 3, Seq::<P>::empty()));
    assert(s[4].want.fits(a, 4, Seq::<P>::empty()));
    assert(s[5].want.fits(a, 5, Seq::<P>::empty()));
    assert(s[6].want.fits(a, 6, Seq::<P>::empty()));
}

/// A subscription to all streams passes only if it yields the events of all streams in append order
/// with their streams, then the boundary, then the live event behind them.
pub proof fn all_subscription_passes_backlog_boundary_live<P: AllPosition>(seen: &[Reply<P>],
    r: Verdict<P>)
    requires
        call_ensures(check_subscription_all_backlog_then_caught_up_then_live::<P>, (seen,), r),
        r is Pass,
    ensures
        ({
            let s = subscription_all_backlog_then_caught_up_then_live();
            let a = reply_views(seen@);
            &&& a.len() >= s.len()
            &&& a[0] is Landed && a[1] is Landed && a[2] is Landed && a[5] is Landed
            &&& a[4] matches ReplyView::Steps(steps) && {
                &&& steps.len() == 4
                &&& steps[3] is CaughtUp
                &&& forall|i: int| 0 <= i < 3
                    ==> (#[trigger] steps[i] matches StepView::AllEvent(row)
                    && row.payload == only_payload(s[i].ask) && row.key == s[i].ask->Append_0.key)
            }
            &&& a[6] matches ReplyView::Steps(live) && live.len() == 1
                && (live[0] matches StepView::AllEvent(row)
                && row.payload == only_payload(s[5].ask) && row.key == s[5].ask->Append_0.key)
        }),
{
    let s = subscription_all_backlog_then_caught_up_then_live();
    let a = reply_views(seen@);
    passes_if_every_answer_fits(s, a, Seq::<P>::empty());
    assert(s[0].want.fits(a, 0, Seq::<P>::empty()));
    assert(s[1].want.fits(a, 1, Seq::<P>::empty()));
    assert(s[2].want.fits(a, 2, Seq::<P>::empty()));
    assert(s[3].want.fits(a, 3, Seq::<P>::empty()));
    assert(s[4].want.fits(a, 4, Seq::<P>::empty()));
    assert(s[5].want.fits(a, 5, Seq::<P>::empty()));
    assert(s[6].want.fits(a, 6, Seq::<P>::empty()));
    let steps = a[4]->Steps_0;
    let shorter = step_rows(steps.drop_last());
    assert(shorter.len() == steps.len() - 1);
    assert forall|i: int| 0 <= i < 3 implies (#[trigger] steps[i] matches StepView::AllEvent(row)
        && row.payload == only_payload(s[i].ask) && row.key == s[i].ask->Append_0.key) by {
        assert(shorter[i] == steps[i]->AllEvent_0);
        assert(i == 0 || i == 1 || i == 2);
    }
}

/// A subscription to an absent stream passes only if it marks the boundary and later yields the
/// stream's first event.
pub proof fn absent_stream_passes_once_written<P: AllPosition>(seen: &[Reply<P>], r: Verdict<P>)
    requires
        call_ensures(check_subscription_absent_stream_waits_then_delivers::<P>, (seen,), r),
        r is Pass,
    ensures
        ({
            let s = subscription_absent_stream_waits_then_delivers();
            let a = reply_views(seen@);
            &&& a.len() >= s.len()
            &&& yields_boundary(a[1])
            &&& a[2] is Landed
            &&& a[3] matches ReplyView::Steps(steps) && steps.len() == 1
                && (steps[0] matches StepView::Event(v, payload) && v == only_version(s[2].ask)
                && payload == only_payload(s[2].ask))
        }),
{
    let s = subscription_absent_stream_waits_then_delivers();
    let a = reply_views(seen@);
    passes_if_every_answer_fits(s, a, Seq::<P>::empty());
    assert(s[0].want.fits(a, 0, Seq::<P>::empty()));
    assert(s[1].want.fits(a, 1, Seq::<P>::empty()));
    assert(s[2].want.fits(a, 2, Seq::<P>::empty()));
    assert(s[3].want.fits(a, 3, Seq::<P>::empty()));
}

/// Two subscriptions to one stream pass only if both yield everything.
pub proof fn both_subscribers_pass_everything<P: AllPosition>(seen: &[Reply<P>], r: Verdict<P>)
    requires
        call_ensures(check_two_subscribers_same_stream_both_receive::<P>, (seen,), r),
        r is Pass,
    ensures
        ({
            let s = two_subscribers_same_stream_both_receive();
            let a = reply_views(seen@);
            &&& a.len() >= s.len()
            &&& a[0] is Landed && a[7] is Landed
            &&& yields_event(a[3], 1) && yields_boundary(a[4])
            &&& yields_event(a[5], 1) && yields_boundary(a[6])
            &&& yields_event(a[8], 2) && yields_event(a[9], 2)
            &&& s[8].ask != s[9].ask
        }),
{
    let s = two_subscribers_same_stream_both_receive();
    let a = reply_views(seen@);
    passes_if_every_answer_fits(s, a, Seq::<P>::empty());
    assert(s[0].want.fits(a, 0, Seq::<P>::empty()));
    assert(s[1].want.fits(a, 1, Seq::<P>::empty()));
    assert(s[2].want.fits(a, 2, Seq::<P>::empty()));
    assert(s[3].want.fits(a, 3, Seq::<P>::empty()));
    assert(s[4].want.fits(a, 4, Seq::<P>::empty()));
    assert(s[5].want.fits(a, 5, Seq::<P>::empty()));
    assert(s[6].want.fits(a, 6, Seq::<P>::empty()));
    assert(s[7].want.fits(a, 7, Seq::<P>::empty()));
    assert(s[8].want.fits(a, 8, Seq::<P>::empty()));
    assert(s[9].want.fits(a, 9, Seq::<P>::empty()));
    assert(s[8].ask->Steps_0 == 0);
    assert(s[9].ask->Steps_0 == 1);
}

/// A backlog of more than a chunk passes only if every event of it comes once and in order, with
/// the boundary behind it.
pub proof fn long_backlog_passes_without_seam<P: AllPosition>(seen: &[Reply<P>], r: Verdict<P>)
    requires
        call_ensures(check_subscription_large_backlog_crosses_chunk_seam::<P>, (seen,), r),
        r is Pass,
    ensures
        ({
            let s = subscription_large_backlog_crosses_chunk_seam();
            let a = reply_views(seen@);
            &&& a.len() >= s.len()
            &&& s[0].ask matches AskView::Append(run) && run.rows.len() > CATCHUP_CHUNK
            &&& a[0] is Landed
            &&& yields_backlog(a[2], s[0].ask->Append_0.rows.len())
        }),
{
    let s = subscription_large_backlog_crosses_chunk_seam();
    let a = reply_views(seen@);
    passes_if_every_answer_fits(s, a, Seq::<P>::empty());
    assert(s[0].want.fits(a, 0, Seq::<P>::empty()));
    assert(s[1].want.fits(a, 1, Seq::<P>::empty()));
    assert(s[2].want.fits(a, 2, Seq::<P>::empty()));
    let steps = a[2]->Steps_0;
    let events = steps.drop_last();
    assert forall|i: int| 0 <= i < events.len()
        implies (#[trigger] steps[i] matches StepView::Event(v, _) && v == i + 1) by {
        assert(event_at(events[i], 1 + i));
    }
}

/// A subscription that starts beyond the head passes only if it yields nothing up to its bound, and
/// then the version behind it.
pub proof fn subscription_beyond_the_head_passes_behind_its_bound<P: AllPosition>(
    seen: &[Reply<P>], r: Verdict<P>)
    requires
        call_ensures(check_subscription_beyond_head_filters_below_bound::<P>, (seen,), r),
        r is Pass,
    ensures
        ({
            let s = subscription_beyond_head_filters_below_bound();
            let a = reply_views(seen@);
            &&& a.len() >= s.len()
            &&& s[2].ask matches AskView::Subscribe(_, _, Some(behind)) && behind@ > 2
                && yields_event(a[8], behind@ + 1)
            &&& yields_boundary(a[3])
            &&& a[4] is Landed && a[5] is Landed && a[6] is Landed && a[7] is Landed
        }),
{
    let s = subscription_beyond_head_filters_below_bound();
    let a = reply_views(seen@);
    passes_if_every_answer_fits(s, a, Seq::<P>::empty());
    assert(s[0].want.fits(a, 0, Seq::<P>::empty()));
    assert(s[1].want.fits(a, 1, Seq::<P>::empty()));
    assert(s[2].want.fits(a, 2, Seq::<P>::empty()));
    assert(s[3].want.fits(a, 3, Seq::<P>::empty()));
    assert(s[4].want.fits(a, 4, Seq::<P>::empty()));
    assert(s[5].want.fits(a, 5, Seq::<P>::empty()));
    assert(s[6].want.fits(a, 6, Seq::<P>::empty()));
    assert(s[7].want.fits(a, 7, Seq::<P>::empty()));
    assert(s[8].want.fits(a, 8, Seq::<P>::empty()));
}

/// A refused append passes only if the stream reads as before, row for row, and all streams have as
/// many rows as before.
pub proof fn refused_append_passes_without_change<P: AllPosition>(seen: &[Reply<P>], r: Verdict<P>)
    requires
        call_ensures(check_conflict_leaves_store_unchanged::<P>, (seen,), r),
        r is Pass,
    ensures
        ({
            let s = conflict_leaves_store_unchanged();
            let a = reply_views(seen@);
            &&& a.len() >= s.len()
            &&& a[0] is Landed
            &&& a[3] is Conflict || a[3] is Failed
            &&& a[1] is Rows && a[4] is Rows && a[4]->Rows_0 == a[1]->Rows_0
            &&& a[2] is AllRows && a[5] is AllRows && a[5]->AllRows_0.len() == a[2]->AllRows_0.len()
            &&& s[4].ask == s[1].ask
            &&& s[5].ask == s[2].ask
        }),
{
    let s = conflict_leaves_store_unchanged();
    let a = reply_views(seen@);
    passes_if_every_answer_fits(s, a, Seq::<P>::empty());
    assert(s[0].want.fits(a, 0, Seq::<P>::empty()));
    assert(s[1].want.fits(a, 1, Seq::<P>::empty()));
    assert(s[2].want.fits(a, 2, Seq::<P>::empty()));
    assert(s[3].want.fits(a, 3, Seq::<P>::empty()));
    assert(s[4].want.fits(a, 4, Seq::<P>::empty()));
    assert(s[5].want.fits(a, 5, Seq::<P>::empty()));
}

/// A batch with a gap passes only as a conflict that leaves the stream empty.
pub proof fn gap_passes_as_conflict<P: AllPosition>(seen: &[Reply<P>], r: Verdict<P>)
    requires
        call_ensures(check_version_gap_batch_rejected::<P>, (seen,), r),
        r is Pass,
    ensures
        ({
            let s = version_gap_batch_rejected();
            let a = reply_views(seen@);
            &&& a.len() >= s.len()
            &&& s[0].ask matches AskView::Append(run) && run.rows.len() == 2
                && run.rows[0].version == 1 && run.rows[1].version != 2
            &&& a[0] is Conflict
            &&& a[1] matches ReplyView::Rows(rows, _) && rows.len() == 0
        }),
{
    let s = version_gap_batch_rejected();
    let a = reply_views(seen@);
    passes_if_every_answer_fits(s, a, Seq::<P>::empty());
    assert(s[0].want.fits(a, 0, Seq::<P>::empty()));
    assert(s[1].want.fits(a, 1, Seq::<P>::empty()));
}

/// A batch that does not start at version 1 passes on a fresh stream only as a conflict that leaves
/// it empty.
pub proof fn wrong_start_passes_as_conflict<P: AllPosition>(seen: &[Reply<P>], r: Verdict<P>)
    requires
        call_ensures(check_wrong_first_version_rejected::<P>, (seen,), r),
        r is Pass,
    ensures
        ({
            let s = wrong_first_version_rejected();
            let a = reply_views(seen@);
            &&& a.len() >= s.len()
            &&& s[0].ask matches AskView::Append(run) && run.expected is None
                && run.rows[0].version != 1
            &&& a[0] is Conflict
            &&& a[1] matches ReplyView::Rows(rows, _) && rows.len() == 0
        }),
{
    let s = wrong_first_version_rejected();
    let a = reply_views(seen@);
    passes_if_every_answer_fits(s, a, Seq::<P>::empty());
    assert(s[0].want.fits(a, 0, Seq::<P>::empty()));
    assert(s[1].want.fits(a, 1, Seq::<P>::empty()));
}

/// Rows pass only with the metadata they were appended with, and without any where they had none.
pub proof fn metadata_passes_as_appended<P: AllPosition>(seen: &[Reply<P>], r: Verdict<P>)
    requires
        call_ensures(check_metadata_absent_vs_present_distinct::<P>, (seen,), r),
        r is Pass,
    ensures
        ({
            let s = metadata_absent_vs_present_distinct();
            let a = reply_views(seen@);
            &&& a.len() >= s.len()
            &&& s[0].ask matches AskView::Append(run) && run.rows.len() == 3
                && run.rows[0].metadata is None && run.rows[1].metadata is Some
                && run.rows[2].metadata is Some
            &&& a[0] is Landed
            &&& a[1] matches ReplyView::Rows(rows, _) && rows.len() >= 3
                && rows[0].metadata == s[0].ask->Append_0.rows[0].metadata
                && rows[1].metadata == s[0].ask->Append_0.rows[1].metadata
                && rows[2].metadata == s[0].ask->Append_0.rows[2].metadata
        }),
{
    let s = metadata_absent_vs_present_distinct();
    let a = reply_views(seen@);
    passes_if_every_answer_fits(s, a, Seq::<P>::empty());
    assert(s[0].want.fits(a, 0, Seq::<P>::empty()));
    assert(s[1].want.fits(a, 1, Seq::<P>::empty()));
    let rows = a[1]->Rows_0;
    assert(rows[0].metadata == metadata_samples()[0]);
    assert(rows[1].metadata == metadata_samples()[1]);
    assert(rows[2].metadata == metadata_samples()[2]);
}

/// The longest event type passes only if it comes back whole.
pub proof fn longest_type_passes_whole<P: AllPosition>(seen: &[Reply<P>], r: Verdict<P>)
    requires
        call_ensures(check_max_length_event_type_round_trips::<P>, (seen,), r),
        r is Pass,
    ensures
        ({
            let s = max_length_event_type_round_trips();
            let a = reply_views(seen@);
            &&& a.len() >= s.len()
            &&& s[0].ask matches AskView::Append(run) && run.rows.len() == 1
                && run.rows[0].event_type.len() == MAX_EVENT_TYPE_LEN
            &&& a[0] is Landed
            &&& a[1] matches ReplyView::Rows(rows, _) && rows.len() > 0
                && rows[0].event_type == s[0].ask->Append_0.rows[0].event_type
        }),
{
    let s = max_length_event_type_round_trips();
    let a = reply_views(seen@);
    passes_if_every_answer_fits(s, a, Seq::<P>::empty());
    assert(s[0].want.fits(a, 0, Seq::<P>::empty()));
    assert(s[1].want.fits(a, 1, Seq::<P>::empty()));
}

/// A large payload passes only if it comes back whole.
pub proof fn large_payload_passes_whole<P: AllPosition>(seen: &[Reply<P>], r: Verdict<P>)
    requires
        call_ensures(check_large_payload_round_trips::<P>, (seen,), r),
        r is Pass,
    ensures
        ({
            let s = large_payload_round_trips();
            let a = reply_views(seen@);
            &&& a.len() >= s.len()
            &&& s[0].ask matches AskView::Append(run) && run.rows.len() == 1
                && run.rows[0].payload.len() == 1_048_576
            &&& a[0] is Landed
            &&& a[1] matches ReplyView::Rows(rows, _) && rows.len() == 1
                && rows[0].payload == s[0].ask->Append_0.rows[0].payload
        }),
{
    let s = large_payload_round_trips();
    let a = reply_views(seen@);
    passes_if_every_answer_fits(s, a, Seq::<P>::empty());
    assert(s[0].want.fits(a, 0, Seq::<P>::empty()));
    assert(s[1].want.fits(a, 1, Seq::<P>::empty()));
    assert(s[1].want->Rows_0->Payloads_0[0] == s[0].ask->Append_0.rows[0].payload);
}

/// Streams whose names begin alike pass only if each has its own rows.
pub proof fn streams_pass_apart<P: AllPosition>(seen: &[Reply<P>], r: Verdict<P>)
    requires
        call_ensures(check_prefix_stream_ids_isolated::<P>, (seen,), r),
        r is Pass,
    ensures
        ({
            let s = prefix_stream_ids_isolated();
            let a = reply_views(seen@);
            &&& a.len() >= s.len()
            &&& a[0] is Landed && a[1] is Landed && a[2] is Landed && a[3] is Landed
            &&& a[4] matches ReplyView::Rows(rows, _)
                && s[4].ask->ReadStream_0 == s[0].ask->Append_0.key && rows.len() == 1
                && rows[0].payload == only_payload(s[0].ask)
            &&& a[5] matches ReplyView::Rows(rows, _)
                && s[5].ask->ReadStream_0 == s[1].ask->Append_0.key
                && rows.len() == s[1].ask->Append_0.rows.len()
            &&& a[6] matches ReplyView::Rows(rows, _)
                && s[6].ask->ReadStream_0 == s[2].ask->Append_0.key && rows.len() == 1
                && rows[0].payload == only_payload(s[2].ask)
            &&& a[7] matches ReplyView::Rows(rows, _)
                && s[7].ask->ReadStream_0 == s[3].ask->Append_0.key && rows.len() == 1
                && rows[0].payload == only_payload(s[3].ask)
        }),
{
    let s = prefix_stream_ids_isolated();
    let a = reply_views(seen@);
    passes_if_every_answer_fits(s, a, Seq::<P>::empty());
    assert(s[0].want.fits(a, 0, Seq::<P>::empty()));
    assert(s[1].want.fits(a, 1, Seq::<P>::empty()));
    assert(s[2].want.fits(a, 2, Seq::<P>::empty()));
    assert(s[3].want.fits(a, 3, Seq::<P>::empty()));
    assert(s[4].want.fits(a, 4, Seq::<P>::empty()));
    assert(s[5].want.fits(a, 5, Seq::<P>::empty()));
    assert(s[6].want.fits(a, 6, Seq::<P>::empty()));
    assert(s[7].want.fits(a, 7, Seq::<P>::empty()));
}

/// A transaction passes only if every run of it landed: each stream has its rows and those it had.
pub proof fn transaction_passes_whole<P: AllPosition>(seen: &[Reply<P>], r: Verdict<P>)
    requires
        call_ensures(check_atomic_multi_stream_commits_all::<P>, (seen,), r),
        r is Pass,
    ensures
        ({
            let s = atomic_multi_stream_commits_all();
            let a = reply_views(seen@);
            &&& a.len() >= s.len()
            &&& s[1].ask matches AskView::AtomicAppend(runs) && runs.len() == 3
            &&& a[0] is Landed && a[1] is Committed
            &&& a[2] matches ReplyView::Rows(rows, _)
                && s[2].ask->ReadStream_0 == s[1].ask->AtomicAppend_0[0].key
                && rows.len() == s[1].ask->AtomicAppend_0[0].rows.len()
            &&& a[3] matches ReplyView::Rows(rows, _)
                && s[3].ask->ReadStream_0 == s[1].ask->AtomicAppend_0[1].key
                && rows.len() == s[1].ask->AtomicAppend_0[1].rows.len()
            &&& a[4] matches ReplyView::Rows(rows, _)
                && s[4].ask->ReadStream_0 == s[0].ask->Append_0.key
                && rows.len() == s[0].ask->Append_0.rows.len(
                ) + s[1].ask->AtomicAppend_0[2].rows.len()
            &&& a[5] matches ReplyView::AllRows(rows) && {
                &&& rows.len() == a[2]->Rows_0.len() + a[3]->Rows_0.len() + a[4]->Rows_0.len()
                &&& forall|i: int, j: int| 0 <= i < j < rows.len()
                    ==> (#[trigger] rows[i]).position.ordinal() < (
                    #[trigger] rows[j]).position.ordinal()
            }
        }),
{
    let s = atomic_multi_stream_commits_all();
    let a = reply_views(seen@);
    passes_if_every_answer_fits(s, a, Seq::<P>::empty());
    assert(s[0].want.fits(a, 0, Seq::<P>::empty()));
    assert(s[1].want.fits(a, 1, Seq::<P>::empty()));
    assert(s[2].want.fits(a, 2, Seq::<P>::empty()));
    assert(s[3].want.fits(a, 3, Seq::<P>::empty()));
    assert(s[4].want.fits(a, 4, Seq::<P>::empty()));
    assert(s[5].want.fits(a, 5, Seq::<P>::empty()));
}

/// A transaction with a stale run passes only as a conflict that names the run and its stream's
/// head, and nothing of it is there.
pub proof fn stale_transaction_passes_as_conflict<P: AllPosition>(seen: &[Reply<P>], r: Verdict<P>)
    requires
        call_ensures(check_atomic_conflict_aborts_all::<P>, (seen,), r),
        r is Pass,
    ensures
        ({
            let s = atomic_conflict_aborts_all();
            let a = reply_views(seen@);
            &&& a.len() >= s.len()
            &&& a[0] is Landed
            &&& a[2] matches ReplyView::AtomicConflict(index, Some(head)) && index == 1
                && head@ == s[0].ask->Append_0.rows.len()
            &&& s[2].ask matches AskView::AtomicAppend(runs) && runs.len() == 2
                && runs[1].key == s[0].ask->Append_0.key && runs[1].expected is None
            &&& a[3] matches ReplyView::Rows(rows, _)
                && s[3].ask->ReadStream_0 == s[2].ask->AtomicAppend_0[0].key && rows.len() == 0
            &&& a[1] is AllRows && a[4] is AllRows && a[4]->AllRows_0.len() == a[1]->AllRows_0.len()
        }),
{
    let s = atomic_conflict_aborts_all();
    let a = reply_views(seen@);
    passes_if_every_answer_fits(s, a, Seq::<P>::empty());
    assert(s[0].want.fits(a, 0, Seq::<P>::empty()));
    assert(s[1].want.fits(a, 1, Seq::<P>::empty()));
    assert(s[2].want.fits(a, 2, Seq::<P>::empty()));
    assert(s[3].want.fits(a, 3, Seq::<P>::empty()));
    assert(s[4].want.fits(a, 4, Seq::<P>::empty()));
}

/// An empty transaction passes only if it lands and leaves nothing.
pub proof fn empty_transaction_passes_without_rows<P: AllPosition>(seen: &[Reply<P>], r: Verdict<P>)
    requires
        call_ensures(check_atomic_empty_batch_is_noop::<P>, (seen,), r),
        r is Pass,
    ensures
        ({
            let s = atomic_empty_batch_is_noop();
            let a = reply_views(seen@);
            &&& a.len() >= s.len()
            &&& s[0].ask matches AskView::AtomicAppend(runs) && runs.len() == 0
            &&& a[0] is Committed
            &&& a[1] matches ReplyView::AllRows(rows) && rows.len() == 0
        }),
{
    let s = atomic_empty_batch_is_noop();
    let a = reply_views(seen@);
    passes_if_every_answer_fits(s, a, Seq::<P>::empty());
    assert(s[0].want.fits(a, 0, Seq::<P>::empty()));
    assert(s[1].want.fits(a, 1, Seq::<P>::empty()));
}

/// A reopened store passes only if the stream reads as before, row for row.
pub proof fn reopened_store_passes_the_same_rows<P: AllPosition>(seen: &[Reply<P>], r: Verdict<P>)
    requires
        call_ensures(check_reopen_preserves_events::<P>, (seen,), r),
        r is Pass,
    ensures
        ({
            let s = reopen_preserves_events();
            let a = reply_views(seen@);
            &&& a.len() >= s.len()
            &&& a[0] is Landed && a[2] is Done && s[2].ask is Reopen
            &&& s[3].ask == s[1].ask
            &&& a[1] is Rows && a[3] is Rows && a[3]->Rows_0 == a[1]->Rows_0
        }),
{
    let s = reopen_preserves_events();
    let a = reply_views(seen@);
    passes_if_every_answer_fits(s, a, Seq::<P>::empty());
    assert(s[0].want.fits(a, 0, Seq::<P>::empty()));
    assert(s[1].want.fits(a, 1, Seq::<P>::empty()));
    assert(s[2].want.fits(a, 2, Seq::<P>::empty()));
    assert(s[3].want.fits(a, 3, Seq::<P>::empty()));
}

/// A reopened store passes only if its next position lies behind those from before.
pub proof fn reopened_store_passes_later_positions<P: AllPosition>(seen: &[Reply<P>], r: Verdict<P>)
    requires
        call_ensures(check_reopen_preserves_position_watermark::<P>, (seen,), r),
        r is Pass,
    ensures
        ({
            let s = reopen_preserves_position_watermark();
            let a = reply_views(seen@);
            &&& a.len() >= s.len()
            &&& a[0] is Landed && a[1] is Landed && a[4] is Landed && s[3].ask is Reopen
            &&& a[2] matches ReplyView::AllRows(all) && all.len() > 0
            &&& a[5] matches ReplyView::AllRows(rest) && rest.len() == 1
                && rest[0].payload == only_payload(s[4].ask)
                && a[2]->AllRows_0.last().position.ordinal() < rest[0].position.ordinal()
        }),
{
    let s = reopen_preserves_position_watermark();
    let a = reply_views(seen@);
    passes_if_every_answer_fits(s, a, Seq::<P>::empty());
    assert(s[0].want.fits(a, 0, Seq::<P>::empty()));
    assert(s[1].want.fits(a, 1, Seq::<P>::empty()));
    assert(s[2].want.fits(a, 2, Seq::<P>::empty()));
    assert(s[3].want.fits(a, 3, Seq::<P>::empty()));
    assert(s[4].want.fits(a, 4, Seq::<P>::empty()));
    assert(s[5].want.fits(a, 5, Seq::<P>::empty()));
}

/// A reopened store passes only if it still refuses what is stale and takes what continues.
pub proof fn reopened_store_passes_the_same_head<P: AllPosition>(seen: &[Reply<P>], r: Verdict<P>)
    requires
        call_ensures(check_reopen_conflict_state_intact::<P>, (seen,), r),
        r is Pass,
    ensures
        ({
            let s = reopen_conflict_state_intact();
            let a = reply_views(seen@);
            &&& a.len() >= s.len()
            &&& a[0] is Landed && a[1] is Landed && a[4] is Landed && s[2].ask is Reopen
            &&& a[3] is Conflict || a[3] is Failed
            &&& a[5] matches ReplyView::Rows(rows, _) && rows.len() == 3
                && forall|i: int| 0 <= i < 3 ==> (#[trigger] rows[i]).version == i + 1
        }),
{
    let s = reopen_conflict_state_intact();
    let a = reply_views(seen@);
    passes_if_every_answer_fits(s, a, Seq::<P>::empty());
    assert(s[0].want.fits(a, 0, Seq::<P>::empty()));
    assert(s[1].want.fits(a, 1, Seq::<P>::empty()));
    assert(s[2].want.fits(a, 2, Seq::<P>::empty()));
    assert(s[3].want.fits(a, 3, Seq::<P>::empty()));
    assert(s[4].want.fits(a, 4, Seq::<P>::empty()));
    assert(s[5].want.fits(a, 5, Seq::<P>::empty()));
}

/// A subscription to a reopened store passes only if it yields everything from before, then the
/// boundary.
pub proof fn reopened_store_passes_its_backlog<P: AllPosition>(seen: &[Reply<P>], r: Verdict<P>)
    requires
        call_ensures(check_reopen_subscription_catches_up::<P>, (seen,), r),
        r is Pass,
    ensures
        ({
            let s = reopen_subscription_catches_up();
            let a = reply_views(seen@);
            &&& a.len() >= s.len()
            &&& a[0] is Landed && a[1] is Landed && a[2] is Landed && s[3].ask is Reopen
            &&& yields_backlog(a[5], 3)
        }),
{
    let s = reopen_subscription_catches_up();
    let a = reply_views(seen@);
    passes_if_every_answer_fits(s, a, Seq::<P>::empty());
    assert(s[0].want.fits(a, 0, Seq::<P>::empty()));
    assert(s[1].want.fits(a, 1, Seq::<P>::empty()));
    assert(s[2].want.fits(a, 2, Seq::<P>::empty()));
    assert(s[3].want.fits(a, 3, Seq::<P>::empty()));
    assert(s[4].want.fits(a, 4, Seq::<P>::empty()));
    assert(s[5].want.fits(a, 5, Seq::<P>::empty()));
    let steps = a[5]->Steps_0;
    let events = steps.drop_last();
    assert forall|i: int| 0 <= i < events.len()
        implies (#[trigger] steps[i] matches StepView::Event(v, _) && v == i + 1) by {
        assert(event_at(events[i], 1 + i));
    }
}

/// A race for one stream passes only if exactly one task landed, all others were refused as
/// conflicts, and the one row is the winner's.
pub proof fn race_passes_one_winner<P: AllPosition>(seen: &[Reply<P>], r: Verdict<P>)
    requires
        call_ensures(check_concurrent_same_stream_single_winner::<P>, (seen,), r),
        r is Pass,
    ensures
        ({
            let s = concurrent_same_stream_single_winner();
            let a = reply_views(seen@);
            &&& a.len() >= s.len()
            &&& s[0].ask matches AskView::Race(tasks) && a[0] matches ReplyView::Raced(ended)
                && ended.len() == tasks.len()
            &&& exists|w: int| {
                &&& #[trigger] alone_landed(a[0]->Raced_0, w)
                &&& a[1] matches ReplyView::Rows(rows, _) && rows.len() == 1
                    && rows[0].payload == s[0].ask->Race_0[w][0].rows[0].payload
            }
        }),
{
    let s = concurrent_same_stream_single_winner();
    let a = reply_views(seen@);
    passes_if_every_answer_fits(s, a, Seq::<P>::empty());
    assert(s[0].want.fits(a, 0, Seq::<P>::empty()));
    assert(s[1].want.fits(a, 1, Seq::<P>::empty()));
    let ended = a[0]->Raced_0;
    let w = choose|w: int| #[trigger] sole_winner(ended, w);
    assert(alone_landed(ended, w));
    let rows = a[1]->Rows_0;
    let v = choose|v: int| #[trigger] first_landed(ended, v) && rows[0].payload == task_payload(v);
    if v != w {
        assert(ended[v] is Conflict);
    }
    assert(s[0].ask->Race_0[w][0].rows[0].payload =~= task_payload(w));
}

/// A race for distinct streams passes only if every task landed, every stream has its own payloads
/// in order, and all of them are among all streams.
pub proof fn race_passes_all_winners<P: AllPosition>(seen: &[Reply<P>], r: Verdict<P>)
    requires
        call_ensures(check_concurrent_distinct_streams_all_land::<P>, (seen,), r),
        r is Pass,
    ensures
        ({
            let s = concurrent_distinct_streams_all_land();
            let a = reply_views(seen@);
            &&& a.len() >= s.len()
            &&& s[0].ask matches AskView::Race(tasks) && a[0] matches ReplyView::Raced(ended)
                && ended.len() == tasks.len()
            &&& forall|w: int| 0 <= w < a[0]->Raced_0.len()
                ==> #[trigger] a[0]->Raced_0[w] is Landed
            &&& a[1] is AllRows
            &&& forall|t: int| 0 <= t < s[0].ask->Race_0.len()
                ==> own_rows(s[0].ask->Race_0[t], #[trigger] a[t + 2])
            &&& forall|i: int, j: int| 0 <= i < j < a[1]->AllRows_0.len()
                ==> (#[trigger] a[1]->AllRows_0[i]).position.ordinal() < (
                #[trigger] a[1]->AllRows_0[j]).position.ordinal()
        }),
{
    let s = concurrent_distinct_streams_all_land();
    let a = reply_views(seen@);
    passes_if_every_answer_fits(s, a, Seq::<P>::empty());

    assert(s[1].want.fits(a, 1, Seq::<P>::empty()));
    assert forall|t: int| 0 <= t < s[0].ask->Race_0.len()
        implies own_rows(s[0].ask->Race_0[t], #[trigger] a[t + 2]) by {
        assert(s[t + 2] == own_reads()[t]);
        assert(s[t + 2].want.fits(a, t + 2, Seq::<P>::empty()));
        let rows = a[t + 2]->Rows_0;
        let runs = s[0].ask->Race_0[t];
        assert(runs == own_runs(t as nat));
        assert forall|i: int| 0 <= i < rows.len()
            implies (#[trigger] rows[i]).payload == runs[i].rows[0].payload by {
            assert(rows[i].payload == own_payloads(t as nat)[i]);
        }
    }
}

/// A subscription that went idle passes only if it wakes for an append that comes later.
pub proof fn idle_subscription_passes_the_wake<P: AllPosition>(seen: &[Reply<P>], r: Verdict<P>)
    requires
        call_ensures(check_wake_after_idle::<P>, (seen,), r),
        r is Pass,
    ensures
        ({
            let s = wake_after_idle();
            let a = reply_views(seen@);
            &&& a.len() >= s.len()
            &&& a[0] is Landed
            &&& a[2] matches ReplyView::Steps(steps) && steps.len() > 0 && steps.last() is CaughtUp
            &&& s[3].ask matches AskView::Background(_, runs) && runs.len() == 1
                && yields_event(a[4], runs[0].rows[0].version)
            &&& a[5] is Done
        }),
{
    let s = wake_after_idle();
    let a = reply_views(seen@);
    passes_if_every_answer_fits(s, a, Seq::<P>::empty());
    assert(s[0].want.fits(a, 0, Seq::<P>::empty()));
    assert(s[1].want.fits(a, 1, Seq::<P>::empty()));
    assert(s[2].want.fits(a, 2, Seq::<P>::empty()));
    assert(s[3].want.fits(a, 3, Seq::<P>::empty()));
    assert(s[4].want.fits(a, 4, Seq::<P>::empty()));
    assert(s[5].want.fits(a, 5, Seq::<P>::empty()));
}

/// A boundary in the middle of appends passes only if it comes once, and every event, backlog and
/// live, comes once and in order around it.
pub proof fn boundary_race_passes_everything_once<P: AllPosition>(seen: &[Reply<P>], r: Verdict<P>)
    requires
        call_ensures(check_caught_up_boundary_race::<P>, (seen,), r),
        r is Pass,
    ensures
        ({
            let s = caught_up_boundary_race();
            let a = reply_views(seen@);
            &&& a.len() >= s.len()
            &&& s[0].ask is Append && s[2].ask is Background
            &&& a[0] is Landed && a[4] is Done
            &&& a[3] matches ReplyView::Steps(steps)
                && steps.len() == s[0].ask->Append_0.rows.len() + s[2].ask->Background_1.len() + 1
            &&& exists|b: int| #[trigger] around_boundary(a[3]->Steps_0, b)
        }),
{
    let s = caught_up_boundary_race();
    let a = reply_views(seen@);
    passes_if_every_answer_fits(s, a, Seq::<P>::empty());
    assert(s[0].want.fits(a, 0, Seq::<P>::empty()));
    assert(s[1].want.fits(a, 1, Seq::<P>::empty()));
    assert(s[2].want.fits(a, 2, Seq::<P>::empty()));
    assert(s[3].want.fits(a, 3, Seq::<P>::empty()));
    assert(s[4].want.fits(a, 4, Seq::<P>::empty()));
    let steps = a[3]->Steps_0;
    let b = choose|b: int| #[trigger] one_boundary(steps, b);
    let rest = steps.remove(b);
    assert forall|i: int| 0 <= i < steps.len() && i != b
        implies (#[trigger] steps[i] matches StepView::Event(v, _) && v == (if i < b {
        i + 1
    } else {
        i
    })) by {
        if i < b {
            assert(event_at(rest[i], 1 + i));
        } else {
            assert(rest[i - 1] == steps[i]);
            assert(event_at(rest[i - 1], 1 + (i - 1)));
        }
    }
    assert(around_boundary(steps, b));
}

/// A first snapshot passes only if there was none before it, and then it is found as it was saved:
/// same position, same state.
pub proof fn first_snapshot_passes_as_saved<P: AllPosition>(seen: &[Reply<P>], p1: P, p2: P,
    r: Verdict<P>)
    requires
        call_ensures(check_snapshot_absent_then_commit_then_found::<P>, (seen, p1, p2), r),
        r is Pass,
    ensures
        ({
            let s = snapshot_absent_then_commit_then_found();
            let a = reply_views(seen@);
            &&& a.len() >= s.len()
            &&& a[0] is Absent && a[1] is Done
            &&& s[1].ask matches AskView::Commit(id, schema, _, state)
                && s[2].ask == AskView::Hydrate(id, schema) && s[0].ask == s[2].ask
            &&& a[2] matches ReplyView::Found(position, state)
                && position.ordinal() == p1.ordinal() && state == s[1].ask->Commit_3
        }),
{
    let s = snapshot_absent_then_commit_then_found();
    let a = reply_views(seen@);
    passes_if_every_answer_fits(s, a, seq![p1, p2]);
    assert(s[0].want.fits(a, 0, seq![p1, p2]));
    assert(s[1].want.fits(a, 1, seq![p1, p2]));
    assert(s[2].want.fits(a, 2, seq![p1, p2]));
}

/// A snapshot under another schema version passes only as stale, with the schema version it was
/// saved under.
pub proof fn other_schema_passes_as_stale<P: AllPosition>(seen: &[Reply<P>], p1: P, p2: P,
    r: Verdict<P>)
    requires
        call_ensures(check_snapshot_stale_on_schema_change::<P>, (seen, p1, p2), r),
        r is Pass,
    ensures
        ({
            let s = snapshot_stale_on_schema_change();
            let a = reply_views(seen@);
            &&& a.len() >= s.len()
            &&& a[0] is Done
            &&& s[0].ask matches AskView::Commit(id, saved, _, _)
                && s[1].ask matches AskView::Hydrate(asked_id, asked) && asked_id == id
                && asked != saved
            &&& a[1] matches ReplyView::Stale(schema) && schema == s[0].ask->Commit_1
        }),
{
    let s = snapshot_stale_on_schema_change();
    let a = reply_views(seen@);
    passes_if_every_answer_fits(s, a, seq![p1, p2]);
    assert(s[0].want.fits(a, 0, seq![p1, p2]));
    assert(s[1].want.fits(a, 1, seq![p1, p2]));
}

/// Of two snapshots of one id only the later one passes.
pub proof fn later_snapshot_passes<P: AllPosition>(seen: &[Reply<P>], p1: P, p2: P, r: Verdict<P>)
    requires
        call_ensures(check_snapshot_overwrite_latest_wins::<P>, (seen, p1, p2), r),
        r is Pass,
    ensures
        ({
            let s = snapshot_overwrite_latest_wins();
            let a = reply_views(seen@);
            &&& a.len() >= s.len()
            &&& a[0] is Done && a[1] is Done
            &&& s[0].ask->Commit_0 == s[1].ask->Commit_0
            &&& a[2] matches ReplyView::Found(position, state)
                && position.ordinal() == p2.ordinal() && state == s[1].ask->Commit_3
        }),
{
    let s = snapshot_overwrite_latest_wins();
    let a = reply_views(seen@);
    passes_if_every_answer_fits(s, a, seq![p1, p2]);
    assert(s[0].want.fits(a, 0, seq![p1, p2]));
    assert(s[1].want.fits(a, 1, seq![p1, p2]));
    assert(s[2].want.fits(a, 2, seq![p1, p2]));
}

/// An empty state passes only if it is found, and found empty.
pub proof fn empty_state_passes<P: AllPosition>(seen: &[Reply<P>], p1: P, p2: P, r: Verdict<P>)
    requires
        call_ensures(check_snapshot_empty_state_round_trips::<P>, (seen, p1, p2), r),
        r is Pass,
    ensures
        ({
            let s = snapshot_empty_state_round_trips();
            let a = reply_views(seen@);
            &&& a.len() >= s.len()
            &&& a[0] is Done
            &&& s[0].ask->Commit_3.len() == 0
            &&& a[1] matches ReplyView::Found(position, state)
                && position.ordinal() == p1.ordinal() && state.len() == 0
        }),
{
    let s = snapshot_empty_state_round_trips();
    let a = reply_views(seen@);
    passes_if_every_answer_fits(s, a, seq![p1, p2]);
    assert(s[0].want.fits(a, 0, seq![p1, p2]));
    assert(s[1].want.fits(a, 1, seq![p1, p2]));
}

/// Snapshots at the least and the greatest position pass only at the position they were saved at.
pub proof fn extreme_positions_pass<P: AllPosition>(seen: &[Reply<P>], p1: P, p2: P, r: Verdict<P>)
    requires
        call_ensures(check_snapshot_extreme_positions_round_trip::<P>, (seen, p1, p2), r),
        r is Pass,
    ensures
        ({
            let s = snapshot_extreme_positions_round_trip();
            let a = reply_views(seen@);
            &&& a.len() >= s.len()
            &&& a[0] is Done && a[2] is Done
            &&& a[1] matches ReplyView::Found(position, _) && position.ordinal() == p1.ordinal()
            &&& a[3] matches ReplyView::Found(position, _) && position.ordinal() == p2.ordinal()
        }),
{
    let s = snapshot_extreme_positions_round_trip();
    let a = reply_views(seen@);
    passes_if_every_answer_fits(s, a, seq![p1, p2]);
    assert(s[0].want.fits(a, 0, seq![p1, p2]));
    assert(s[1].want.fits(a, 1, seq![p1, p2]));
    assert(s[2].want.fits(a, 2, seq![p1, p2]));
    assert(s[3].want.fits(a, 3, seq![p1, p2]));
}

} // verus!
