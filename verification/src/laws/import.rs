//! Laws of imports.

use crate::envelope::EventView;
use crate::import::{
    atomic_reply, block_versions, chunk_ran, fault_view, head_unread, lead_of, leading_events,
    len_after, len_after_write, per_stream_ran, per_stream_result, plan_of, planned_rows,
    reports_upto, routes_to, run_expects, run_len, running_len, scan_chunk, section_fault,
    section_report, section_step, sections_ran, sound_lead, stale_fault, whole_chunk_result,
    with_lead, write_fits, AtomicAppend, AtomicAppendError, Halt, ImportError, ImportReport,
    PlanView, RunView, ScanView, StreamOutcome, WriteView,
};
use crate::log::{
    accepts, dense, head_of, leading_run_bounds, log_ok, routed, routed_of_stream, routed_of_sum,
    rows_for, stream_of, stream_of_extended, stream_of_grown, LogEntry,
};
use crate::store::{AllPosition, RawEventStore};
use crate::stream_key::StreamKey;
use crate::version::{group_version, head_at, version_at};
use vstd::prelude::*;

verus! {

broadcast use group_version;

/// Halt, never skip: the run of a section is its leading blocks, one behind the other without a
/// gap, and it ends at the first block that is corrupt or out of line.
pub proof fn run_is_the_leading_blocks(blocks: Seq<Option<EventView>>, run: RunView)
    requires
        sound_lead(blocks),
        plan_of(blocks) == PlanView::Run(run),
    ensures
        1 <= run.events.len() <= blocks.len(),
        forall|i: int|
            0 <= i < run.events.len() ==> blocks[i] == Some(#[trigger] run.events[i]),
        dense(run.events, (run.events[0].version - 1) as nat),
        run.halt == Halt::Complete <==> run.events.len() == blocks.len(),
        run.events.len() < blocks.len() ==> match blocks[run.events.len() as int] {
            None => run.halt == Halt::Corrupt,
            Some(event) => event.version != run.events.last().version + 1 && run.halt
                == (Halt::Gap { got: version_at(event.version) }),
        },
{
    let base = blocks[0]->0.version;
    let versions = block_versions(blocks.skip(1));
    leading_run_bounds(versions, base);
    let n = run_len(blocks);
    assert(run.events == leading_events(blocks, n));
    assert(blocks[0] is Some);
    assert forall|i: int| 0 <= i < n implies blocks[i] == Some(#[trigger] run.events[i])
        && run.events[i].version == base + i by {
        if i > 0 {
            assert(versions[i - 1] == Some((base + (i - 1) + 1) as nat));
            assert(blocks.skip(1)[i - 1] == blocks[i]);
        }
    }
    if n < blocks.len() {
        assert(versions[n - 1] != Some((base + (n - 1) + 1) as nat));
        assert(blocks.skip(1)[n - 1] == blocks[n as int]);
        assert(run.events.last() == run.events[n - 1]);
    }
}

/// Picky per stream: a run lands exactly if its first version is the next one of its target.
pub proof fn run_lands_only_at_the_head(
    log: Seq<LogEntry>,
    target: Seq<u8>,
    blocks: Seq<Option<EventView>>,
    run: RunView,
)
    requires
        log_ok(log),
        sound_lead(blocks),
        plan_of(blocks) == PlanView::Run(run),
    ensures
        accepts(log, target, run_expects(run), run.events) <==> run.events[0].version
            == stream_of(log, target).len() + 1,
{
    run_is_the_leading_blocks(blocks, run);
    assert(blocks[0] == Some(run.events[0]));
    let n = stream_of(log, target).len();
    assert(dense(stream_of(log, target), 0) && n <= u64::MAX);
    let before = (run.events[0].version - 1) as nat;
    if head_at(before) == head_at(n) {
        if before > 0 {
            assert(version_at(before)@ == before);
        }
        if n > 0 {
            assert(version_at(n)@ == n);
        }
    }
}

/// What an import reports is where the stream sits: behind a section that landed, the head is the
/// version reported; behind one that did not, the stream is untouched.
pub proof fn report_tells_the_head(
    before: Seq<LogEntry>,
    after: Seq<LogEntry>,
    target: Seq<u8>,
    blocks: Seq<Option<EventView>>,
)
    requires
        log_ok(before),
        log_ok(after),
        sound_lead(blocks),
        section_step(blocks, target, before, after),
        section_report(blocks, target, before).len() > 0,
    ensures
        ({
            let outcome = section_report(blocks, target, before)[0].1;
            let reached = match outcome {
                StreamOutcome::Complete { version } => Some(version),
                StreamOutcome::Corrupt { reached } => reached,
                StreamOutcome::Mismatch { reached, .. } => reached,
            };
            &&& reached is Some ==> head_of(after, target) == reached
            &&& reached is None ==> after == before
        }),
{
    match plan_of(blocks) {
        PlanView::Run(run) => {
            run_is_the_leading_blocks(blocks, run);
            run_lands_only_at_the_head(before, target, blocks, run);
            if accepts(before, target, run_expects(run), run.events) {
                stream_of_extended(before, after, target, run.events, target);
                assert(run.events.last() == run.events[run.events.len() - 1]);
            }
        },
        _ => {},
    }
}

/// What a section left behind refuses the section: whether its run landed or not, the run does not
/// continue the stream that it left.
proof fn refused_behind_itself(
    before: Seq<LogEntry>,
    after: Seq<LogEntry>,
    later: Seq<LogEntry>,
    target: Seq<u8>,
    blocks: Seq<Option<EventView>>,
    run: RunView,
)
    requires
        sound_lead(blocks),
        plan_of(blocks) == PlanView::Run(run),
        section_step(blocks, target, before, after),
        stream_of(later, target) == stream_of(after, target),
    ensures
        !accepts(later, target, run_expects(run), run.events),
{
    run_is_the_leading_blocks(blocks, run);
    let first = (run.events[0].version - 1) as nat;
    if accepts(before, target, run_expects(run), run.events) {
        stream_of_extended(before, after, target, run.events, target);
        let n = stream_of(later, target).len();
        assert(run.events[0].version == stream_of(before, target).len() + 1);
        assert(run.events.last() == run.events[run.events.len() - 1]);
        assert(n == run.events.last().version);
        assert(version_at(n)@ == n);
        if first > 0 {
            assert(version_at(first)@ == first);
        }
    }
}

/// Importing what is already there is refused: a second import of a section leaves the log as it is
/// and reports a mismatch at the section's first version, whether the section landed the first time
/// or not.
pub proof fn reimport_is_refused(
    before: Seq<LogEntry>,
    after: Seq<LogEntry>,
    again: Seq<LogEntry>,
    target: Seq<u8>,
    blocks: Seq<Option<EventView>>,
    run: RunView,
)
    requires
        sound_lead(blocks),
        plan_of(blocks) == PlanView::Run(run),
        section_step(blocks, target, before, after),
        section_step(blocks, target, after, again),
    ensures
        again == after,
        section_report(blocks, target, after) == seq![
            (
                target,
                StreamOutcome::Mismatch {
                    reached: None,
                    got: version_at(run.events[0].version),
                },
            ),
        ],
{
    refused_behind_itself(before, after, after, target, blocks, run);
}

/// Sections for other targets leave a stream alone.
proof fn untouched_between<R: Fn(&[u8]) -> StreamKey>(
    route: R,
    sections: Seq<(Seq<u8>, Seq<Option<EventView>>)>,
    targets: Seq<Seq<u8>>,
    logs: Seq<Seq<LogEntry>>,
    a: int,
    b: int,
    key: Seq<u8>,
)
    requires
        sections_ran(route, sections, targets, logs),
        0 <= a <= b <= targets.len(),
        forall|i: int| a <= i < b ==> (#[trigger] targets[i]) != key,
    ensures
        stream_of(logs[b], key) == stream_of(logs[a], key),
    decreases b - a,
{
    if a < b {
        let i = b - 1;
        untouched_between(route, sections, targets, logs, a, i, key);
        assert(section_step(sections[i].1, targets[i], logs[i], logs[i + 1]));
        assert(targets[i] != key);
        sections_are_isolated(logs[i], logs[i + 1], targets[i], sections[i].1, key, sections[i].1);
    }
}

/// The first sections of a second import: none of them lands.
proof fn refused_again_upto<R: Fn(&[u8]) -> StreamKey>(
    route: R,
    sections: Seq<(Seq<u8>, Seq<Option<EventView>>)>,
    targets: Seq<Seq<u8>>,
    logs: Seq<Seq<LogEntry>>,
    again: Seq<Seq<u8>>,
    later: Seq<Seq<LogEntry>>,
    n: nat,
)
    requires
        sections_ran(route, sections, targets, logs),
        sections_ran(route, sections, again, later),
        targets.len() == sections.len(),
        logs.last() == later[0],
        n <= again.len(),
        forall|i: int| 0 <= i < again.len() ==> (#[trigger] again[i]) == targets[i],
        forall|i: int, j: int|
            0 <= i < j < targets.len() ==> (#[trigger] targets[i]) != (#[trigger] targets[j]),
        forall|i: int|
            0 <= i < sections.len() ==> lead_of((#[trigger] sections[i]).1) is Some,
    ensures
        later[n as int] == later[0],
        reports_upto(sections, again, later, n).len() == n,
        forall|i: int|
            0 <= i < n ==> (#[trigger] reports_upto(sections, again, later, n)[i]) == (
                targets[i],
                StreamOutcome::Mismatch {
                    reached: None,
                    got: version_at(sections[i].1[0]->0.version),
                },
            ),
    decreases n,
{
    if n > 0 {
        let i = n - 1;
        refused_again_upto(route, sections, targets, logs, again, later, i as nat);
        let blocks = sections[i].1;
        assert(lead_of(blocks) is Some);
        assert(section_step(blocks, targets[i], logs[i], logs[i + 1]));
        assert(section_step(blocks, again[i], later[i], later[i + 1]));
        untouched_between(route, sections, targets, logs, i + 1, targets.len() as int, targets[i]);
        match plan_of(blocks) {
            PlanView::Run(run) => {
                refused_behind_itself(logs[i], logs[i + 1], later[i], targets[i], blocks, run);
                run_is_the_leading_blocks(blocks, run);
                assert(blocks[0] == Some(run.events[0]));
            },
            _ => {
                assert(false);
            },
        }
    }
}

/// A second import of a list of sections changes nothing.
///
/// The sections come from different origins, which the caller sends to different targets, the same
/// ones in both imports, and each section leads with an event. Then the second import reports
/// every section as a mismatch at its first version, in order, whether the first import could
/// place it or not; short of a failure of the store it succeeds.
pub proof fn reimport_of_sections_is_refused<S: RawEventStore, R: Fn(&[u8]) -> StreamKey>(
    route: R,
    sections: Seq<(Seq<u8>, Seq<Option<EventView>>)>,
    before: Seq<LogEntry>,
    between: Seq<LogEntry>,
    after: Seq<LogEntry>,
    first: Result<ImportReport, ImportError<S::Error>>,
    again: Result<ImportReport, ImportError<S::Error>>,
)
    requires
        forall|origin: Seq<u8>, a: Seq<u8>, b: Seq<u8>| #[trigger]
            routes_to(route, origin, a) && #[trigger] routes_to(route, origin, b) ==> a == b,
        forall|origin: Seq<u8>, other: Seq<u8>, target: Seq<u8>| #[trigger]
            routes_to(route, origin, target) && #[trigger] routes_to(route, other, target)
                ==> origin == other,
        forall|i: int, j: int|
            0 <= i < j < sections.len() ==> (#[trigger] sections[i]).0 != (
            #[trigger] sections[j]).0,
        forall|i: int|
            0 <= i < sections.len() ==> lead_of((#[trigger] sections[i]).1) is Some,
        first is Ok,
        per_stream_result::<S, R>(route, sections, before, between, first),
        per_stream_result::<S, R>(route, sections, between, after, again),
    ensures
        after == between,
        match again {
            Ok(report) => {
                &&& report@.len() == sections.len()
                &&& forall|i: int|
                    0 <= i < sections.len() ==> routes_to(
                        route,
                        sections[i].0,
                        (#[trigger] report@[i]).0,
                    ) && report@[i].1 == (StreamOutcome::Mismatch {
                        reached: None,
                        got: version_at(sections[i].1[0]->0.version),
                    })
            },
            Err(error) => error is Store,
        },
{
    let (targets, logs) = choose|targets: Seq<Seq<u8>>, logs: Seq<Seq<LogEntry>>|
        {
            &&& #[trigger] per_stream_ran::<S, R>(route, sections, targets, logs, first)
            &&& logs[0] == before
            &&& logs.last() == between
        };
    let (later_targets, later) = choose|targets: Seq<Seq<u8>>, logs: Seq<Seq<LogEntry>>|
        {
            &&& #[trigger] per_stream_ran::<S, R>(route, sections, targets, logs, again)
            &&& logs[0] == between
            &&& logs.last() == after
        };
    assert forall|i: int| 0 <= i < later_targets.len() implies (#[trigger] later_targets[i])
        == targets[i] by {
        assert(routes_to(route, sections[i].0, targets[i]));
        assert(routes_to(route, sections[i].0, later_targets[i]));
    }
    assert forall|i: int, j: int| 0 <= i < j < targets.len() implies (#[trigger] targets[i]) != (
    #[trigger] targets[j]) by {
        assert(routes_to(route, sections[i].0, targets[i]));
        assert(routes_to(route, sections[j].0, targets[j]));
        assert(sections[i].0 != sections[j].0);
    }
    let n = later_targets.len();
    refused_again_upto(route, sections, targets, logs, later_targets, later, n);
    if n < sections.len() {
        let i = n as int;
        assert(section_step(sections[i].1, targets[i], logs[i], logs[i + 1]));
    }
    if let Ok(report) = again {
        assert forall|i: int| 0 <= i < sections.len() implies routes_to(
            route,
            sections[i].0,
            (#[trigger] report@[i]).0,
        ) && report@[i].1 == (StreamOutcome::Mismatch {
            reached: None,
            got: version_at(sections[i].1[0]->0.version),
        }) by {
            assert(routes_to(route, sections[i].0, targets[i]));
        }
    }
}

/// One section holds back only itself: a section for another target fares as if the first were
/// not there, and the first leaves the second's target alone.
pub proof fn sections_are_isolated(
    before: Seq<LogEntry>,
    after: Seq<LogEntry>,
    target: Seq<u8>,
    blocks: Seq<Option<EventView>>,
    other_target: Seq<u8>,
    other_blocks: Seq<Option<EventView>>,
)
    requires
        section_step(blocks, target, before, after),
        other_target != target,
    ensures
        stream_of(after, other_target) == stream_of(before, other_target),
        section_report(other_blocks, other_target, after) == section_report(
            other_blocks,
            other_target,
            before,
        ),
{
    match plan_of(blocks) {
        PlanView::Run(run) => {
            if accepts(before, target, run_expects(run), run.events) {
                stream_of_extended(before, after, target, run.events, other_target);
            }
        },
        _ => {},
    }
}

/// An import stream by stream only appends: the log it found is the beginning of the log it
/// leaves.
pub proof fn import_only_appends<R: Fn(&[u8]) -> StreamKey>(
    route: R,
    sections: Seq<(Seq<u8>, Seq<Option<EventView>>)>,
    targets: Seq<Seq<u8>>,
    logs: Seq<Seq<LogEntry>>,
)
    requires
        sections_ran(route, sections, targets, logs),
    ensures
        logs[0].len() <= logs.last().len(),
        logs.last().take(logs[0].len() as int) == logs[0],
{
    appended_upto(route, sections, targets, logs, targets.len() as int);
}

proof fn appended_upto<R: Fn(&[u8]) -> StreamKey>(
    route: R,
    sections: Seq<(Seq<u8>, Seq<Option<EventView>>)>,
    targets: Seq<Seq<u8>>,
    logs: Seq<Seq<LogEntry>>,
    n: int,
)
    requires
        sections_ran(route, sections, targets, logs),
        0 <= n <= targets.len(),
    ensures
        logs[0].len() <= logs[n].len(),
        logs[n].take(logs[0].len() as int) == logs[0],
    decreases n,
{
    let first = logs[0];
    if n == 0 {
        assert(first.take(first.len() as int) =~= first);
    } else {
        appended_upto(route, sections, targets, logs, n - 1);
        let i = n - 1;
        assert(section_step(sections[i].1, targets[i], logs[i], logs[i + 1]));
        let middle = logs[i];
        let last = logs[n];
        if last != middle {
            assert(last.take(middle.len() as int) == middle);
            assert(last.take(first.len() as int) =~= middle.take(first.len() as int));
        }
    }
}

/// Two writes of one transaction that expect the same head of the same stream cannot both land.
pub proof fn same_expectation_fits_once(log: Seq<LogEntry>, writes: Seq<WriteView>, i: int, j: int)
    requires
        0 <= i < j < writes.len(),
        writes[i].target == writes[j].target,
        writes[i].expected == writes[j].expected,
        writes[i].events.len() > 0,
        running_len(log, writes, j) <= u64::MAX,
        write_fits(log, writes, i),
    ensures
        !write_fits(log, writes, j),
{
    let key = writes[i].target;
    len_after_write(log, writes, i, key);
    lengths_grow(log, writes, i + 1, j, key);
    let n = running_len(log, writes, i);
    let m = running_len(log, writes, j);
    assert(n < m);
    if n > 0 {
        assert(version_at(n)@ == n);
    }
    assert(version_at(m)@ == m);
}

proof fn lengths_grow(log: Seq<LogEntry>, writes: Seq<WriteView>, i: int, j: int, key: Seq<u8>)
    requires
        0 <= i <= j <= writes.len(),
    ensures
        len_after(log, writes, i, key) <= len_after(log, writes, j, key),
    decreases j - i,
{
    if i < j {
        len_after_write(log, writes, i, key);
        lengths_grow(log, writes, i + 1, j, key);
    }
}

/// All or nothing: an import of a whole chunk that fails leaves the log as it was; one that
/// succeeds took every block of every section.
pub proof fn whole_chunk_is_all_or_nothing<S: AtomicAppend, R: Fn(&[u8]) -> StreamKey>(
    route: R,
    sections: Seq<(Seq<u8>, Seq<Option<EventView>>)>,
    before: S,
    after: Seq<LogEntry>,
    r: Result<ImportReport, ImportError<S::Error>>,
)
    requires
        whole_chunk_result::<S, R>(route, sections, before, after, r),
    ensures
        r is Err ==> after == before.log(),
        r is Ok ==> forall|i: int, b: int|
            0 <= i < sections.len() && 0 <= b < sections[i].1.len() ==> (
            #[trigger] sections[i].1[b]) is Some,
{
    let targets = choose|targets: Seq<Seq<u8>>| #[trigger]
        chunk_ran::<S, R>(route, sections, targets, before, after, r);
    if r is Ok {
        assert(scan_chunk(before.log(), sections, targets) is Clean);
                assert forall|i: int, b: int|
            0 <= i < sections.len() && 0 <= b < sections[i].1.len() implies (
        #[trigger] sections[i].1[b]) is Some by {
            clean_section(before.log(), sections, targets, i);
        }
    }
}

proof fn clean_upto(
    before: Seq<LogEntry>,
    sections: Seq<(Seq<u8>, Seq<Option<EventView>>)>,
    targets: Seq<Seq<u8>>,
    n: int,
)
    requires
        0 <= n <= targets.len(),
        scan_chunk(before, sections, targets) is Clean,
    ensures
        scan_chunk(before, sections, targets.take(n)) is Clean,
    decreases targets.len() - n,
{
    if n == targets.len() {
        assert(targets.take(n) =~= targets);
    } else {
        clean_upto(before, sections, targets, n + 1);
        assert(targets.take(n + 1).drop_last() =~= targets.take(n));
    }
}

proof fn clean_section(
    before: Seq<LogEntry>,
    sections: Seq<(Seq<u8>, Seq<Option<EventView>>)>,
    targets: Seq<Seq<u8>>,
    i: int,
)
    requires
        0 <= i < targets.len() <= sections.len(),
        scan_chunk(before, sections, targets) is Clean,
        sound_lead(sections[i].1),
    ensures
        forall|b: int| 0 <= b < sections[i].1.len() ==> (#[trigger] sections[i].1[b]) is Some,
{
    clean_upto(before, sections, targets, i + 1);
    let upto = targets.take(i + 1);
    assert(upto[upto.len() - 1] == targets[i]);
    let blocks = sections[i].1;
    match plan_of(blocks) {
        PlanView::Run(run) => {
            run_is_the_leading_blocks(blocks, run);
            assert forall|b: int| 0 <= b < blocks.len() implies (#[trigger] blocks[b]) is Some by {
                assert(blocks[b] == Some(run.events[b]));
            }
        },
        _ => {},
    }
}

/// The first offender wins: an all-or-nothing import that aborts does so for the first section that
/// offends, as long as the heads that tell can be read. The sections before it all continue their
/// targets and hold nothing bad. The section itself offends by its run first, if that does not
/// continue its target once the runs before it are counted in, and only then by what ended the run.
pub proof fn first_offender_wins<S: AtomicAppend, R: Fn(&[u8]) -> StreamKey>(
    route: R,
    sections: Seq<(Seq<u8>, Seq<Option<EventView>>)>,
    before: S,
    after: Seq<LogEntry>,
    error: ImportError<S::Error>,
)
    requires
        whole_chunk_result::<S, R>(route, sections, before, after, Err(error)),
        !(error is Store),
        forall|writes: Seq<WriteView>| !(#[trigger] head_unread(before, writes)),
    ensures
        after == before.log(),
        exists|targets: Seq<Seq<u8>>, i: int| #[trigger]
            offends_first(route, sections, before.log(), targets, i, error),
{
    let r = Err::<ImportReport, ImportError<S::Error>>(error);
    let targets = choose|targets: Seq<Seq<u8>>| #[trigger]
        chunk_ran::<S, R>(route, sections, targets, before, after, r);
    let i = offender(before.log(), sections, targets);
    assert(targets.take(i + 1).drop_last() =~= targets.take(i));
    assert(targets.take(i + 1)[i] == targets[i]);
    assert(offends_first(route, sections, before.log(), targets, i, error));
}

/// Section `i` is the first that offends, and `error` says how.
pub open spec fn offends_first<R: Fn(&[u8]) -> StreamKey, E>(
    route: R,
    sections: Seq<(Seq<u8>, Seq<Option<EventView>>)>,
    log: Seq<LogEntry>,
    targets: Seq<Seq<u8>>,
    i: int,
    error: ImportError<E>,
) -> bool {
    &&& 0 <= i < targets.len() <= sections.len()
    &&& forall|j: int|
        0 <= j <= i ==> #[trigger] routes_to(route, sections[j].0, targets[j])
    &&& scan_chunk(log, sections, targets.take(i)) matches ScanView::Clean(writes) && {
        let more = with_lead(writes, targets[i], sections[i].1);
        let n = writes.len() as int;
        if lead_of(sections[i].1) is Some && !write_fits(log, more, n) {
            fault_view(error) == Some(stale_fault(log, more, n))
        } else {
            section_fault(targets[i], sections[i].1) is Some && fault_view(error) == section_fault(
                targets[i],
                sections[i].1,
            )
        }
    }
}

/// The first section at which the scan of a chunk finds an offence.
proof fn offender(
    log: Seq<LogEntry>,
    sections: Seq<(Seq<u8>, Seq<Option<EventView>>)>,
    targets: Seq<Seq<u8>>,
) -> (i: int)
    requires
        scan_chunk(log, sections, targets) is Offence,
    ensures
        0 <= i < targets.len(),
        scan_chunk(log, sections, targets.take(i)) is Clean,
        scan_chunk(log, sections, targets.take(i + 1)) == scan_chunk(log, sections, targets),
    decreases targets.len(),
{
    let n = targets.len() - 1;
    assert(targets.take(n) =~= targets.drop_last());
    assert(targets.take(n + 1) =~= targets);
    if scan_chunk(log, sections, targets.drop_last()) is Clean {
        n
    } else {
        let i = offender(log, sections, targets.drop_last());
        assert(targets.drop_last().take(i) =~= targets.take(i));
        assert(targets.drop_last().take(i + 1) =~= targets.take(i + 1));
        i
    }
}

/// Every section that holds blocks is reported once, under the target that the caller chose.
pub proof fn one_report_for_each_section_with_blocks(
    blocks: Seq<Option<EventView>>,
    target: Seq<u8>,
    log: Seq<LogEntry>,
)
    requires
        !(plan_of(blocks) is Overflow),
    ensures
        section_report(blocks, target, log).len() == (if blocks.len() == 0 {
            0nat
        } else {
            1nat
        }),
        blocks.len() > 0 ==> section_report(blocks, target, log)[0].0 == target,
{
}

/// A transaction that lands puts every write where it was meant to go: behind the head that the
/// write's target had once the writes before it were in.
pub proof fn every_write_lands_in_its_place<P: AllPosition, E>(
    before: Seq<LogEntry>,
    after: Seq<LogEntry>,
    writes: Seq<WriteView>,
    position: Option<P>,
    i: int,
)
    requires
        atomic_reply::<P, E>(before, after, writes, Ok(position)),
        0 <= i < writes.len(),
    ensures
        ({
            let start = running_len(before, writes, i) as int;
            let end = start + writes[i].events.len();
            &&& end <= stream_of(after, writes[i].target).len()
            &&& stream_of(after, writes[i].target).subrange(start, end) == writes[i].events
        }),
{
    let key = writes[i].target;
    let old_stream = stream_of(before, key);
    let ahead = routed(planned_rows(writes.take(i)), key);
    let own = writes[i].events;
    let rest = planned_rows(writes.skip(i + 1));
    stream_of_grown(before, after, planned_rows(writes), key);
    len_after_write(before, writes, i, key);
    assert(writes.take(i + 1) + writes.skip(i + 1) =~= writes);
    planned_rows_of_sum(writes.take(i + 1), writes.skip(i + 1));
    routed_of_sum(planned_rows(writes.take(i + 1)), rest, key);
    routed_of_sum(planned_rows(writes.take(i)), rows_for(key, own), key);
    routed_of_stream(key, own, key);
    let start = running_len(before, writes, i) as int;
    assert(stream_of(after, key) == old_stream + ((ahead + own) + routed(rest, key)));
    assert(stream_of(after, key).subrange(start, start + own.len()) =~= own);
}

proof fn planned_rows_of_sum(a: Seq<WriteView>, b: Seq<WriteView>)
    ensures
        planned_rows(a + b) == planned_rows(a) + planned_rows(b),
    decreases b.len(),
{
    if b.len() == 0 {
        assert(a + b =~= a);
        assert(planned_rows(a) + planned_rows(b) =~= planned_rows(a));
    } else {
        planned_rows_of_sum(a, b.drop_last());
        assert((a + b).drop_last() =~= a + b.drop_last());
        assert((a + b).last() == b.last());
        assert(planned_rows(a + b) =~= planned_rows(a) + planned_rows(b));
    }
}

/// A transaction that is refused changes nothing, and names the first write that does not continue
/// its target.
pub proof fn refused_transaction_changes_nothing<P: AllPosition, E>(
    before: Seq<LogEntry>,
    after: Seq<LogEntry>,
    writes: Seq<WriteView>,
    e: AtomicAppendError<E>,
)
    requires
        atomic_reply::<P, E>(before, after, writes, Err(e)),
    ensures
        after == before,
        e matches AtomicAppendError::Conflict { index, .. } ==> index < writes.len()
            && !write_fits(before, writes, index as int) && forall|i: int|
            0 <= i < index ==> #[trigger] write_fits(before, writes, i),
{
}

} // verus!
