//! What an import does, block by block, and what it reports.
//!
//! A block continues a stream of `n` events if it holds the event of version `n + 1`. Everything
//! here is said in these terms alone: which blocks were applied, what the streams hold then, and
//! what the caller is told.

use crate::envelope::{pending_views, EventView, PendingBatch};
use crate::error::AppendError;
use crate::import::{
    block_versions, chunk_ran, completed, fault_view, first_stale, head_unread, import_per_stream,
    import_whole_chunk, is_unfinished, latest_for, lead_of, leading_events, map_atomic_conflict,
    per_stream_ran, per_stream_result, plan_of, plan_section, planned_chunk, planned_rows,
    report_views, reports_upto, routes_to, run_expects, run_len, running_head, running_len,
    scan_chunk, scan_section, section_fault, section_report, section_step, section_views,
    sections_ran, sound_lead, stream_head, whole_chunk_result, with_lead, write_fits, write_views,
    AbortReason, AtomicAppend, AtomicAppendError, Atomicity, ChunkImport, EventImporter, Halt,
    ImportBlock, ImportError, ImportReport, PerStreamImport, PlanError, PlanView, PlannedAppend,
    ScanView, SectionPlan, SectionRun, StreamOutcome, StreamReport, StreamRun, StreamSection,
    WriteView,
};
use crate::laws::import::run_is_the_leading_blocks;
use crate::log::{
    accepts, dense, leading_run_bounds, log_ok, routed, routed_of_stream, routed_of_sum, rows_for,
    stream_of, stream_of_extended, stream_of_grown, LogEntry,
};
use crate::octets::octets;
use crate::store::RawEventStore;
use crate::stream_key::StreamKey;
use crate::version::{group_version, head_at, version_at, Version};
use vstd::prelude::*;

verus! {

broadcast use group_version;

// ── Vocabulary ──────────────────────────────────────────────────────────────────────────────────

/// Of a section's blocks, the first `k` continue a stream of `n` events, one behind the other, and
/// the next one, if there is one, does not.
pub open spec fn continues(blocks: Seq<Option<EventView>>, n: nat, k: nat) -> bool {
    &&& k <= blocks.len()
    &&& forall|b: int|
        0 <= b < k ==> ((#[trigger] blocks[b]) matches Some(event) && event.version == n + b + 1)
    &&& k < blocks.len() ==> !(blocks[k as int] matches Some(event) && event.version == n + k + 1)
}

/// The events of the first `k` blocks.
pub open spec fn events_in(blocks: Seq<Option<EventView>>, k: nat) -> Seq<EventView> {
    Seq::new(k, |b: int| blocks[b]->0)
}

/// What the first `m` sections bring to the stream `key`, where section `i` goes to `targets[i]`
/// and its first `taken[i]` blocks are applied.
pub open spec fn brought(
    sections: Seq<(Seq<u8>, Seq<Option<EventView>>)>,
    targets: Seq<Seq<u8>>,
    taken: Seq<nat>,
    m: nat,
    key: Seq<u8>,
) -> Seq<EventView>
    decreases m,
{
    if m == 0 {
        Seq::empty()
    } else {
        let i = m - 1;
        let earlier = brought(sections, targets, taken, i as nat, key);
        if targets[i] == key {
            earlier + events_in(sections[i].1, taken[i])
        } else {
            earlier
        }
    }
}

/// How long the target of section `i` is when its turn comes.
pub open spec fn length_at(
    before: Seq<LogEntry>,
    sections: Seq<(Seq<u8>, Seq<Option<EventView>>)>,
    targets: Seq<Seq<u8>>,
    taken: Seq<nat>,
    i: int,
) -> nat {
    stream_of(before, targets[i]).len() + brought(sections, targets, taken, i as nat,
        targets[i]).len()
}

/// The first `taken.len()` sections were applied, in order, each as far as its blocks continue its
/// target, and nothing else happened: every stream holds what it held, and behind it what the
/// sections brought.
pub open spec fn applied(
    before: Seq<LogEntry>,
    after: Seq<LogEntry>,
    sections: Seq<(Seq<u8>, Seq<Option<EventView>>)>,
    targets: Seq<Seq<u8>>,
    taken: Seq<nat>,
) -> bool {
    &&& taken.len() <= targets.len()
    &&& taken.len() <= sections.len()
    &&& forall|i: int|
        0 <= i < taken.len() ==> continues(
            sections[i].1,
            length_at(before, sections, targets, taken, i),
            #[trigger] taken[i],
        )
    &&& forall|key: Seq<u8>| #[trigger]
        stream_of(after, key) == stream_of(before, key) + brought(
            sections,
            targets,
            taken,
            taken.len(),
            key,
        )
}

/// The caller chose these targets.
pub open spec fn chosen<R: Fn(&[u8]) -> StreamKey>(
    route: R,
    sections: Seq<(Seq<u8>, Seq<Option<EventView>>)>,
    targets: Seq<Seq<u8>>,
) -> bool {
    forall|i: int|
        0 <= i < targets.len() ==> #[trigger] routes_to(route, sections[i].0, targets[i])
}

/// `reached` is the version of the last of the first `k` blocks; `None` where there is none.
pub open spec fn reached_by(
    blocks: Seq<Option<EventView>>,
    k: nat,
    reached: Option<Version>,
) -> bool {
    match reached {
        None => k == 0,
        Some(version) => 0 < k <= blocks.len() && (blocks[k - 1] matches Some(event) && version@
            == event.version),
    }
}

/// An outcome tells what happened to a section of which `k` blocks were applied: complete if and
/// only if all of them were; else what the next block is that was held back, corrupt or out of
/// line, and where the stream was left.
pub open spec fn tells(blocks: Seq<Option<EventView>>, k: nat, outcome: StreamOutcome) -> bool {
    match outcome {
        StreamOutcome::Complete { version } => k == blocks.len() && reached_by(
            blocks,
            k,
            Some(version),
        ),
        StreamOutcome::Corrupt { reached } => k < blocks.len() && blocks[k as int] is None
            && reached_by(blocks, k, reached),
        StreamOutcome::Mismatch { reached, got } => k < blocks.len() && (
        blocks[k as int] matches Some(event) && got == version_at(event.version)) && reached_by(
            blocks,
            k,
            reached,
        ),
    }
}

/// The sections with blocks among the first `m`, in order.
pub open spec fn with_blocks(
    sections: Seq<(Seq<u8>, Seq<Option<EventView>>)>,
    m: nat,
) -> Seq<int>
    decreases m,
{
    if m == 0 {
        Seq::empty()
    } else {
        let earlier = with_blocks(sections, (m - 1) as nat);
        if sections[m - 1].1.len() > 0 {
            earlier.push(m - 1)
        } else {
            earlier
        }
    }
}

/// A report has one line for each section with blocks, in order: its target, and what happened.
pub open spec fn reported(
    lines: Seq<(Seq<u8>, StreamOutcome)>,
    sections: Seq<(Seq<u8>, Seq<Option<EventView>>)>,
    targets: Seq<Seq<u8>>,
    taken: Seq<nat>,
) -> bool {
    let told = with_blocks(sections, taken.len());
    &&& lines.len() == told.len()
    &&& forall|j: int|
        0 <= j < lines.len() ==> (#[trigger] lines[j]).0 == targets[told[j]] && tells(
            sections[told[j]].1,
            taken[told[j]],
            lines[j].1,
        )
}

/// Every block of the first `m` sections.
pub open spec fn all_blocks(sections: Seq<(Seq<u8>, Seq<Option<EventView>>)>, m: nat) -> Seq<nat> {
    Seq::new(m, |i: int| sections[i].1.len())
}

/// The blocks count up, one event behind the other, to the last version there is, and then another
/// event follows.
pub open spec fn runs_out(blocks: Seq<Option<EventView>>) -> bool {
    exists|k: int| #[trigger] last_version_at(blocks, k)
}

/// The blocks before block `k` count up to the last version there is, and block `k` is an event.
pub open spec fn last_version_at(blocks: Seq<Option<EventView>>, k: int) -> bool {
    &&& 0 < k < blocks.len()
    &&& blocks[k] is Some
    &&& forall|b: int|
        0 <= b < k ==> ((#[trigger] blocks[b]) matches Some(event) && event.version + (k - 1 - b)
            == u64::MAX)
}

/// The versions of every stream count up from 1, and fit.
pub open spec fn streams_ok(log: Seq<LogEntry>) -> bool {
    forall|key: Seq<u8>|
        dense(#[trigger] stream_of(log, key), 0) && stream_of(log, key).len() <= u64::MAX
}

/// What a section is seen as: its origin, and of each block the event it holds, or nothing where it
/// is corrupt.
pub proof fn sections_are_seen_as_they_are(sections: &[StreamSection], i: int, b: int)
    requires
        0 <= i < sections@.len(),
        0 <= b < sections@[i].blocks@.len(),
    ensures
        section_views(sections@).len() == sections@.len(),
        section_views(sections@)[i] == sections@[i]@,
        sections@[i]@.0 == octets(sections@[i].origin),
        sections@[i]@.1.len() == sections@[i].blocks@.len(),
        match sections@[i].blocks@[b] {
            ImportBlock::Event(event) => sections@[i]@.1[b] == Some(event@),
            ImportBlock::Corrupt => sections@[i]@.1[b] is None,
        },
{
}

// ── One section ─────────────────────────────────────────────────────────────────────────────────

/// How many blocks continue a stream is determined.
pub proof fn continued_is_determined(
    blocks: Seq<Option<EventView>>,
    n: nat,
    k: nat,
    l: nat,
)
    requires
        continues(blocks, n, k),
        continues(blocks, n, l),
    ensures
        k == l,
{
    if k < l {
        assert(blocks[k as int] is Some);
    }
    if l < k {
        assert(blocks[l as int] is Some);
    }
}

/// The run that a section leads with, against a stream of `n` events: all of it continues the
/// stream, or nothing of the section does.
proof fn lead_against(blocks: Seq<Option<EventView>>, events: Seq<EventView>, n: nat)
    requires
        sound_lead(blocks),
        lead_of(blocks) == Some(events),
        n <= u64::MAX,
    ensures
        1 <= events.len() <= blocks.len(),
        events == events_in(blocks, events.len()),
        continues(blocks, (events[0].version - 1) as nat, events.len()),
        events.last().version == events[0].version + events.len() - 1,
        head_at((events[0].version - 1) as nat) == head_at(n) && dense(events, n) <==> continues(
            blocks,
            n,
            events.len(),
        ),
        !(head_at((events[0].version - 1) as nat) == head_at(n) && dense(events, n)) ==> continues(
            blocks,
            n,
            0,
        ) && events[0].version != n + 1,
{
    lead_counts_up(blocks, events);
    let first = (events[0].version - 1) as nat;
    if head_at(first) == head_at(n) {
        if first > 0 {
            assert(version_at(first)@ == first);
        }
        if n > 0 {
            assert(version_at(n)@ == n);
        }
        assert(first == n);
    }
    assert(blocks[0] == Some(events[0]));
    if continues(blocks, n, events.len()) {
        assert(blocks[0]->0.version == n + 1);
        assert forall|i: int| 0 <= i < events.len() implies (#[trigger] events[i]).version == n + i
            + 1 by {
            assert(blocks[i] == Some(events[i]));
        }
    }
    if first == n {
        assert(dense(events, n));
    }
}

proof fn lead_counts_up(blocks: Seq<Option<EventView>>, events: Seq<EventView>)
    requires
        sound_lead(blocks),
        lead_of(blocks) == Some(events),
    ensures
        1 <= events.len() <= blocks.len(),
        events == events_in(blocks, events.len()),
        forall|i: int| 0 <= i < events.len() ==> blocks[i] == Some(#[trigger] events[i]),
        dense(events, (events[0].version - 1) as nat),
        continues(blocks, (events[0].version - 1) as nat, events.len()),
        events.last().version == events[0].version + events.len() - 1,
        1 <= events[0].version,
        events.last().version <= u64::MAX,
{
    let base = blocks[0]->0.version;
    let versions = block_versions(blocks.skip(1));
    leading_run_bounds(versions, base);
    let n = run_len(blocks);
    assert(events == leading_events(blocks, n));
    assert forall|i: int| 0 <= i < n implies blocks[i] == Some(#[trigger] events[i])
        && events[i].version == base + i by {
        if i > 0 {
            assert(versions[i - 1] == Some((base + (i - 1) + 1) as nat));
            assert(blocks.skip(1)[i - 1] == blocks[i]);
        }
    }
    assert(events =~= events_in(blocks, n));
    assert(events.last() == events[n - 1]);
    assert forall|b: int| 0 <= b < n implies ((#[trigger] blocks[b]) matches Some(event)
        && event.version == (base - 1) + b + 1) by {
        assert(blocks[b] == Some(events[b]));
    }
    if n < blocks.len() {
        assert(versions[n - 1] != Some((base + (n - 1) + 1) as nat));
        assert(blocks.skip(1)[n - 1] == blocks[n as int]);
    }
}

/// A stream that `events` continue stays sound.
proof fn sound_behind(before: Seq<LogEntry>, after: Seq<LogEntry>, target: Seq<u8>,
    events: Seq<EventView>)
    requires
        streams_ok(before),
        events.len() > 0,
        dense(events, stream_of(before, target).len()),
        events.last().version <= u64::MAX,
        forall|key: Seq<u8>| #[trigger]
            stream_of(after, key) == (if key == target {
                stream_of(before, key) + events
            } else {
                stream_of(before, key)
            }),
    ensures
        streams_ok(after),
{
    assert(events.last() == events[events.len() - 1]);
    assert forall|key: Seq<u8>|
        dense(#[trigger] stream_of(after, key), 0) && stream_of(after, key).len() <= u64::MAX by {
        assert(dense(stream_of(before, key), 0));
    }
}

/// One section of a stream-by-stream import: the blocks that continue the target are applied, the
/// rest is held back, and the report tells which.
pub proof fn section_is_applied_as_far_as_it_continues(
    before: Seq<LogEntry>,
    after: Seq<LogEntry>,
    target: Seq<u8>,
    blocks: Seq<Option<EventView>>,
) -> (k: nat)
    requires
        streams_ok(before),
        sound_lead(blocks),
        section_step(blocks, target, before, after),
    ensures
        continues(blocks, stream_of(before, target).len(), k),
        forall|key: Seq<u8>| #[trigger]
            stream_of(after, key) == (if key == target {
                stream_of(before, key) + events_in(blocks, k)
            } else {
                stream_of(before, key)
            }),
        section_report(blocks, target, before).len() == (if blocks.len() == 0 {
            0nat
        } else {
            1nat
        }),
        blocks.len() > 0 ==> section_report(blocks, target, before)[0].0 == target && tells(
            blocks,
            k,
            section_report(blocks, target, before)[0].1,
        ),
        streams_ok(after),
{
    let n = stream_of(before, target).len();
    assert(dense(stream_of(before, target), 0));
    match plan_of(blocks) {
        PlanView::Run(run) => {
            let events = run.events;
            assert(lead_of(blocks) == Some(events));
            lead_against(blocks, events, n);
            run_is_the_leading_blocks(blocks, run);
            assert(events.last() == events[events.len() - 1]);
            assert(blocks[events.len() - 1] == Some(events[events.len() - 1]));
            assert(blocks[0] == Some(events[0]));
            if accepts(before, target, run_expects(run), events) {
                assert forall|key: Seq<u8>| #[trigger]
                    stream_of(after, key) == (if key == target {
                        stream_of(before, key) + events_in(blocks, events.len())
                    } else {
                        stream_of(before, key)
                    }) by {
                    stream_of_extended(before, after, target, events, key);
                }
                sound_behind(before, after, target, events);
                events.len()
            } else {
                assert forall|key: Seq<u8>| #[trigger]
                    stream_of(after, key) == (if key == target {
                        stream_of(before, key) + events_in(blocks, 0)
                    } else {
                        stream_of(before, key)
                    }) by {
                    assert(stream_of(before, key) + events_in(blocks, 0) =~= stream_of(before,
                        key));
                }
                0
            }
        },
        _ => {
            assert forall|key: Seq<u8>| #[trigger]
                stream_of(after, key) == (if key == target {
                    stream_of(before, key) + events_in(blocks, 0)
                } else {
                    stream_of(before, key)
                }) by {
                assert(stream_of(before, key) + events_in(blocks, 0) =~= stream_of(before, key));
            }
            0
        },
    }
}

// ── Stream by stream ────────────────────────────────────────────────────────────────────────────

/// What the first sections bring depends on those sections alone.
proof fn brought_by_prefix(
    sections: Seq<(Seq<u8>, Seq<Option<EventView>>)>,
    targets: Seq<Seq<u8>>,
    taken: Seq<nat>,
    more: Seq<nat>,
    m: nat,
    key: Seq<u8>,
)
    requires
        m <= taken.len(),
        forall|i: int| 0 <= i < m ==> (#[trigger] more[i]) == taken[i],
    ensures
        brought(sections, targets, more, m, key) == brought(sections, targets, taken, m, key),
    decreases m,
{
    if m > 0 {
        brought_by_prefix(sections, targets, taken, more, (m - 1) as nat, key);
        assert(more[m - 1] == taken[m - 1]);
    }
}

/// The sections with blocks are sections.
proof fn with_blocks_bounds(sections: Seq<(Seq<u8>, Seq<Option<EventView>>)>, m: nat)
    ensures
        forall|j: int|
            0 <= j < with_blocks(sections, m).len() ==> 0 <= (#[trigger] with_blocks(
                sections,
                m,
            )[j]) < m && sections[with_blocks(sections, m)[j]].1.len() > 0,
    decreases m,
{
    if m > 0 {
        let earlier = with_blocks(sections, (m - 1) as nat);
        with_blocks_bounds(sections, (m - 1) as nat);
        let told = with_blocks(sections, m);
        assert forall|j: int| 0 <= j < told.len() implies 0 <= (#[trigger] told[j]) < m
            && sections[told[j]].1.len() > 0 by {
            if j < earlier.len() {
                assert(told[j] == earlier[j]);
            }
        }
    }
}

/// One more section was applied.
proof fn applied_further(
    before: Seq<LogEntry>,
    middle: Seq<LogEntry>,
    after: Seq<LogEntry>,
    sections: Seq<(Seq<u8>, Seq<Option<EventView>>)>,
    targets: Seq<Seq<u8>>,
    taken: Seq<nat>,
    k: nat,
)
    requires
        applied(before, middle, sections, targets, taken),
        taken.len() < targets.len() <= sections.len(),
        continues(
            sections[taken.len() as int].1,
            stream_of(middle, targets[taken.len() as int]).len(),
            k,
        ),
        forall|key: Seq<u8>| #[trigger]
            stream_of(after, key) == (if key == targets[taken.len() as int] {
                stream_of(middle, key) + events_in(sections[taken.len() as int].1, k)
            } else {
                stream_of(middle, key)
            }),
    ensures
        applied(before, after, sections, targets, taken.push(k)),
{
    let i = taken.len() as int;
    let more = taken.push(k);
    assert forall|j: int| 0 <= j < more.len() implies continues(
        sections[j].1,
        length_at(before, sections, targets, more, j),
        #[trigger] more[j],
    ) by {
        brought_by_prefix(sections, targets, taken, more, j as nat, targets[j]);
        if j < i {
            assert(continues(
                sections[j].1,
                length_at(before, sections, targets, taken, j),
                taken[j],
            ));
        } else {
            assert(stream_of(middle, targets[i]) == stream_of(before, targets[i]) + brought(
                sections,
                targets,
                taken,
                taken.len(),
                targets[i],
            ));
        }
    }
    assert forall|key: Seq<u8>| #[trigger]
        stream_of(after, key) == stream_of(before, key) + brought(
            sections,
            targets,
            more,
            more.len(),
            key,
        ) by {
        brought_by_prefix(sections, targets, taken, more, taken.len(), key);
        assert(stream_of(middle, key) == stream_of(before, key) + brought(
            sections,
            targets,
            taken,
            taken.len(),
            key,
        ));
        if key == targets[i] {
            assert(stream_of(after, key) =~= stream_of(before, key) + (brought(
                sections,
                targets,
                taken,
                taken.len(),
                key,
            ) + events_in(sections[i].1, k)));
        }
    }
}

proof fn applied_upto<R: Fn(&[u8]) -> StreamKey>(
    route: R,
    sections: Seq<(Seq<u8>, Seq<Option<EventView>>)>,
    targets: Seq<Seq<u8>>,
    logs: Seq<Seq<LogEntry>>,
    m: nat,
) -> (taken: Seq<nat>)
    requires
        streams_ok(logs[0]),
        sections_ran(route, sections, targets, logs),
        m <= targets.len(),
    ensures
        taken.len() == m,
        applied(logs[0], logs[m as int], sections, targets, taken),
        reported(reports_upto(sections, targets, logs, m), sections, targets, taken),
        streams_ok(logs[m as int]),
    decreases m,
{
    if m == 0 {
        let none = Seq::<nat>::empty();
        assert forall|key: Seq<u8>| #[trigger]
            stream_of(logs[0], key) == stream_of(logs[0], key) + brought(
                sections,
                targets,
                none,
                0,
                key,
            ) by {
            assert(stream_of(logs[0], key) + Seq::empty() =~= stream_of(logs[0], key));
        }
        none
    } else {
        let i = m - 1;
        let taken = applied_upto(route, sections, targets, logs, i as nat);
        let (blocks, target) = (sections[i].1, targets[i]);
        assert(section_step(blocks, target, logs[i], logs[i + 1]));
        assert(sound_lead(sections[i].1));
        let k = section_is_applied_as_far_as_it_continues(logs[i], logs[i + 1], target, blocks);
        applied_further(logs[0], logs[i], logs[m as int], sections, targets, taken, k);
        let more = taken.push(k);
        let had = reports_upto(sections, targets, logs, i as nat);
        let lines = reports_upto(sections, targets, logs, m);
        let told = with_blocks(sections, m);
        with_blocks_bounds(sections, i as nat);
        with_blocks_bounds(sections, m);
        assert forall|j: int| 0 <= j < lines.len() implies (#[trigger] lines[j]).0
            == targets[told[j]] && tells(sections[told[j]].1, more[told[j]], lines[j].1) by {
            if j < had.len() {
                assert(lines[j] == had[j]);
                assert(told[j] == with_blocks(sections, i as nat)[j]);
            } else {
                assert(lines[j] == section_report(blocks, target, logs[i])[0]);
            }
        }
        more
    }
}

/// What a stream-by-stream import came to: the sections up to where it ended were applied block by
/// block, and the report tells of each what happened to it. It ends early where the store fails on
/// a section that leads with an event, or where a section runs out of versions.
pub open spec fn went_stream_by_stream<R: Fn(&[u8]) -> StreamKey, E>(
    route: R,
    sections: Seq<(Seq<u8>, Seq<Option<EventView>>)>,
    before: Seq<LogEntry>,
    after: Seq<LogEntry>,
    targets: Seq<Seq<u8>>,
    taken: Seq<nat>,
    r: Result<ImportReport, ImportError<E>>,
) -> bool {
    let m = taken.len();
    &&& chosen(route, sections, targets)
    &&& applied(before, after, sections, targets, taken)
    &&& match r {
        Ok(report) => m == sections.len() && reported(report@, sections, targets, taken),
        Err(ImportError::VersionOverflow) => m < sections.len() && runs_out(
            sections[m as int].1,
        ),
        Err(ImportError::Store(_)) => m < sections.len() && sections[m as int].1.len() > 0
            && sections[m as int].1[0] is Some,
        Err(ImportError::Aborted { .. }) => false,
    }
}

proof fn stream_by_stream<S: RawEventStore, R: Fn(&[u8]) -> StreamKey>(
    route: R,
    sections: Seq<(Seq<u8>, Seq<Option<EventView>>)>,
    before: Seq<LogEntry>,
    after: Seq<LogEntry>,
    r: Result<ImportReport, ImportError<S::Error>>,
)
    requires
        log_ok(before),
        per_stream_result::<S, R>(route, sections, before, after, r),
    ensures
        exists|targets: Seq<Seq<u8>>, taken: Seq<nat>| #[trigger]
            went_stream_by_stream(route, sections, before, after, targets, taken, r),
{
    let (targets, logs) = choose|targets: Seq<Seq<u8>>, logs: Seq<Seq<LogEntry>>|
        {
            &&& #[trigger] per_stream_ran::<S, R>(route, sections, targets, logs, r)
            &&& logs[0] == before
            &&& logs.last() == after
        };
    let m = targets.len();
    let taken = applied_upto(route, sections, targets, logs, m);
    if r is Err {
        let blocks = sections[m as int].1;
        match plan_of(blocks) {
            PlanView::Overflow => {
                overflow_runs_out(blocks);
            },
            _ => {},
        }
    }
    assert(went_stream_by_stream(route, sections, before, after, targets, taken, r));
}

proof fn overflow_runs_out(blocks: Seq<Option<EventView>>)
    requires
        plan_of(blocks) is Overflow,
    ensures
        runs_out(blocks),
{
    let n = run_len(blocks);
    let events = leading_events(blocks, n);
    let base = blocks[0]->0.version;
    let versions = block_versions(blocks.skip(1));
    leading_run_bounds(versions, base);
    assert forall|b: int| 0 <= b < n implies ((#[trigger] blocks[b]) matches Some(event)
        && event.version == base + b) by {
        if b > 0 {
            assert(versions[b - 1] == Some((base + (b - 1) + 1) as nat));
            assert(blocks.skip(1)[b - 1] == blocks[b]);
        }
    }
    assert(events.last() == blocks[n - 1]->0);
    assert(last_version_at(blocks, n as int));
}

/// An import stream by stream applies of each section the blocks that continue its target, holds
/// back the rest, and reports a section complete exactly if nothing of it was held back.
pub proof fn per_stream_import_applies_what_continues<S: RawEventStore, R: Fn(&[u8]) -> StreamKey>(
    store: &mut S,
    sections: &[StreamSection],
    route: R,
    r: Result<ImportReport, ImportError<S::Error>>,
)
    requires
        old(store).valid(),
        call_ensures(import_per_stream::<S, R>, (store, sections, route), r),
    ensures
        exists|targets: Seq<Seq<u8>>, taken: Seq<nat>| #[trigger]
            went_stream_by_stream(
                route,
                section_views(sections@),
                old(store).log(),
                final(store).log(),
                targets,
                taken,
                r,
            ),
{
    old(store).valid_log();
    stream_by_stream::<S, R>(
        route,
        section_views(sections@),
        old(store).log(),
        final(store).log(),
        r,
    );
}

/// The same of an import under the policy that each stream commits on its own.
pub proof fn per_stream_policy_applies_what_continues<S: AtomicAppend, R: Fn(&[u8]) -> StreamKey>(
    store: &mut S,
    sections: &[StreamSection],
    route: R,
    r: Result<ImportReport, ImportError<S::Error>>,
)
    requires
        old(store).valid(),
        call_ensures(
            <S as EventImporter>::import::<R>,
            (store, sections, route, Atomicity::PerStream),
            r,
        ),
    ensures
        exists|targets: Seq<Seq<u8>>, taken: Seq<nat>| #[trigger]
            went_stream_by_stream(
                route,
                section_views(sections@),
                old(store).log(),
                final(store).log(),
                targets,
                taken,
                r,
            ),
{
    old(store).valid_log();
    stream_by_stream::<S, R>(
        route,
        section_views(sections@),
        old(store).log(),
        final(store).log(),
        r,
    );
}

/// A report that every stream completed means that every block of every section was applied, and
/// one that does not means that some block was held back.
pub proof fn all_complete_means_every_block<R: Fn(&[u8]) -> StreamKey, E>(
    route: R,
    sections: Seq<(Seq<u8>, Seq<Option<EventView>>)>,
    before: Seq<LogEntry>,
    after: Seq<LogEntry>,
    targets: Seq<Seq<u8>>,
    taken: Seq<nat>,
    report: ImportReport,
    complete: bool,
)
    requires
        went_stream_by_stream::<R, E>(route, sections, before, after, targets, taken, Ok(report)),
        call_ensures(ImportReport::all_complete, (&report,), complete),
    ensures
        complete <==> taken == all_blocks(sections, sections.len()),
{
    let m = sections.len();
    let told = with_blocks(sections, m);
    with_blocks_bounds(sections, m);
    assert forall|i: int| 0 <= i < m && complete implies (#[trigger] taken[i])
        == sections[i].1.len() by {
        assert(continues(
            sections[i].1,
            length_at(before, sections, targets, taken, i),
            taken[i],
        ));
        if sections[i].1.len() > 0 {
            let j = line_of(sections, m, i);
            assert(told[j] == i);
            assert(report@[j].0 == targets[i]);
        }
    }
    if complete {
        assert(taken =~= all_blocks(sections, m));
    }
    if taken == all_blocks(sections, m) {
        assert forall|j: int| 0 <= j < report@.len() implies (#[trigger] report@[j]).1
            is Complete by {
            let i = told[j];
            assert(taken[i] == sections[i].1.len());
        }
    }
}

/// Every section with blocks has its line.
proof fn line_of(
    sections: Seq<(Seq<u8>, Seq<Option<EventView>>)>,
    m: nat,
    i: int,
) -> (j: int)
    requires
        0 <= i < m,
        sections[i].1.len() > 0,
    ensures
        0 <= j < with_blocks(sections, m).len(),
        with_blocks(sections, m)[j] == i,
    decreases m,
{
    if i == m - 1 {
        with_blocks(sections, m).len() - 1
    } else {
        line_of(sections, (m - 1) as nat, i)
    }
}

proof fn filtered_holds(lines: Seq<(Seq<u8>, StreamOutcome)>, i: int)
    requires
        0 <= i < lines.filter(is_unfinished()).len(),
    ensures
        lines.contains(lines.filter(is_unfinished())[i]),
        !(lines.filter(is_unfinished())[i].1 is Complete),
    decreases lines.len(),
{
    reveal(Seq::filter);
    let rest = lines.drop_last();
    if i < rest.filter(is_unfinished()).len() {
        filtered_holds(rest, i);
        let j = choose|j: int| 0 <= j < rest.len() && rest[j] == rest.filter(is_unfinished())[i];
        assert(lines[j] == rest[j]);
    } else {
        assert(lines[lines.len() - 1] == lines.last());
    }
}

proof fn filtered_finds(lines: Seq<(Seq<u8>, StreamOutcome)>, i: int) -> (j: int)
    requires
        0 <= i < lines.len(),
        !(lines[i].1 is Complete),
    ensures
        0 <= j < lines.filter(is_unfinished()).len(),
        lines.filter(is_unfinished())[j] == lines[i],
    decreases lines.len(),
{
    reveal(Seq::filter);
    let rest = lines.drop_last();
    if i < rest.len() {
        filtered_finds(rest, i)
    } else {
        rest.filter(is_unfinished()).len() as int
    }
}

/// What a report lists as unfinished are exactly the lines that are not complete, in order; there
/// are none exactly if all completed.
pub proof fn unfinished_are_the_others(
    report: ImportReport,
    unfinished: Vec<&StreamReport>,
    complete: bool,
)
    requires
        call_ensures(ImportReport::unfinished, (&report,), unfinished),
        call_ensures(ImportReport::all_complete, (&report,), complete),
    ensures
        complete <==> unfinished@.len() == 0,
        forall|i: int|
            0 <= i < unfinished@.len() ==> report@.contains((#[trigger] unfinished@[i])@)
                && !(unfinished@[i].outcome is Complete),
        forall|i: int|
            0 <= i < report@.len() && !((#[trigger] report@[i]).1 is Complete) ==> exists|j: int|
                0 <= j < unfinished@.len() && (#[trigger] unfinished@[j])@ == report@[i],
{
    let listed = Seq::new(unfinished@.len(), |i: int| unfinished@[i]@);
    let keep = is_unfinished();
    assert forall|i: int| 0 <= i < unfinished@.len() implies report@.contains(
        (#[trigger] unfinished@[i])@,
    ) && !(unfinished@[i].outcome is Complete) by {
        assert(listed[i] == unfinished@[i]@);
        filtered_holds(report@, i);
    }
    assert forall|i: int|
        0 <= i < report@.len() && !((#[trigger] report@[i]).1 is Complete) implies exists|j: int|
        0 <= j < unfinished@.len() && (#[trigger] unfinished@[j])@ == report@[i] by {
        let j = filtered_finds(report@, i);
        assert(listed[j] == unfinished@[j]@);
    }
    if complete && unfinished@.len() > 0 {
        filtered_holds(report@, 0);
        let i = choose|i: int| 0 <= i < report@.len() && report@[i] == listed[0];
        assert(report@[i].1 is Complete);
    }
}

// ── All or nothing ──────────────────────────────────────────────────────────────────────────────

/// The section for `target` stops at block `k`, where the target is `n` events long: `error` says
/// that the block is corrupt, or which version should have come and which came, or that there is
/// no version left.
pub open spec fn stopped<E>(
    target: Seq<u8>,
    blocks: Seq<Option<EventView>>,
    n: nat,
    k: nat,
    error: ImportError<E>,
) -> bool {
    &&& k < blocks.len()
    &&& continues(blocks, n, k)
    &&& match blocks[k as int] {
        None => error matches ImportError::Aborted { stream, reason } && stream@ == target && reason
            == AbortReason::Corrupt,
        Some(event) => if n + k == u64::MAX {
            error is VersionOverflow
        } else {
            error matches ImportError::Aborted { stream, reason } && stream@ == target && reason
                == (AbortReason::Mismatch {
                expected: version_at(n + k + 1),
                got: version_at(event.version),
            })
        },
    }
}

/// Section `i` is the first of a chunk with a block that does not continue its target, all blocks
/// of the sections before it counted in, and `error` says which block.
pub open spec fn first_stop<E>(
    log: Seq<LogEntry>,
    sections: Seq<(Seq<u8>, Seq<Option<EventView>>)>,
    targets: Seq<Seq<u8>>,
    i: int,
    error: ImportError<E>,
) -> bool {
    let whole = all_blocks(sections, i as nat);
    &&& 0 <= i < sections.len()
    &&& i < targets.len()
    &&& forall|j: int|
        0 <= j < i ==> continues(
            sections[j].1,
            length_at(log, sections, targets, whole, j),
            #[trigger] whole[j],
        )
    &&& exists|k: nat| #[trigger]
        stopped(
            targets[i],
            sections[i].1,
            length_at(log, sections, targets, whole, i),
            k,
            error,
        )
}

/// The blocks of a section are events that count up, from whatever version the first one has.
pub open spec fn counts_up(blocks: Seq<Option<EventView>>) -> bool {
    exists|n: nat| #[trigger] continues(blocks, n, blocks.len())
}

/// Section `i` is the first of a chunk whose blocks do not count up, and `error` says which block
/// is at fault, whatever the store holds.
pub open spec fn first_break<E>(
    sections: Seq<(Seq<u8>, Seq<Option<EventView>>)>,
    targets: Seq<Seq<u8>>,
    i: int,
    error: ImportError<E>,
) -> bool {
    &&& 0 <= i < sections.len()
    &&& i < targets.len()
    &&& forall|j: int| 0 <= j < i ==> counts_up((#[trigger] sections[j]).1)
    &&& !counts_up(sections[i].1)
    &&& exists|n: nat, k: nat| #[trigger] stopped(targets[i], sections[i].1, n, k, error)
}

/// The chunk is refused for section `i`: it is the first one with a block that does not continue its
/// target, or else some head cannot be read and it is the first one whose blocks do not count up.
pub open spec fn aborts_at<S: RawEventStore>(
    before: S,
    sections: Seq<(Seq<u8>, Seq<Option<EventView>>)>,
    targets: Seq<Seq<u8>>,
    i: int,
    error: ImportError<S::Error>,
) -> bool {
    ||| first_stop(before.log(), sections, targets, i, error)
    ||| {
        &&& first_break(sections, targets, i, error)
        &&& exists|writes: Seq<WriteView>| #[trigger] head_unread(before, writes)
    }
}

/// What an all-or-nothing import came to. It succeeds only if every block of every section was
/// applied; otherwise nothing changed, and the first block that does not continue its target is
/// named. Only where a head cannot be read may a later section be named instead, one whose own
/// blocks do not count up.
pub open spec fn went_all_or_nothing<S: AtomicAppend, R: Fn(&[u8]) -> StreamKey>(
    route: R,
    sections: Seq<(Seq<u8>, Seq<Option<EventView>>)>,
    before: S,
    after: Seq<LogEntry>,
    targets: Seq<Seq<u8>>,
    r: Result<ImportReport, ImportError<S::Error>>,
) -> bool {
    let whole = all_blocks(sections, sections.len());
    &&& chosen(route, sections, targets)
    &&& match r {
        Ok(report) => {
            &&& targets.len() == sections.len()
            &&& applied(before.log(), after, sections, targets, whole)
            &&& reported(report@, sections, targets, whole)
        },
        Err(ImportError::Store(_)) => {
            &&& targets.len() == sections.len()
            &&& forall|i: int| 0 <= i < sections.len() ==> counts_up((#[trigger] sections[i]).1)
            &&& after == before.log()
        },
        Err(error) => {
            &&& after == before.log()
            &&& exists|i: int| #[trigger] aborts_at(before, sections, targets, i, error)
        },
    }
}

/// A section without fault counts up.
proof fn faultless_counts_up(target: Seq<u8>, blocks: Seq<Option<EventView>>)
    requires
        sound_lead(blocks),
    ensures
        section_fault(target, blocks) is None <==> counts_up(blocks),
        section_fault(target, blocks) is None ==> (match lead_of(blocks) {
            None => blocks.len() == 0,
            Some(events) => events.len() == blocks.len(),
        }),
{
    match lead_of(blocks) {
        None => {
            if blocks.len() == 0 {
                assert(continues(blocks, 0, 0));
            } else if counts_up(blocks) {
                let n = choose|n: nat| #[trigger] continues(blocks, n, blocks.len());
                assert(blocks[0] is Some);
            }
        },
        Some(events) => {
            lead_counts_up(blocks, events);
            if counts_up(blocks) {
                let n = choose|n: nat| #[trigger] continues(blocks, n, blocks.len());
                assert(blocks[0] == Some(events[0]));
                assert(blocks[0]->0.version == n + 1);
                continued_is_determined(blocks, n, blocks.len(), events.len());
            }
        },
    }
}

/// What is wrong with a section's own blocks is said of the block that ends its run.
proof fn fault_stops<E>(
    target: Seq<u8>,
    blocks: Seq<Option<EventView>>,
    n: nat,
    error: ImportError<E>,
)
    requires
        sound_lead(blocks),
        fault_view(error) == section_fault(target, blocks),
        section_fault(target, blocks) is Some,
        lead_of(blocks) matches Some(events) ==> n == events[0].version - 1,
    ensures
        exists|k: nat| #[trigger] stopped(target, blocks, n, k, error),
{
    match lead_of(blocks) {
        None => {
            assert(continues(blocks, n, 0));
            assert(stopped(target, blocks, n, 0, error));
        },
        Some(events) => {
            lead_counts_up(blocks, events);
            assert(run_len(blocks) == events.len());
            assert(stopped(target, blocks, n, events.len(), error));
        },
    }
}

/// A clean chunk takes every block.
proof fn clean_takes_all(
    log: Seq<LogEntry>,
    sections: Seq<(Seq<u8>, Seq<Option<EventView>>)>,
    targets: Seq<Seq<u8>>,
    writes: Seq<WriteView>,
)
    requires
        streams_ok(log),
        targets.len() <= sections.len(),
        forall|i: int| 0 <= i < targets.len() ==> sound_lead((#[trigger] sections[i]).1),
        scan_chunk(log, sections, targets) == ScanView::Clean(writes),
    ensures
        ({
            let m = targets.len();
            let whole = all_blocks(sections, m);
            &&& forall|i: int|
                0 <= i < m ==> continues(
                    sections[i].1,
                    length_at(log, sections, targets, whole, i),
                    #[trigger] whole[i],
                )
            &&& forall|key: Seq<u8>| #[trigger]
                routed(planned_rows(writes), key) == brought(sections, targets, whole, m, key)
            &&& forall|key: Seq<u8>|
                stream_of(log, key).len() + (#[trigger] brought(sections, targets, whole, m,
                    key)).len()
                    <= u64::MAX
            &&& reported(completed(writes), sections, targets, whole)
        }),
    decreases targets.len(),
{
    let m = targets.len();
    let whole = all_blocks(sections, m);
    if m == 0 {
        assert forall|key: Seq<u8>|
            stream_of(log, key).len() + (#[trigger] brought(sections, targets, whole, m, key)).len()
                <= u64::MAX by {
            assert(dense(stream_of(log, key), 0));
        }
        assert forall|key: Seq<u8>| #[trigger]
            routed(planned_rows(writes), key) == brought(sections, targets, whole, m, key) by {}
    } else {
        let i = m - 1;
        let fewer = targets.drop_last();
        let had = scan_chunk(log, sections, fewer)->Clean_0;
        clean_takes_all(log, sections, fewer, had);
        let part = all_blocks(sections, i as nat);
        let (blocks, target) = (sections[i].1, targets[i]);
        same_targets(sections, targets, fewer, part, whole);
        faultless_counts_up(target, blocks);
        let n = length_at(log, sections, targets, whole, i);
        assert(brought(sections, targets, whole, i as nat, target) == brought(
            sections,
            fewer,
            part,
            i as nat,
            target,
        ));
        assert(n <= u64::MAX);
        section_takes_all(log, had, target, blocks, n, writes);
        assert forall|j: int| 0 <= j < m implies continues(
            sections[j].1,
            length_at(log, sections, targets, whole, j),
            #[trigger] whole[j],
        ) by {
            if j < i {
                assert(continues(
                    sections[j].1,
                    length_at(log, sections, fewer, part, j),
                    part[j],
                ));
            }
        }
        assert forall|key: Seq<u8>| #[trigger]
            routed(planned_rows(writes), key) == brought(sections, targets, whole, m, key) by {
            assert(routed(planned_rows(had), key) == brought(sections, fewer, part, i as nat, key));
            assert(brought(sections, targets, whole, i as nat, key) == brought(
                sections,
                fewer,
                part,
                i as nat,
                key,
            ));
            assert(whole[i] == blocks.len());
            assert(routed(planned_rows(writes), key) == (if key == target {
                routed(planned_rows(had), key) + events_in(blocks, blocks.len())
            } else {
                routed(planned_rows(had), key)
            }));
        }
        assert forall|key: Seq<u8>|
            stream_of(log, key).len() + (#[trigger] brought(sections, targets, whole, m, key)).len()
                <= u64::MAX by {
            assert(stream_of(log, key).len() + brought(sections, fewer, part, i as nat, key).len()
                <= u64::MAX);
            assert(brought(sections, targets, whole, i as nat, key) == brought(
                sections,
                fewer,
                part,
                i as nat,
                key,
            ));
            assert(whole[i] == blocks.len());
            if blocks.len() > 0 {
                let last = blocks[blocks.len() - 1];
                let events = lead_of(blocks)->0;
                lead_counts_up(blocks, events);
                assert(last is Some && last->0.version == n + blocks.len());
                assert(last == Some(events[blocks.len() - 1]));
            }
        }
        chunk_report(log, sections, targets, fewer, had, writes);
    }
}

/// The targets of the first sections alone matter to what those sections bring.
proof fn same_targets(
    sections: Seq<(Seq<u8>, Seq<Option<EventView>>)>,
    targets: Seq<Seq<u8>>,
    fewer: Seq<Seq<u8>>,
    part: Seq<nat>,
    whole: Seq<nat>,
)
    requires
        fewer.len() == part.len() <= whole.len(),
        fewer.len() <= targets.len(),
        forall|i: int| 0 <= i < fewer.len() ==> (#[trigger] fewer[i]) == targets[i],
        forall|i: int| 0 <= i < part.len() ==> (#[trigger] part[i]) == whole[i],
    ensures
        forall|m: nat, key: Seq<u8>|
            m <= part.len() ==> #[trigger] brought(sections, targets, whole, m, key) == brought(
                sections,
                fewer,
                part,
                m,
                key,
            ),
{
    assert forall|m: nat, key: Seq<u8>| m <= part.len() implies #[trigger] brought(
        sections,
        targets,
        whole,
        m,
        key,
    ) == brought(sections, fewer, part, m, key) by {
        same_targets_upto(sections, targets, fewer, part, whole, m, key);
    }
}

proof fn same_targets_upto(
    sections: Seq<(Seq<u8>, Seq<Option<EventView>>)>,
    targets: Seq<Seq<u8>>,
    fewer: Seq<Seq<u8>>,
    part: Seq<nat>,
    whole: Seq<nat>,
    m: nat,
    key: Seq<u8>,
)
    requires
        fewer.len() == part.len() <= whole.len(),
        fewer.len() <= targets.len(),
        forall|i: int| 0 <= i < fewer.len() ==> (#[trigger] fewer[i]) == targets[i],
        forall|i: int| 0 <= i < part.len() ==> (#[trigger] part[i]) == whole[i],
        m <= part.len(),
    ensures
        brought(sections, targets, whole, m, key) == brought(sections, fewer, part, m, key),
    decreases m,
{
    if m > 0 {
        same_targets_upto(sections, targets, fewer, part, whole, (m - 1) as nat, key);
        assert(fewer[m - 1] == targets[m - 1]);
        assert(part[m - 1] == whole[m - 1]);
    }
}

/// A section of a clean chunk: all its blocks continue the target, and its write holds them all.
proof fn section_takes_all(
    log: Seq<LogEntry>,
    had: Seq<WriteView>,
    target: Seq<u8>,
    blocks: Seq<Option<EventView>>,
    n: nat,
    writes: Seq<WriteView>,
)
    requires
        sound_lead(blocks),
        section_fault(target, blocks) is None,
        writes == with_lead(had, target, blocks),
        lead_of(blocks) is Some ==> write_fits(log, writes, had.len() as int),
        n == stream_of(log, target).len() + routed(planned_rows(had), target).len(),
        n <= u64::MAX,
    ensures
        continues(blocks, n, blocks.len()),
        forall|key: Seq<u8>| #[trigger]
            routed(planned_rows(writes), key) == (if key == target {
                routed(planned_rows(had), key) + events_in(blocks, blocks.len())
            } else {
                routed(planned_rows(had), key)
            }),
{
    faultless_counts_up(target, blocks);
    match lead_of(blocks) {
        None => {
            assert forall|key: Seq<u8>| #[trigger]
                routed(planned_rows(writes), key) == (if key == target {
                    routed(planned_rows(had), key) + events_in(blocks, blocks.len())
                } else {
                    routed(planned_rows(had), key)
                }) by {
                assert(routed(planned_rows(had), key) + events_in(blocks, 0) =~= routed(
                    planned_rows(had),
                    key,
                ));
            }
        },
        Some(events) => {
            assert(writes.take(had.len() as int) =~= had);
            assert(writes.drop_last() =~= had);
            assert(running_len(log, writes, had.len() as int) == n);
            lead_against(blocks, events, n);
            assert forall|key: Seq<u8>| #[trigger]
                routed(planned_rows(writes), key) == (if key == target {
                    routed(planned_rows(had), key) + events_in(blocks, blocks.len())
                } else {
                    routed(planned_rows(had), key)
                }) by {
                routed_of_sum(planned_rows(had), rows_for(target, events), key);
                routed_of_stream(target, events, key);
                assert(routed(planned_rows(had), key) + Seq::<EventView>::empty() =~= routed(
                    planned_rows(had),
                    key,
                ));
            }
        },
    }
}

/// The report of a clean chunk has a line for one more section with blocks.
proof fn chunk_report(
    log: Seq<LogEntry>,
    sections: Seq<(Seq<u8>, Seq<Option<EventView>>)>,
    targets: Seq<Seq<u8>>,
    fewer: Seq<Seq<u8>>,
    had: Seq<WriteView>,
    writes: Seq<WriteView>,
)
    requires
        0 < targets.len() <= sections.len(),
        fewer == targets.drop_last(),
        sound_lead(sections[targets.len() - 1].1),
        section_fault(targets.last(), sections[targets.len() - 1].1) is None,
        writes == with_lead(had, targets.last(), sections[targets.len() - 1].1),
        reported(completed(had), sections, fewer, all_blocks(sections, fewer.len())),
    ensures
        reported(completed(writes), sections, targets, all_blocks(sections, targets.len())),
{
    let m = targets.len();
    let i = m - 1;
    let blocks = sections[i].1;
    let whole = all_blocks(sections, m);
    let part = all_blocks(sections, i as nat);
    faultless_counts_up(targets[i], blocks);
    let lines = completed(writes);
    let told = with_blocks(sections, m);
    with_blocks_bounds(sections, i as nat);
    with_blocks_bounds(sections, m);
    if let Some(events) = lead_of(blocks) {
        lead_counts_up(blocks, events);
        assert(events.last() == events[events.len() - 1]);
        assert(blocks[events.len() - 1] == Some(events[events.len() - 1]));
    }
    assert forall|j: int| 0 <= j < lines.len() implies (#[trigger] lines[j]).0 == targets[told[j]]
        && tells(sections[told[j]].1, whole[told[j]], lines[j].1) by {
        if j < had.len() {
            assert(lines[j] == completed(had)[j]);
            assert(told[j] == with_blocks(sections, i as nat)[j]);
            assert(part[told[j]] == whole[told[j]]);
        }
    }
}

/// The section at which the scan of a chunk ends.
proof fn scan_ends_at(
    log: Seq<LogEntry>,
    sections: Seq<(Seq<u8>, Seq<Option<EventView>>)>,
    targets: Seq<Seq<u8>>,
) -> (i: int)
    requires
        scan_chunk(log, sections, targets) is Offence,
    ensures
        0 <= i < targets.len(),
        scan_chunk(log, sections, targets.take(i)) is Clean,
        scan_section(
            log,
            scan_chunk(log, sections, targets.take(i)),
            targets[i],
            sections[i].1,
        ) == scan_chunk(log, sections, targets),
    decreases targets.len(),
{
    let n = targets.len() - 1;
    assert(targets.take(n) =~= targets.drop_last());
    if scan_chunk(log, sections, targets.drop_last()) is Clean {
        n
    } else {
        let i = scan_ends_at(log, sections, targets.drop_last());
        assert(targets.drop_last().take(i) =~= targets.take(i));
        i
    }
}

/// An offence is said of the first block that does not continue its target.
proof fn offence_stops<E>(
    log: Seq<LogEntry>,
    sections: Seq<(Seq<u8>, Seq<Option<EventView>>)>,
    targets: Seq<Seq<u8>>,
    error: ImportError<E>,
) -> (i: int)
    requires
        streams_ok(log),
        targets.len() <= sections.len(),
        forall|i: int| 0 <= i < targets.len() ==> sound_lead((#[trigger] sections[i]).1),
        scan_chunk(log, sections, targets) matches ScanView::Offence(fault) && fault_view(error)
            == Some(fault),
    ensures
        first_stop(log, sections, targets, i, error),
{
    let i = scan_ends_at(log, sections, targets);
    let fewer = targets.take(i);
    let had = scan_chunk(log, sections, fewer)->Clean_0;
    assert forall|j: int| 0 <= j < fewer.len() implies sound_lead((#[trigger] sections[j]).1) by {}
    clean_takes_all(log, sections, fewer, had);
    let whole = all_blocks(sections, i as nat);
    same_targets(sections, targets, fewer, whole, whole);
    let (blocks, target) = (sections[i].1, targets[i]);
    let n = length_at(log, sections, targets, whole, i);
    assert(brought(sections, targets, whole, i as nat, target) == brought(
        sections,
        fewer,
        whole,
        i as nat,
        target,
    ));
    assert(routed(planned_rows(had), target) == brought(sections, fewer, whole, i as nat, target));
    assert(n <= u64::MAX);
    assert forall|j: int| 0 <= j < i implies continues(
        sections[j].1,
        length_at(log, sections, targets, whole, j),
        #[trigger] whole[j],
    ) by {
        assert(continues(sections[j].1, length_at(log, sections, fewer, whole, j), whole[j]));
        assert(brought(sections, targets, whole, j as nat, targets[j]) == brought(
            sections,
            fewer,
            whole,
            j as nat,
            targets[j],
        ));
    }
    let more = with_lead(had, target, blocks);
    match lead_of(blocks) {
        Some(events) => {
            assert(more.take(had.len() as int) =~= had);
            assert(running_len(log, more, had.len() as int) == n);
            lead_against(blocks, events, n);
            if !write_fits(log, more, had.len() as int) {
                assert(blocks[0] == Some(events[0]));
                if n > 0 {
                    assert(version_at(n)@ == n);
                }
                assert(stopped(target, blocks, n, 0, error));
            } else {
                lead_counts_up(blocks, events);
                assert(blocks[0]->0.version == n + 1);
                fault_stops(target, blocks, n, error);
            }
        },
        None => {
            fault_stops(target, blocks, n, error);
        },
    }
    i
}

/// The section whose own fault ends the planning of a chunk.
proof fn plan_ends_at<E>(
    sections: Seq<(Seq<u8>, Seq<Option<EventView>>)>,
    targets: Seq<Seq<u8>>,
    error: ImportError<E>,
) -> (i: int)
    requires
        targets.len() <= sections.len(),
        forall|i: int| 0 <= i < targets.len() ==> sound_lead((#[trigger] sections[i]).1),
        planned_chunk(sections, targets).fault is Some,
        fault_view(error) == planned_chunk(sections, targets).fault,
    ensures
        first_break(sections, targets, i, error),
    decreases targets.len(),
{
    let n = targets.len() - 1;
    let fewer = targets.drop_last();
    if planned_chunk(sections, fewer).fault is None {
        let (blocks, target) = (sections[n].1, targets[n]);
        unbroken(sections, fewer);
        faultless_counts_up(target, blocks);
        let start: nat = match lead_of(blocks) {
            Some(events) => (events[0].version - 1) as nat,
            None => 0,
        };
        fault_stops(target, blocks, start, error);
        let k = choose|k: nat| #[trigger] stopped(target, blocks, start, k, error);
        assert(stopped(targets[n], sections[n].1, start, k, error));
        n
    } else {
        let i = plan_ends_at(sections, fewer, error);
        let (n, k) = choose|n: nat, k: nat| #[trigger]
            stopped(fewer[i], sections[i].1, n, k, error);
        assert(stopped(targets[i], sections[i].1, n, k, error));
        i
    }
}

/// The sections of a chunk without fault count up.
proof fn unbroken(
    sections: Seq<(Seq<u8>, Seq<Option<EventView>>)>,
    targets: Seq<Seq<u8>>,
)
    requires
        targets.len() <= sections.len(),
        forall|i: int| 0 <= i < targets.len() ==> sound_lead((#[trigger] sections[i]).1),
        planned_chunk(sections, targets).fault is None,
    ensures
        forall|i: int| 0 <= i < targets.len() ==> counts_up((#[trigger] sections[i]).1),
    decreases targets.len(),
{
    if targets.len() > 0 {
        let n = targets.len() - 1;
        unbroken(sections, targets.drop_last());
        faultless_counts_up(targets[n], sections[n].1);
    }
}

proof fn all_or_nothing<S: AtomicAppend, R: Fn(&[u8]) -> StreamKey>(
    route: R,
    sections: Seq<(Seq<u8>, Seq<Option<EventView>>)>,
    before: S,
    after: Seq<LogEntry>,
    r: Result<ImportReport, ImportError<S::Error>>,
)
    requires
        log_ok(before.log()),
        whole_chunk_result::<S, R>(route, sections, before, after, r),
    ensures
        exists|targets: Seq<Seq<u8>>| #[trigger]
            went_all_or_nothing(route, sections, before, after, targets, r),
{
    let targets = choose|targets: Seq<Seq<u8>>| #[trigger]
        chunk_ran::<S, R>(route, sections, targets, before, after, r);
    let log = before.log();
    let whole = all_blocks(sections, sections.len());
    match r {
        Ok(report) => {
            let writes = scan_chunk(log, sections, targets)->Clean_0;
            clean_takes_all(log, sections, targets, writes);
            assert forall|key: Seq<u8>| #[trigger]
                stream_of(after, key) == stream_of(log, key) + brought(
                    sections,
                    targets,
                    whole,
                    whole.len(),
                    key,
                ) by {
                stream_of_grown(log, after, planned_rows(writes), key);
                assert(routed(planned_rows(writes), key) == brought(
                    sections,
                    targets,
                    whole,
                    whole.len(),
                    key,
                ));
            }
            assert(applied(log, after, sections, targets, whole));
        },
        Err(ImportError::Store(_)) => {
            unbroken(sections, targets);
        },
        Err(error) => {
            let fault = scan_chunk(log, sections, targets)->Offence_0;
            if fault_view(error) == Some(fault) {
                let i = offence_stops(log, sections, targets, error);
                assert(aborts_at(before, sections, targets, i, error));
            } else {
                let i = plan_ends_at(sections, targets, error);
                assert(aborts_at(before, sections, targets, i, error));
            }
        },
    }
    assert(went_all_or_nothing(route, sections, before, after, targets, r));
}

/// An all-or-nothing import that succeeds has written every block of every section, each behind the
/// one before it; one that fails has written nothing, and names the first block that does not
/// continue its target.
pub proof fn whole_chunk_import_takes_every_block_or_none<
    S: AtomicAppend,
    R: Fn(&[u8]) -> StreamKey,
>(
    store: &mut S,
    sections: &[StreamSection],
    route: R,
    r: Result<ImportReport, ImportError<S::Error>>,
)
    requires
        old(store).valid(),
        call_ensures(import_whole_chunk::<S, R>, (store, sections, route), r),
    ensures
        exists|targets: Seq<Seq<u8>>| #[trigger]
            went_all_or_nothing(
                route,
                section_views(sections@),
                *old(store),
                final(store).log(),
                targets,
                r,
            ),
{
    old(store).valid_log();
    all_or_nothing::<S, R>(route, section_views(sections@), *old(store), final(store).log(), r);
}

/// The same of an import under the policy that any bad block rolls back the whole chunk.
pub proof fn whole_chunk_policy_takes_every_block_or_none<
    S: AtomicAppend,
    R: Fn(&[u8]) -> StreamKey,
>(
    store: &mut S,
    sections: &[StreamSection],
    route: R,
    r: Result<ImportReport, ImportError<S::Error>>,
)
    requires
        old(store).valid(),
        call_ensures(
            <S as EventImporter>::import::<R>,
            (store, sections, route, Atomicity::WholeChunk),
            r,
        ),
    ensures
        exists|targets: Seq<Seq<u8>>| #[trigger]
            went_all_or_nothing(
                route,
                section_views(sections@),
                *old(store),
                final(store).log(),
                targets,
                r,
            ),
{
    old(store).valid_log();
    all_or_nothing::<S, R>(route, section_views(sections@), *old(store), final(store).log(), r);
}

/// Success is owed: a chunk of which every block continues its target is never refused. Only a
/// failure of the store keeps it out.
pub proof fn chunk_that_continues_is_not_refused<S: AtomicAppend, R: Fn(&[u8]) -> StreamKey>(
    route: R,
    sections: Seq<(Seq<u8>, Seq<Option<EventView>>)>,
    before: S,
    after: Seq<LogEntry>,
    targets: Seq<Seq<u8>>,
    used: Seq<Seq<u8>>,
    r: Result<ImportReport, ImportError<S::Error>>,
)
    requires
        went_all_or_nothing(route, sections, before, after, used, r),
        targets.len() == sections.len(),
        forall|i: int, target: Seq<u8>|
            0 <= i < sections.len() && #[trigger] routes_to(route, sections[i].0, target) ==> target
                == targets[i],
        forall|i: int|
            0 <= i < sections.len() ==> continues(
                sections[i].1,
                length_at(
                    before.log(),
                    sections,
                    targets,
                    all_blocks(sections, sections.len()),
                    i,
                ),
                (#[trigger] sections[i]).1.len(),
            ),
    ensures
        r is Ok || r matches Err(ImportError::Store(_)),
{
    if let Err(error) = r {
        if !(error is Store) {
            let log = before.log();
            let i = choose|i: int| #[trigger] aborts_at(before, sections, used, i, error);
            let whole = all_blocks(sections, sections.len());
            let part = all_blocks(sections, i as nat);
            let blocks = sections[i].1;
            let n = length_at(log, sections, targets, whole, i);
            assert(continues(blocks, n, blocks.len()));
            if first_stop(log, sections, used, i, error) {
                let fewer = used.take(i);
                assert forall|j: int| 0 <= j < used.len() && j < sections.len() implies (
                #[trigger] used[j]) == targets[j] by {
                    assert(routes_to(route, sections[j].0, used[j]));
                }
                same_targets(sections, targets, fewer, part, whole);
                same_targets(sections, used, fewer, part, part);
                assert(used[i] == targets[i]);
                assert(brought(sections, targets, whole, i as nat, targets[i]) == brought(
                    sections,
                    fewer,
                    part,
                    i as nat,
                    targets[i],
                ));
                assert(brought(sections, used, part, i as nat, targets[i]) == brought(
                    sections,
                    fewer,
                    part,
                    i as nat,
                    targets[i],
                ));
                let k = choose|k: nat| #[trigger]
                    stopped(
                        used[i],
                        sections[i].1,
                        length_at(log, sections, used, part, i),
                        k,
                        error,
                    );
                continued_is_determined(blocks, n, k, blocks.len());
            } else {
                assert(counts_up(sections[i].1));
            }
        }
    }
}

// ── The steps of an import ──────────────────────────────────────────────────────────────────────

/// The plan of a section holds its leading blocks that count up, as many as there are, and says
/// what ended them.
pub proof fn plan_holds_the_leading_blocks(
    section: &StreamSection,
    r: Result<SectionPlan, PlanError>,
)
    requires
        call_ensures(plan_section, (section,), r),
    ensures
        match r {
            Ok(SectionPlan::Empty) => section.blocks@.len() == 0,
            Ok(SectionPlan::FirstCorrupt) => section.blocks@.len() > 0 && section@.1[0] is None,
            Ok(SectionPlan::Run(run)) => exists|n: nat, k: nat| #[trigger]
                planned(section@.1, n, k, run),
            Err(PlanError::VersionOverflow) => runs_out(section@.1),
        },
{
    let blocks = section@.1;
    match r {
        Ok(SectionPlan::Run(run)) => {
            let events = run.events();
            assert(lead_of(blocks) == Some(events));
            lead_counts_up(blocks, events);
            run_is_the_leading_blocks(blocks, run@);
            assert(events[0] == run.head@);
            assert(events.last() == events[events.len() - 1]);
            assert(planned(blocks, (events[0].version - 1) as nat, events.len(), run));
        },
        Err(PlanError::VersionOverflow) => {
            overflow_runs_out(blocks);
        },
        _ => {},
    }
}

/// A run holds the first `k` blocks of a section, which continue a stream of `n` events.
pub open spec fn planned(
    blocks: Seq<Option<EventView>>,
    n: nat,
    k: nat,
    run: SectionRun,
) -> bool {
    &&& continues(blocks, n, k)
    &&& k > 0
    &&& run.first@ == n + 1
    &&& run.expected_version == (if n == 0 {
        None
    } else {
        Some(version_at(n))
    })
    &&& seq![run.head@] + pending_views(run.tail@) == events_in(blocks, k)
    &&& run.last@ == n + k
    &&& match run.halt {
        Halt::Complete => k == blocks.len(),
        Halt::Corrupt => k < blocks.len() && blocks[k as int] is None,
        Halt::Gap { got } => k < blocks.len() && (blocks[k as int] matches Some(event) && got
            == version_at(event.version)),
    }
}

/// A run that waits is sent with the head that it continues and the blocks that count up, and is
/// reported as it went: by what ended it if the store took it, as held back at its first block if
/// the store refused it. A failure of the store is handed on, and nothing is reported.
pub proof fn run_is_reported_as_it_went<P, E>(
    begun: &mut PerStreamImport,
    target: StreamKey,
    section: &StreamSection,
    waiting: StreamRun,
    sent_to: &StreamKey,
    expected: Option<Version>,
    batch: PendingBatch<'_>,
    settled: &mut PerStreamImport,
    reply: Result<P, AppendError<E>>,
    r: Result<(), ImportError<E>>,
)
    requires
        call_ensures(PerStreamImport::begin, (begun, target, section), Ok(Some(waiting))),
        call_ensures(StreamRun::target, (&waiting,), sent_to),
        call_ensures(StreamRun::expected_version, (&waiting,), expected),
        call_ensures(StreamRun::batch, (&waiting,), batch),
        call_ensures(PerStreamImport::settle::<P, E>, (settled, waiting, reply), r),
    ensures
        final(begun)@ == old(begun)@,
        sent_to@ == target@,
        exists|n: nat, k: nat|
            {
                &&& #[trigger] continues(section@.1, n, k)
                &&& k > 0
                &&& expected == (if n == 0 {
                    None
                } else {
                    Some(version_at(n))
                })
                &&& batch@ == events_in(section@.1, k)
                &&& match reply {
                    Ok(_) => r is Ok && line_added(
                        old(settled)@,
                        final(settled)@,
                        target@,
                        section@.1,
                        k,
                    ),
                    Err(AppendError::Conflict { .. }) => r is Ok && line_added(
                        old(settled)@,
                        final(settled)@,
                        target@,
                        section@.1,
                        0,
                    ),
                    Err(AppendError::Store(e)) => r == Err::<(), ImportError<E>>(
                        ImportError::Store(e),
                    ) && final(settled)@ == old(settled)@,
                }
            },
{
    let blocks = section@.1;
    let run = waiting@.1;
    let events = run.events;
    assert(plan_of(blocks) == PlanView::Run(run));
    assert(lead_of(blocks) == Some(events));
    lead_counts_up(blocks, events);
    run_is_the_leading_blocks(blocks, run);
    assert(events.last() == events[events.len() - 1]);
    assert(blocks[0] == Some(events[0]));
    assert(blocks[events.len() - 1] == Some(events[events.len() - 1]));
    if !(reply matches Err(AppendError::Store(_))) {
        assert(final(settled)@.drop_last() =~= old(settled)@);
    }
    assert(continues(blocks, (events[0].version - 1) as nat, events.len()));
}

/// One line was added to a report: what happened to a section of which `k` blocks were applied.
pub open spec fn line_added(
    before: Seq<(Seq<u8>, StreamOutcome)>,
    after: Seq<(Seq<u8>, StreamOutcome)>,
    target: Seq<u8>,
    blocks: Seq<Option<EventView>>,
    k: nat,
) -> bool {
    &&& after.len() == before.len() + 1
    &&& after.drop_last() == before
    &&& after.last().0 == target
    &&& tells(blocks, k, after.last().1)
}

/// A section without a run to send is done with at once: one without blocks leaves no line, one
/// that begins with a corrupt block a line that nothing was applied; one that runs out of versions
/// is refused.
pub proof fn section_without_a_run_is_done(
    begun: &mut PerStreamImport,
    target: StreamKey,
    section: &StreamSection,
    r: Result<Option<StreamRun>, PlanError>,
)
    requires
        call_ensures(PerStreamImport::begin, (begun, target, section), r),
        !(r matches Ok(Some(_))),
    ensures
        match r {
            Ok(_) => if section.blocks@.len() == 0 {
                final(begun)@ == old(begun)@
            } else {
                section@.1[0] is None && line_added(
                    old(begun)@,
                    final(begun)@,
                    target@,
                    section@.1,
                    0,
                )
            },
            Err(_) => runs_out(section@.1) && final(begun)@ == old(begun)@,
        },
{
    let blocks = section@.1;
    if plan_of(blocks) is Overflow {
        overflow_runs_out(blocks);
    }
    if plan_of(blocks) is FirstCorrupt {
        assert(final(begun)@.drop_last() =~= old(begun)@);
    }
}

/// What a caller learns from an outcome: whether everything was applied, and the version of the
/// last block that was.
pub proof fn outcome_names_the_last_block(
    blocks: Seq<Option<EventView>>,
    k: nat,
    outcome: StreamOutcome,
    complete: bool,
    reached: Option<Version>,
)
    requires
        tells(blocks, k, outcome),
        call_ensures(StreamOutcome::is_complete, (&outcome,), complete),
        call_ensures(StreamOutcome::reached, (&outcome,), reached),
    ensures
        complete ==> k == blocks.len(),
        k == blocks.len() ==> complete,
        reached_by(blocks, k, reached),
{
}

/// A chunk takes up a section exactly if its blocks count up; either way it plans to write the
/// blocks that do, and nothing else.
pub proof fn chunk_takes_up_what_counts_up(
    chunk: &mut ChunkImport,
    target: StreamKey,
    section: &StreamSection,
    clean: bool,
)
    requires
        old(chunk)@.fault is None,
        call_ensures(ChunkImport::add_section, (chunk, target, section), clean),
    ensures
        clean <==> counts_up(section@.1),
        exists|n: nat, k: nat|
            {
                &&& #[trigger] continues(section@.1, n, k)
                &&& k == 0 ==> section@.1.len() == 0 || section@.1[0] is None
                &&& final(chunk)@.writes == (if k == 0 {
                    old(chunk)@.writes
                } else {
                    old(chunk)@.writes.push(
                        WriteView {
                            target: target@,
                            expected: if n == 0 {
                                None
                            } else {
                                Some(version_at(n))
                            },
                            events: events_in(section@.1, k),
                        },
                    )
                })
            },
{
    let blocks = section@.1;
    faultless_counts_up(target@, blocks);
    match lead_of(blocks) {
        None => {
            assert(continues(blocks, 0, 0));
        },
        Some(events) => {
            lead_counts_up(blocks, events);
            assert(continues(blocks, (events[0].version - 1) as nat, events.len()));
        },
    }
}

/// The blocks of a write.
pub open spec fn blocks_of(write: WriteView) -> Seq<Option<EventView>> {
    Seq::new(write.events.len(), |i: int| Some(write.events[i]))
}

/// Once the store has answered the writes of a chunk: if they landed, every one is reported
/// complete, in order; if one was refused, the chunk is refused for its first block, which does not
/// continue the head that its target has; a failure of the store is handed on.
pub proof fn chunk_is_reported_as_it_went<P, E>(
    chunk: ChunkImport,
    reply: Result<Option<P>, AtomicAppendError<E>>,
    r: Result<ImportReport, ImportError<E>>,
)
    requires
        call_ensures(ChunkImport::settle::<P, E>, (chunk, reply), r),
        forall|i: int|
            0 <= i < chunk@.writes.len() ==> (#[trigger] chunk@.writes[i]).events.len() > 0
                && chunk@.writes[i].events.last().version <= u64::MAX,
    ensures
        match reply {
            Ok(_) => r matches Ok(report) && {
                &&& report@.len() == chunk@.writes.len()
                &&& forall|i: int|
                    0 <= i < report@.len() ==> (#[trigger] report@[i]).0 == chunk@.writes[i].target
                        && tells(
                        blocks_of(chunk@.writes[i]),
                        chunk@.writes[i].events.len(),
                        report@[i].1,
                    )
            },
            Err(AtomicAppendError::Store(e)) => r == Err::<ImportReport, ImportError<E>>(
                ImportError::Store(e),
            ),
            Err(AtomicAppendError::Conflict { index, actual }) => r matches Err(error) && (forall|
                n: nat,
            |
                {
                    &&& index < chunk@.writes.len()
                    &&& n <= u64::MAX
                    &&& actual == head_at(n)
                    &&& chunk@.writes[index as int].events[0].version != n + 1
                } ==> #[trigger] stopped(
                    chunk@.writes[index as int].target,
                    blocks_of(chunk@.writes[index as int]),
                    n,
                    0,
                    error,
                )),
        },
{
    let writes = chunk@.writes;
    match reply {
        Ok(_) => {
            let report = r->Ok_0;
            assert forall|i: int| 0 <= i < report@.len() implies (#[trigger] report@[i]).0
                == writes[i].target && tells(
                blocks_of(writes[i]),
                writes[i].events.len(),
                report@[i].1,
            ) by {
                let events = writes[i].events;
                assert(events.last() == events[events.len() - 1]);
                assert(blocks_of(writes[i])[events.len() - 1] == Some(events[events.len() - 1]));
            }
        },
        Err(AtomicAppendError::Conflict { index, actual }) => {
            let error = r->Err_0;
            assert forall|n: nat|
                {
                    &&& index < writes.len()
                    &&& n <= u64::MAX
                    &&& actual == head_at(n)
                    &&& writes[index as int].events[0].version != n + 1
                } implies #[trigger] stopped(
                writes[index as int].target,
                blocks_of(writes[index as int]),
                n,
                0,
                error,
            ) by {
                if n > 0 {
                    assert(version_at(n)@ == n);
                }
                assert(blocks_of(writes[index as int])[0] == Some(writes[index as int].events[0]));
            }
        },
        _ => {},
    }
}

/// The first conflict of a chunk: every run before it expects the head that its target has once the
/// runs before it are in, and this one does not.
pub proof fn first_conflict_is_the_first(
    chunk: &ChunkImport,
    heads: &[Option<Version>],
    r: Option<(usize, Option<Version>)>,
)
    requires
        heads@.len() == chunk@.writes.len(),
        call_ensures(ChunkImport::first_conflict, (chunk, heads), r),
    ensures
        ({
            let end = match r {
                Some((index, _)) => index as int,
                None => chunk@.writes.len() as int,
            };
            &&& end <= chunk@.writes.len()
            &&& forall|i: int|
                0 <= i < end ==> #[trigger] head_before(
                    chunk@.writes,
                    heads@,
                    i,
                    chunk@.writes[i].expected,
                )
            &&& r matches Some((index, actual)) ==> end < chunk@.writes.len() && head_before(
                chunk@.writes,
                heads@,
                end,
                actual,
            ) && actual != chunk@.writes[end].expected
        }),
{
    stale_end(chunk@.writes, heads@, chunk@.writes.len());
}

/// `head` is the head that the target of write `i` has once the writes before it are in: the last
/// version of the latest of them that goes there too, or else the one it has without them.
pub open spec fn head_before(
    writes: Seq<WriteView>,
    heads: Seq<Option<Version>>,
    i: int,
    head: Option<Version>,
) -> bool {
    ||| exists|j: int|
        {
            &&& 0 <= j < i
            &&& (#[trigger] writes[j]).target == writes[i].target
            &&& forall|l: int| j < l < i ==> (#[trigger] writes[l]).target != writes[i].target
            &&& head == Some(version_at(writes[j].events.last().version))
        }
    ||| {
        &&& forall|l: int| 0 <= l < i ==> (#[trigger] writes[l]).target != writes[i].target
        &&& head == heads[i]
    }
}

proof fn latest_is_latest(writes: Seq<WriteView>, n: nat, key: Seq<u8>)
    requires
        n <= writes.len(),
    ensures
        match latest_for(writes, n, key) {
            Some(j) => 0 <= j < n && writes[j].target == key && forall|l: int|
                j < l < n ==> (#[trigger] writes[l]).target != key,
            None => forall|l: int| 0 <= l < n ==> (#[trigger] writes[l]).target != key,
        },
    decreases n,
{
    if n > 0 && writes[n - 1].target != key {
        latest_is_latest(writes, (n - 1) as nat, key);
    }
}

proof fn running_head_is(writes: Seq<WriteView>, heads: Seq<Option<Version>>, i: int)
    requires
        0 <= i < writes.len(),
    ensures
        head_before(writes, heads, i, running_head(writes, heads, i)),
{
    latest_is_latest(writes, i as nat, writes[i].target);
    if let Some(j) = latest_for(writes, i as nat, writes[i].target) {
        assert(writes[j].target == writes[i].target);
    }
}

proof fn stale_end(writes: Seq<WriteView>, heads: Seq<Option<Version>>, n: nat)
    requires
        n <= writes.len(),
    ensures
        match first_stale(writes, heads, n) {
            Some(k) => 0 <= k < n && head_before(writes, heads, k, running_head(writes, heads, k))
                && writes[k].expected != running_head(writes, heads, k) && forall|i: int|
                0 <= i < k ==> #[trigger] head_before(writes, heads, i, writes[i].expected),
            None => forall|i: int|
                0 <= i < n ==> #[trigger] head_before(writes, heads, i, writes[i].expected),
        },
    decreases n,
{
    if n > 0 {
        stale_end(writes, heads, (n - 1) as nat);
        running_head_is(writes, heads, n - 1);
    }
}

/// A chunk with a fault takes up nothing more.
pub proof fn faulty_chunk_takes_up_nothing(
    chunk: &mut ChunkImport,
    target: StreamKey,
    section: &StreamSection,
    clean: bool,
    was_clean: bool,
    is_clean: bool,
    writes: (&[PlannedAppend], &[PlannedAppend]),
)
    requires
        call_ensures(ChunkImport::is_clean, (&*old(chunk),), was_clean),
        !was_clean,
        call_ensures(ChunkImport::writes, (&*old(chunk),), writes.0),
        call_ensures(ChunkImport::add_section, (chunk, target, section), clean),
        call_ensures(ChunkImport::is_clean, (&*final(chunk),), is_clean),
        call_ensures(ChunkImport::writes, (&*final(chunk),), writes.1),
    ensures
        !clean,
        !is_clean,
        write_views(writes.1@) == write_views(writes.0@),
{
}

/// The fault of a chunk is that of the first section whose blocks do not count up: the chunk is
/// refused for the first block that is corrupt or out of line, with the version that was due and
/// the one that came.
pub proof fn chunk_is_refused_for_its_first_break<E>(
    chunk: &mut ChunkImport,
    target: StreamKey,
    section: &StreamSection,
    error: ImportError<E>,
)
    requires
        old(chunk)@.fault is None,
        call_ensures(ChunkImport::add_section, (chunk, target, section), false),
        call_ensures(ChunkImport::own_refusal::<E>, (&*final(chunk),), error),
    ensures
        !counts_up(section@.1),
        exists|n: nat, k: nat| #[trigger] stopped(target@, section@.1, n, k, error),
{
    let blocks = section@.1;
    faultless_counts_up(target@, blocks);
    let n = match lead_of(blocks) {
        Some(events) => (events[0].version - 1) as nat,
        None => 0,
    };
    if let Some(events) = lead_of(blocks) {
        lead_counts_up(blocks, events);
    }
    fault_stops(target@, blocks, n, error);
}

/// A new chunk has nothing to write and no fault; a new stream-by-stream import has nothing to
/// report.
pub proof fn new_import_is_blank(
    chunk: ChunkImport,
    clean: bool,
    writes: &[PlannedAppend],
    import: PerStreamImport,
    report: ImportReport,
    lines: &[StreamReport],
)
    requires
        call_ensures(ChunkImport::new, (), chunk),
        call_ensures(ChunkImport::is_clean, (&chunk,), clean),
        call_ensures(ChunkImport::writes, (&chunk,), writes),
        call_ensures(PerStreamImport::new, (), import),
        call_ensures(PerStreamImport::finish, (import,), report),
        call_ensures(ImportReport::streams, (&report,), lines),
    ensures
        clean,
        writes@.len() == 0,
        lines@.len() == 0,
{
    assert(write_views(writes@).len() == writes@.len());
    assert(report_views(lines@).len() == lines@.len());
}

/// A report has the lines it was made of, in order.
pub proof fn report_has_its_lines(
    lines: Vec<StreamReport>,
    report: ImportReport,
    read: &[StreamReport],
)
    requires
        call_ensures(ImportReport::new, (lines,), report),
        call_ensures(ImportReport::streams, (&report,), read),
    ensures
        read@.len() == lines@.len(),
        forall|i: int|
            0 <= i < read@.len() ==> (#[trigger] read@[i]).stream@ == lines@[i].stream@
                && read@[i].outcome == lines@[i].outcome,
{
    let shown = report_views(read@);
    let given = report_views(lines@);
    assert(shown.len() == read@.len() && given.len() == lines@.len());
    assert forall|i: int| 0 <= i < read@.len() implies (#[trigger] read@[i]).stream@
        == lines@[i].stream@ && read@[i].outcome == lines@[i].outcome by {
        assert(shown[i] == given[i]);
    }
}

/// A store's conflict is told as the version that was due at the head which the store named, and
/// the version with which the write came instead. Behind the last head there is no version: that is
/// an overflow. An index that stands for no write counts as the first one.
pub proof fn conflict_names_what_was_due<E>(
    firsts: &[Version],
    writes: &[PlannedAppend],
    index: usize,
    actual: Option<Version>,
    r: ImportError<E>,
)
    requires
        call_ensures(map_atomic_conflict::<E>, (firsts, writes, index, actual), r),
        firsts@.len() == writes@.len(),
    ensures
        ({
            let at: int = if index < writes@.len() {
                index as int
            } else {
                0
            };
            let head: nat = match actual {
                Some(v) => v@,
                None => 0,
            };
            if writes@.len() == 0 || head == u64::MAX {
                r is VersionOverflow
            } else {
                r matches ImportError::Aborted { stream, reason } && stream@ == writes@[at].target@
                    && (reason matches AbortReason::Mismatch { expected, got } && expected@ == head
                    + 1 && got == firsts@[at])
            }
        }),
{
    assert(write_views(writes@).len() == writes@.len());
    if writes@.len() > 0 {
        assert(write_views(writes@)[0] == writes@[0]@);
        if index < writes@.len() {
            assert(write_views(writes@)[index as int] == writes@[index as int]@);
        }
    }
}

/// Why a chunk with a fault is refused: for the first run that expects another head than its target
/// has, if there is one, with the version that was due there and the run's first one; and for its
/// own fault otherwise.
pub proof fn refusal_names_the_first_conflict<E>(
    chunk: &ChunkImport,
    heads: &[Option<Version>],
    conflict: Option<(usize, Option<Version>)>,
    r: ImportError<E>,
    own: ImportError<E>,
)
    requires
        heads@.len() == chunk@.writes.len(),
        forall|i: int|
            0 <= i < chunk@.writes.len() ==> (#[trigger] chunk@.writes[i]).events.len() > 0
                && chunk@.writes[i].events[0].version <= u64::MAX,
        call_ensures(ChunkImport::first_conflict, (chunk, heads), conflict),
        call_ensures(ChunkImport::refusal::<E>, (chunk, heads), r),
        call_ensures(ChunkImport::own_refusal::<E>, (chunk,), own),
    ensures
        conflict is None ==> fault_view(r) == fault_view(own),
        conflict matches Some((index, actual)) ==> {
            let head: nat = match actual {
                Some(v) => v@,
                None => 0,
            };
            let write = chunk@.writes[index as int];
            if head == u64::MAX {
                r is VersionOverflow
            } else {
                r matches ImportError::Aborted { stream, reason } && stream@ == write.target && (
                reason matches AbortReason::Mismatch { expected, got } && expected@ == head + 1
                    && got@ == write.events[0].version)
            }
        },
{
    if let Some((index, actual)) = conflict {
        assert(chunk@.writes[index as int].events.len() > 0);
    }
}

/// The head of a stream in a store is the version of its last event, and there is none for a stream
/// without events.
pub proof fn head_is_the_last_version<S: RawEventStore>(
    store: &S,
    id: &StreamKey,
    head: Option<Version>,
)
    requires
        store.valid(),
        call_ensures(stream_head::<S>, (store, id), Ok::<Option<Version>, S::Error>(head)),
    ensures
        ({
            let stream = stream_of(store.log(), id@);
            match head {
                None => stream.len() == 0,
                Some(v) => stream.len() > 0 && v@ == stream.last().version,
            }
        }),
{
    store.valid_log();
    let stream = stream_of(store.log(), id@);
    assert(dense(stream, 0));
    if stream.len() > 0 {
        assert(stream[stream.len() - 1].version == stream.len());
    }
}

/// The batch of a planned write is its first event and those behind it, in order.
pub proof fn planned_batch_holds_the_write(write: &PlannedAppend, batch: PendingBatch<'_>)
    requires
        call_ensures(PlannedAppend::batch, (write,), batch),
    ensures
        batch@.len() == write.tail@.len() + 1,
        batch@[0] == write.head@,
        forall|i: int| 0 <= i < write.tail@.len() ==> batch@[i + 1] == (#[trigger] write.tail@[i])@,
{
}

} // verus!
