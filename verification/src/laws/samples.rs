//! Laws of what the checks are made of: sample bytes, rows, questions and stages.

use crate::conformance::ask::{
    append_event, append_rows, drain_all, drain_stream, event_run_at, named, plain_rows, run_views,
    Ask, Mark, WriteRows,
};
use crate::conformance::reply::{all_views, reply_views, Reply};
use crate::conformance::row::{row_views, ConformanceRow, SubId};
use crate::conformance::script::{
    and_octets, and_row, and_run, counted_octets, no_octets, no_rows, no_runs, octets_of, one_octet,
    one_row, one_two_three, ramp_octets, repeated_octets, row_of_octet, three_octets, three_rows,
    two_octets, two_rows, version_of, Stage,
};
use crate::conformance::sequence::tick;
use crate::conformance::want::{octet_views, AllWant, RowsWant, StepsWant, Want};
use crate::id::Id;
use crate::octets::decimal;
use crate::store::AllPosition;
use crate::stream_key::StreamKey;
use crate::version::{group_version, Version};
use vstd::prelude::*;
use vstd::string::*;
use vstd::utf8::*;

verus! {

broadcast use group_version;

/// Sample bytes: a ramp counts up and starts again at its modulus; a repeated byte is that byte,
/// and that often; a counted name is the name and the digits behind it.
pub proof fn sample_bytes_are_as_described(
    n: usize,
    modulus: usize,
    ramped: Vec<u8>,
    octet: u8,
    repeated: Vec<u8>,
    name: &str,
    plain: Vec<u8>,
    number: u64,
    digits: Vec<u8>,
    counted: Vec<u8>,
    single: Vec<u8>,
    three: Vec<u8>,
)
    requires
        0 < modulus <= 256,
        call_ensures(ramp_octets, (n, modulus), ramped),
        call_ensures(repeated_octets, (octet, n), repeated),
        call_ensures(octets_of, (name,), plain),
        call_ensures(decimal, (number,), digits),
        call_ensures(counted_octets, (name, number), counted),
        call_ensures(one_octet, (octet,), single),
        call_ensures(one_two_three, (), three),
    ensures
        ramped@.len() == n,
        forall|i: int| 0 <= i < n ==> (#[trigger] ramped@[i]) == i % modulus as int,
        repeated@.len() == n,
        forall|i: int| 0 <= i < n ==> (#[trigger] repeated@[i]) == octet,
        plain@ == encode_utf8(name@),
        counted@ == plain@ + digits@,
        single@.len() == 1 && single@[0] == octet,
        three@.len() == 3 && three@[0] == 1 && three@[1] == 2 && three@[2] == 3,
{
    assert forall|i: int| 0 <= i < n implies (#[trigger] ramped@[i]) == i % modulus as int by {
        assert(0 <= i % modulus as int && i % (modulus as int) < modulus) by (nonlinear_arith)
            requires
                0 < modulus,
                0 <= i,
        ;
    }
}

/// Collections of bytes, rows and runs grow by one at the end and keep what they hold.
pub proof fn collections_grow_at_the_end(
    all: Vec<Vec<u8>>,
    one: Vec<u8>,
    more: Vec<Vec<u8>>,
    rows: Vec<ConformanceRow>,
    row: ConformanceRow,
    more_rows: Vec<ConformanceRow>,
    runs: Vec<WriteRows>,
    run: WriteRows,
    more_runs: Vec<WriteRows>,
    none: (Vec<Vec<u8>>, Vec<ConformanceRow>, Vec<WriteRows>),
)
    requires
        call_ensures(and_octets, (all, one), more),
        call_ensures(and_row, (rows, row), more_rows),
        call_ensures(and_run, (runs, run), more_runs),
        call_ensures(no_octets, (), none.0),
        call_ensures(no_rows, (), none.1),
        call_ensures(no_runs, (), none.2),
    ensures
        none.0@.len() == 0 && none.1@.len() == 0 && none.2@.len() == 0,
        more@.len() == all@.len() + 1,
        more@[all@.len() as int]@ == one@,
        forall|i: int| 0 <= i < all@.len() ==> (#[trigger] more@[i])@ == all@[i]@,
        more_rows@.len() == rows@.len() + 1,
        more_rows@[rows@.len() as int]@ == row@,
        forall|i: int| 0 <= i < rows@.len() ==> (#[trigger] more_rows@[i])@ == rows@[i]@,
        more_runs@.len() == runs@.len() + 1,
        more_runs@[runs@.len() as int]@ == run@,
        forall|i: int| 0 <= i < runs@.len() ==> (#[trigger] more_runs@[i])@ == runs@[i]@,
{
    let a = octet_views(more@);
    let b = row_views(more_rows@);
    let c = run_views(more_runs@);
    assert(octet_views(none.0@).len() == none.0@.len());
    assert(row_views(none.1@).len() == none.1@.len());
    assert(run_views(none.2@).len() == none.2@.len());
    assert(a.len() == more@.len() && b.len() == more_rows@.len() && c.len() == more_runs@.len());
    assert forall|i: int| 0 <= i < more@.len() implies (#[trigger] more@[i])@ == a[i] by {}
    assert forall|i: int| 0 <= i < more_rows@.len() implies (#[trigger] more_rows@[i])@ == b[i]
        by {}
    assert forall|i: int| 0 <= i < more_runs@.len() implies (#[trigger] more_runs@[i])@ == c[i]
        by {}
}

/// One, two or three of a kind are these, in order.
pub proof fn few_are_these_in_order(
    a: Vec<u8>,
    b: Vec<u8>,
    c: Vec<u8>,
    pair: Vec<Vec<u8>>,
    triple: Vec<Vec<u8>>,
    x: ConformanceRow,
    y: ConformanceRow,
    z: ConformanceRow,
    lone_row: Vec<ConformanceRow>,
    row_pair: Vec<ConformanceRow>,
    row_triple: Vec<ConformanceRow>,
)
    requires
        call_ensures(two_octets, (a, b), pair),
        call_ensures(three_octets, (a, b, c), triple),
        call_ensures(one_row, (x,), lone_row),
        call_ensures(two_rows, (x, y), row_pair),
        call_ensures(three_rows, (x, y, z), row_triple),
    ensures
        pair@.len() == 2 && pair@[0]@ == a@ && pair@[1]@ == b@,
        triple@.len() == 3 && triple@[0]@ == a@ && triple@[1]@ == b@ && triple@[2]@ == c@,
        lone_row@.len() == 1 && lone_row@[0]@ == x@,
        row_pair@.len() == 2 && row_pair@[0]@ == x@ && row_pair@[1]@ == y@,
        row_triple@.len() == 3 && row_triple@[0]@ == x@ && row_triple@[1]@ == y@
            && row_triple@[2]@ == z@,
{
    let p = octet_views(pair@);
    let q = octet_views(triple@);
    assert(p.len() == pair@.len() && p[0] == a@ && p[1] == b@);
    assert(q.len() == triple@.len() && q[0] == a@ && q[1] == b@ && q[2] == c@);
    let u = row_views(lone_row@);
    let v = row_views(row_pair@);
    let w = row_views(row_triple@);
    assert(u.len() == lone_row@.len() && u[0] == x@);
    assert(v.len() == row_pair@.len() && v[0] == x@ && v[1] == y@);
    assert(w.len() == row_triple@.len() && w[0] == x@ && w[1] == y@ && w[2] == z@);
}

/// A row has the version, type and payload it was made with, schema version 1 and no metadata. With
/// another schema version or with metadata it differs in that and in nothing else.
pub proof fn rows_are_made_part_by_part(
    version: u64,
    event_type: &str,
    payload: Vec<u8>,
    row: ConformanceRow,
    schema_version: u32,
    other_schema: ConformanceRow,
    metadata: Vec<u8>,
    noted: ConformanceRow,
    octet: u8,
    small: ConformanceRow,
)
    requires
        call_ensures(ConformanceRow::new, (version, event_type, payload), row),
        call_ensures(ConformanceRow::with_schema_version, (row, schema_version), other_schema),
        call_ensures(ConformanceRow::with_metadata, (row, metadata), noted),
        call_ensures(row_of_octet, (version, octet), small),
    ensures
        row.version == version && row.event_type@ == event_type@ && row.payload@ == payload@,
        row.schema_version == 1 && row.metadata is None,
        other_schema.schema_version == schema_version,
        other_schema.version == version && other_schema.event_type@ == event_type@
            && other_schema.payload@ == payload@ && other_schema.metadata is None,
        noted.metadata matches Some(m) && m@ == metadata@,
        noted.version == version && noted.event_type@ == event_type@ && noted.payload@ == payload@
            && noted.schema_version == 1,
        small.version == version && small.payload@.len() == 1 && small.payload@[0] == octet,
        small.event_type@ == "E"@ && small.schema_version == 1 && small.metadata is None,
{
    assert(row@.version == version && row@.payload == payload@);
    assert(other_schema@.version == version && other_schema@.payload == payload@);
    assert(noted@.version == version && noted@.payload == payload@);
    assert(small@.payload == seq![octet]);
    assert(row@.metadata is None && other_schema@.metadata is None && small@.metadata is None);
    assert(noted@.metadata == Some(metadata@));
    assert(row@.schema_version == 1 && noted@.schema_version == 1 && small@.schema_version == 1);
    assert(other_schema@.schema_version == schema_version);
    assert(small@.version == version);
}

/// Plain rows count up from version 1 and carry nothing.
pub proof fn plain_rows_count_up(n: u64, rows: Vec<ConformanceRow>)
    requires
        call_ensures(plain_rows, (n,), rows),
    ensures
        rows@.len() == n,
        forall|i: int|
            0 <= i < n ==> (#[trigger] rows@[i]).version == i + 1 && rows@[i].payload@.len() == 0
                && rows@[i].metadata is None,
{
    let views = row_views(rows@);
    assert(views.len() == rows@.len());
    assert forall|i: int| 0 <= i < n implies (#[trigger] rows@[i]).version == i + 1
        && rows@[i].payload@.len() == 0 && rows@[i].metadata is None by {
        assert(views[i] == rows@[i]@);
        assert(views[i].metadata is None);
    }
}

/// A head of `n` events.
pub open spec fn stands_for(head: Option<Version>, n: int) -> bool {
    match head {
        None => n == 0,
        Some(v) => n > 0 && v@ == n,
    }
}

/// An event that is to be appended at a version is one event with that version, for a stream with
/// all the events before it.
pub proof fn event_expects_the_events_before_it(
    key: StreamKey,
    version: u64,
    payload: Vec<u8>,
    run: WriteRows,
    ask: Ask,
)
    requires
        version >= 1,
        call_ensures(event_run_at, (key, version, payload), run),
        call_ensures(append_event, (key, version, payload), ask),
    ensures
        run.key@ == key@,
        stands_for(run.expected, version - 1),
        run.rows@.len() == 1,
        run.rows@[0].version == version,
        run.rows@[0].payload@ == payload@,
        ask matches Ask::Append(asked) && asked@ == run@,
{
    assert(row_views(run.rows@).len() == run.rows@.len());
    assert(row_views(run.rows@)[0] == run.rows@[0]@);
}

/// The questions ask for what they are given: rows for a fresh stream, a stream from a version on,
/// all streams behind a position. There is no append of no rows.
pub proof fn questions_ask_for_what_they_are_given(
    key: StreamKey,
    rows: Vec<ConformanceRow>,
    append: Option<Ask>,
    from: Version,
    read: Ask,
    after: Mark,
    all: Ask,
    name: &str,
    stream: StreamKey,
    n: u64,
    version: Version,
)
    requires
        call_ensures(append_rows, (key, rows), append),
        call_ensures(drain_stream, (key, from), read),
        call_ensures(drain_all, (after,), all),
        call_ensures(named, (name,), stream),
        n > 0,
        call_ensures(version_of, (n,), version),
    ensures
        append is None <==> rows@.len() == 0,
        append matches Some(ask) ==> (ask matches Ask::Append(run) && run.key@ == key@
            && run.expected is None && row_views(run.rows@) == row_views(rows@)),
        read matches Ask::ReadStream { key: k, from: f, polls } && k@ == key@ && f == from && polls
            == 0,
        all matches Ask::ReadAll { after: a } && a == after,
        stream@ == encode_utf8(name@),
        version@ == n,
{
}

/// A mark finds the position that it stands for: none for the start; that of a row, or of the last
/// row, of an earlier answer; one of the samples. There is none where the answer has no such row.
pub proof fn marks_find_their_position<P: AllPosition>(
    mark: Mark,
    seen: &[Reply<P>],
    n: usize,
    samples: &[P],
    r: Option<P>,
)
    requires
        n <= seen@.len(),
        call_ensures(Mark::find::<P>, (mark, seen, n, samples), r),
    ensures
        mark is Start ==> r is None,
        mark matches Mark::Sample { index } ==> if index < samples@.len() {
            r == Some(samples@[index as int])
        } else {
            r is None
        },
        mark matches Mark::Row { answer, row } ==> (r is Some <==> answer < n && (
        seen@[answer as int] matches Reply::AllRows(rows) && row < rows@.len())),
        mark matches Mark::Row { answer, row } ==> (r matches Some(p) ==> p
            == seen@[answer as int]->AllRows_0@[row as int].position),
        mark matches Mark::Last { answer } ==> (r is Some <==> answer < n && (
        seen@[answer as int] matches Reply::AllRows(rows) && rows@.len() > 0)),
        mark matches Mark::Last { answer } ==> (r matches Some(p) ==> p
            == seen@[answer as int]->AllRows_0@.last().position),
{
    match mark {
        Mark::Row { answer, row } => {
            if answer < n {
                assert(reply_views(seen@)[answer as int] == seen@[answer as int]@);
                if let Reply::AllRows(rows) = seen@[answer as int] {
                    let views = all_views(rows@);
                    assert(views.len() == rows@.len());
                    if row < rows@.len() {
                        assert(views[row as int] == rows@[row as int]@);
                    }
                }
            }
        },
        Mark::Last { answer } => {
            if answer < n {
                assert(reply_views(seen@)[answer as int] == seen@[answer as int]@);
                if let Reply::AllRows(rows) = seen@[answer as int] {
                    let views = all_views(rows@);
                    assert(views.len() == rows@.len());
                    if rows@.len() > 0 {
                        assert(views.last() == rows@.last()@);
                    }
                }
            }
        },
        _ => {},
    }
}

/// Stages pair a question with the answers to it: appends that must land, or end as wanted; reads of
/// a stream from a version on; an event behind those before it.
pub proof fn stages_pair_questions_and_answers(
    key: StreamKey,
    rows: Vec<ConformanceRow>,
    want: Want,
    fresh: Stage,
    claims: Stage,
    version: u64,
    payload: Vec<u8>,
    event: Stage,
    from: u64,
    rows_want: RowsWant,
    reads: Stage,
    reopens: Stage,
)
    requires
        call_ensures(Stage::fresh, (key, rows), fresh),
        call_ensures(Stage::claims_fresh, (key, rows, want), claims),
        version >= 1,
        call_ensures(Stage::event, (key, version, payload), event),
        from > 0,
        call_ensures(Stage::reads, (key, from, rows_want), reads),
        call_ensures(Stage::reopens, (), reopens),
    ensures
        fresh.ask matches Ask::Append(run) && run.key@ == key@ && run.expected is None && row_views(
            run.rows@,
        ) == row_views(rows@),
        fresh.want is Landed,
        claims.ask@ == fresh.ask@,
        claims.want@ == want@,
        event.ask matches Ask::Append(run) && run.key@ == key@ && stands_for(
            run.expected,
            version - 1,
        ),
        event.want is Landed,
        reads.ask matches Ask::ReadStream { key: k, from: f, polls } && k@ == key@ && f@ == from
            && polls == 0,
        reads.want matches Want::Rows { want: w, polls } && w@ == rows_want@ && polls == 0,
        reopens.ask is Reopen && reopens.want is Done,
{
}

/// Stages of subscriptions and of all streams: opened behind a version, or at the beginning; one
/// step, or steps up to the boundary; read behind a position, in order or with the first row behind
/// it.
pub proof fn live_stages_pair_questions_and_answers(
    slot: usize,
    key: StreamKey,
    behind: u64,
    subscribes: Stage,
    steps_want: StepsWant,
    steps: Stage,
    catches_up: Stage,
    after: Mark,
    all_want: AllWant,
    in_order: bool,
    reads_all: Stage,
    resumes_all: Stage,
)
    requires
        call_ensures(Stage::subscribes, (slot, key, behind), subscribes),
        call_ensures(Stage::steps, (slot, steps_want), steps),
        call_ensures(Stage::catches_up, (slot, steps_want), catches_up),
        call_ensures(Stage::reads_all, (after, all_want, in_order), reads_all),
        call_ensures(Stage::resumes_all, (after, all_want), resumes_all),
    ensures
        subscribes.ask matches Ask::Subscribe { slot: s, key: k, behind: b } && s == slot && k@
            == key@ && stands_for(b, behind as int),
        subscribes.want is Done,
        steps.ask matches Ask::Steps { slot: s, until } && s == slot && until is One,
        steps.want matches Want::Steps(w) && w@ == steps_want@,
        catches_up.ask matches Ask::Steps { slot: s, until } && s == slot && until is CaughtUp,
        catches_up.want matches Want::Steps(w) && w@ == steps_want@,
        reads_all.ask matches Ask::ReadAll { after: a } && a == after,
        reads_all.want matches Want::All { rows, in_order: o, behind: b } && rows@ == all_want@ && o
            == in_order && b is Start,
        resumes_all.ask matches Ask::ReadAll { after: a } && a == after,
        resumes_all.want matches Want::All { rows, in_order: o, behind: b } && rows@ == all_want@
            && !o && b == after,
{
}

/// An id of a subscription or a snapshot reads as its text, and its stream is named by it.
pub proof fn sub_id_reads_as_its_text(
    text: &str,
    id: SubId,
    read: &str,
    label: &str,
    key: StreamKey,
)
    requires
        call_ensures(SubId::new, (text,), id),
        call_ensures(SubId::as_str, (&id,), read),
        call_ensures(<SubId as Id>::to_label, (&id,), label),
        call_ensures(SubId::key, (&id,), key),
    ensures
        read@ == text@,
        label@ == text@,
        key@ == encode_utf8(text@),
{
}

/// A tick appends the event of its version to the stream of its name.
pub proof fn tick_appends_its_version(name: &str, version: u64, stage: Stage)
    requires
        version >= 1,
        call_ensures(tick, (name, version), stage),
    ensures
        stage.want is Landed,
        stage.ask matches Ask::Append(run) && run.key@ == encode_utf8(name@) && stands_for(
            run.expected,
            version - 1,
        ) && run.rows@.len() == 1 && run.rows@[0].version == version,
{
    if let Ask::Append(run) = stage.ask {
        assert(row_views(run.rows@).len() == run.rows@.len());
        assert(row_views(run.rows@)[0] == run.rows@[0]@);
    }
}

} // verus!
