//! Inputs at the edge: what breaks the append protocol is refused whole, and extreme values come
//! back as they went in.

use crate::conformance::ask::{name_octets, named, Mark};
use crate::conformance::reply::{reply_views, Reply};
use crate::conformance::row::{plain_row, ConformanceRow};
use crate::conformance::script::{
    and_octets, no_octets, octet_row, one_octet, one_row, one_two_three, ramp, ramp_octets,
    row_of_octet, three_rows, two_rows, verdict_of, Script, Stage, StageView, Verdict,
};
use crate::conformance::want::{
    optional_views, AllWant, AllWantView, RowsWant, RowsWantView, Want, WantView,
};
use crate::envelope::EventView;
use crate::store::AllPosition;
use crate::stream_key::StreamKey;
use crate::value::MAX_EVENT_TYPE_LEN;
use vstd::prelude::*;
use vstd::string::*;

verus! {

/// A row of type `E` with one byte, and with metadata.
pub open spec fn noted_row(version: nat, octet: u8, metadata: Seq<u8>) -> EventView {
    EventView { metadata: Some(metadata), ..octet_row(version, octet) }
}

/// A refused append changes nothing.
pub open spec fn conflict_leaves_store_unchanged() -> Seq<StageView> {
    seq![
        StageView::fresh(
            name_octets("unchanged"),
            seq![noted_row(1, 1, seq![7u8]), octet_row(2, 2)],
        ),
        StageView::reads(name_octets("unchanged"), 1, RowsWantView::Any),
        StageView::reads_all(Mark::Start, AllWantView::Any, false),
        StageView::claims_fresh(
            name_octets("unchanged"),
            seq![octet_row(1, 9)],
            WantView::Refused,
        ),
        StageView::reads(name_octets("unchanged"), 1, RowsWantView::SameAs(1)),
        StageView::reads_all(Mark::Start, AllWantView::CountOf(2), false),
    ]
}

/// A refused append leaves its stream as it was, byte for byte, and all streams with as many
/// events.
pub fn check_conflict_leaves_store_unchanged<P: AllPosition>(seen: &[Reply<P>]) -> (r: Verdict<P>)
    ensures
        r@ == verdict_of(conflict_leaves_store_unchanged(), reply_views(seen@), Seq::empty()),
{
    let rows: Vec<ConformanceRow> = two_rows(
        row_of_octet(1, 1).with_metadata(one_octet(7)),
        row_of_octet(2, 2),
    );
    let script: Script = Script::new().with(Stage::fresh(named("unchanged"), rows)).with(
        Stage::reads(named("unchanged"), 1, RowsWant::Any),
    ).with(Stage::reads_all(Mark::Start, AllWant::Any, false)).with(
        Stage::claims_fresh(named("unchanged"), one_row(row_of_octet(1, 9)), Want::Refused),
    ).with(Stage::reads(named("unchanged"), 1, RowsWant::SameAs { answer: 1 })).with(
        Stage::reads_all(Mark::Start, AllWant::CountOf { answer: 2 }, false),
    );
    assert(script@ =~= conflict_leaves_store_unchanged());
    script.judge(seen)
}

/// A batch with a gap is refused.
pub open spec fn version_gap_batch_rejected() -> Seq<StageView> {
    seq![
        StageView::claims_fresh(
            name_octets("gap"),
            seq![octet_row(1, 1), octet_row(3, 3)],
            WantView::Conflict,
        ),
        StageView::reads(name_octets("gap"), 1, RowsWantView::Count(0)),
    ]
}

/// A batch with versions 1 and 3 is refused as a conflict, and nothing of it lands.
pub fn check_version_gap_batch_rejected<P: AllPosition>(seen: &[Reply<P>]) -> (r: Verdict<P>)
    ensures
        r@ == verdict_of(version_gap_batch_rejected(), reply_views(seen@), Seq::empty()),
{
    let rows: Vec<ConformanceRow> = two_rows(row_of_octet(1, 1), row_of_octet(3, 3));
    let script: Script = Script::new().with(
        Stage::claims_fresh(named("gap"), rows, Want::Conflict),
    ).with(Stage::reads(named("gap"), 1, RowsWant::Count(0)));
    assert(script@ =~= version_gap_batch_rejected());
    script.judge(seen)
}

/// A fresh stream starts at version 1.
pub open spec fn wrong_first_version_rejected() -> Seq<StageView> {
    seq![
        StageView::claims_fresh(name_octets("first"), seq![octet_row(3, 3)], WantView::Conflict),
        StageView::reads(name_octets("first"), 1, RowsWantView::Count(0)),
    ]
}

/// A fresh stream that would start at version 3 is refused as a conflict, and nothing lands.
pub fn check_wrong_first_version_rejected<P: AllPosition>(seen: &[Reply<P>]) -> (r: Verdict<P>)
    ensures
        r@ == verdict_of(wrong_first_version_rejected(), reply_views(seen@), Seq::empty()),
{
    let script: Script = Script::new().with(
        Stage::claims_fresh(named("first"), one_row(row_of_octet(3, 3)), Want::Conflict),
    ).with(Stage::reads(named("first"), 1, RowsWant::Count(0)));
    assert(script@ =~= wrong_first_version_rejected());
    script.judge(seen)
}

/// No metadata, one byte of it, three bytes of it.
pub open spec fn metadata_samples() -> Seq<Option<Seq<u8>>> {
    seq![None, Some(seq![0u8]), Some(seq![1u8, 2u8, 3u8])]
}

/// Absent metadata stays absent, and present metadata present.
pub open spec fn metadata_absent_vs_present_distinct() -> Seq<StageView> {
    seq![
        StageView::fresh(
            name_octets("meta"),
            seq![
                octet_row(1, 1),
                noted_row(2, 2, seq![0u8]),
                noted_row(3, 3, seq![1u8, 2u8, 3u8]),
            ],
        ),
        StageView::reads(name_octets("meta"), 1, RowsWantView::LeadingMetadata(metadata_samples())),
    ]
}

/// Absent metadata comes back as absent, and metadata of one zero byte and of three bytes as it
/// went in.
pub fn check_metadata_absent_vs_present_distinct<P: AllPosition>(seen: &[Reply<P>]) -> (r: Verdict<
    P,
>)
    ensures
        r@ == verdict_of(metadata_absent_vs_present_distinct(), reply_views(seen@), Seq::empty()),
{
    let rows: Vec<ConformanceRow> = three_rows(
        row_of_octet(1, 1),
        row_of_octet(2, 2).with_metadata(one_octet(0)),
        row_of_octet(3, 3).with_metadata(one_two_three()),
    );
    let mut metadata: Vec<Option<Vec<u8>>> = Vec::new();
    metadata.push(None);
    metadata.push(Some(one_octet(0)));
    metadata.push(Some(one_two_three()));
    assert(optional_views(metadata@) =~= metadata_samples());
    let script: Script = Script::new().with(Stage::fresh(named("meta"), rows)).with(
        Stage::reads(named("meta"), 1, RowsWant::LeadingMetadata(metadata)),
    );
    assert(script@ =~= metadata_absent_vs_present_distinct());
    script.judge(seen)
}

/// The longest name that a type can have.
pub open spec fn longest_name() -> Seq<char> {
    Seq::new(MAX_EVENT_TYPE_LEN as nat, |i: int| 'a')
}

/// The longest name that a type can have.
fn long_name() -> (r: String)
    ensures
        r@ == longest_name(),
{
    let mut out: String = String::new();
    let mut i: usize = 0;
    while i < MAX_EVENT_TYPE_LEN
        invariant
            0 <= i <= MAX_EVENT_TYPE_LEN,
            out@.len() == i,
            forall|j: int| 0 <= j < i ==> out@[j] == 'a',
        decreases MAX_EVENT_TYPE_LEN - i,
    {
        proof {
            reveal_strlit("a");
        }
        out.append("a");
        i = i + 1;
    }
    assert(out@ =~= longest_name());
    out
}

/// A type with the longest name.
pub open spec fn max_length_event_type_round_trips() -> Seq<StageView> {
    seq![
        StageView::fresh(name_octets("maxtype"), seq![plain_row(1, longest_name(), seq![1u8])]),
        StageView::reads(name_octets("maxtype"), 1, RowsWantView::FirstEventType(longest_name())),
    ]
}

/// A type with the longest name comes back as it went in.
pub fn check_max_length_event_type_round_trips<P: AllPosition>(seen: &[Reply<P>]) -> (r: Verdict<P>)
    ensures
        r@ == verdict_of(max_length_event_type_round_trips(), reply_views(seen@), Seq::empty()),
{
    let name: String = long_name();
    let row: ConformanceRow = ConformanceRow::new(1, name.as_str(), one_octet(1));
    let script: Script = Script::new().with(Stage::fresh(named("maxtype"), one_row(row))).with(
        Stage::reads(named("maxtype"), 1, RowsWant::FirstEventType(name)),
    );
    assert(script@ =~= max_length_event_type_round_trips());
    script.judge(seen)
}

/// A payload of 1 MiB.
pub open spec fn large_payload_round_trips() -> Seq<StageView> {
    seq![
        StageView::fresh(
            name_octets("large-payload"),
            seq![plain_row(1, "E"@, ramp(1_048_576, 251))],
        ),
        StageView::reads(
            name_octets("large-payload"),
            1,
            RowsWantView::Payloads(seq![ramp(1_048_576, 251)]),
        ),
    ]
}

/// A payload of 1 MiB comes back byte for byte.
pub fn check_large_payload_round_trips<P: AllPosition>(seen: &[Reply<P>]) -> (r: Verdict<P>)
    ensures
        r@ == verdict_of(large_payload_round_trips(), reply_views(seen@), Seq::empty()),
{
    let row: ConformanceRow = ConformanceRow::new(1, "E", ramp_octets(1_048_576, 251));
    let script: Script = Script::new().with(
        Stage::fresh(named("large-payload"), one_row(row)),
    ).with(
        Stage::reads(
            named("large-payload"),
            1,
            RowsWant::Payloads(and_octets(no_octets(), ramp_octets(1_048_576, 251))),
        ),
    );
    assert(script@ =~= large_payload_round_trips());
    script.judge(seen)
}

/// The bytes of a key that is no text.
pub open spec fn binary_key() -> Seq<u8> {
    seq![0x00u8, 0xffu8, 0x42u8]
}

/// A key that is no text.
fn binary() -> (r: StreamKey)
    ensures
        r@ == binary_key(),
{
    let mut bytes: Vec<u8> = Vec::new();
    bytes.push(0x00);
    bytes.push(0xff);
    bytes.push(0x42);
    assert(bytes@ =~= binary_key());
    StreamKey::from_slice(bytes.as_slice())
}

/// Streams whose keys share a prefix.
pub open spec fn prefix_stream_ids_isolated() -> Seq<StageView> {
    seq![
        StageView::fresh(name_octets("a"), seq![octet_row(1, 1)]),
        StageView::fresh(name_octets("ab"), seq![octet_row(1, 2), octet_row(2, 3)]),
        StageView::fresh(name_octets("поток-流"), seq![octet_row(1, 4)]),
        StageView::fresh(binary_key(), seq![octet_row(1, 5)]),
        StageView::reads(name_octets("a"), 1, RowsWantView::Payloads(seq![seq![1u8]])),
        StageView::reads(name_octets("ab"), 1, RowsWantView::Count(2)),
        StageView::reads(name_octets("поток-流"), 1, RowsWantView::Payloads(seq![seq![4u8]])),
        StageView::reads(binary_key(), 1, RowsWantView::Payloads(seq![seq![5u8]])),
    ]
}

/// Streams whose keys share a prefix, or are no ASCII or no text at all, each hold their own
/// events.
pub fn check_prefix_stream_ids_isolated<P: AllPosition>(seen: &[Reply<P>]) -> (r: Verdict<P>)
    ensures
        r@ == verdict_of(prefix_stream_ids_isolated(), reply_views(seen@), Seq::empty()),
{
    let script: Script = Script::new().with(
        Stage::fresh(named("a"), one_row(row_of_octet(1, 1))),
    ).with(
        Stage::fresh(named("ab"), two_rows(row_of_octet(1, 2), row_of_octet(2, 3))),
    ).with(Stage::fresh(named("поток-流"), one_row(row_of_octet(1, 4)))).with(
        Stage::fresh(binary(), one_row(row_of_octet(1, 5))),
    ).with(
        Stage::reads(named("a"), 1, RowsWant::Payloads(and_octets(no_octets(), one_octet(1)))),
    ).with(Stage::reads(named("ab"), 1, RowsWant::Count(2))).with(
        Stage::reads(
            named("поток-流"),
            1,
            RowsWant::Payloads(and_octets(no_octets(), one_octet(4))),
        ),
    ).with(
        Stage::reads(binary(), 1, RowsWant::Payloads(and_octets(no_octets(), one_octet(5)))),
    );
    assert(script@ =~= prefix_stream_ids_isolated());
    script.judge(seen)
}

} // verus!
