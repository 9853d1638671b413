//! Wire grammar of the SCP1 V2 messages.

use vstd::prelude::*;

use crate::codec::{
    sort_by_key, stable_sort_positions,
    enc_list, f_u16, g_u16, lemma_distinct_below, lemma_list_canonical, lemma_list_roundtrip,
    lemma_parse_list_fail, lemma_u16_elem, parse_list, put_u16s, elem_canonical,
    elem_roundtrips, lemma_le16_of_i16, lemma_le_i16_canonical,
};
use crate::protocol::{invalid_error, ProtocolError, MAX_CHANNEL_COUNT};
use crate::protocol_v2::{
    stream_table_valid, validate_count, CapturePhase, CausalRelation, SampleDomain, SignalOwner,
    SignalRole, StreamChannelBinding, StreamDescriptor, StreamDescriptorV, StreamTable,
    StreamTableV, MAX_CAUSAL_RELATION_COUNT, MAX_STREAM_COUNT, stream_views, descriptor_ok,
};
use crate::reader::{rd_u16, PayloadReader};
use crate::snapshot::{enc_meta, put_snapshot_meta, SnapshotMeta, SNAPSHOT_KNOWN_FLAGS};
use crate::protocol::{copy_range, spec_crc32c, Crc32c, Frame, MAX_BATCH_SAMPLES, MAX_PAYLOAD_LEN, PROTOCOL_VERSION_V2};
use crate::protocol_v2::{
    configure_shape_ok, validate_configure_stream_shape, ConfigureStream, MAX_CAPTURE_PAYLOAD_BYTES,
    MSG_ARM_CAPTURE, MSG_CANCEL_CAPTURE, MSG_CAPTURE_BEGIN, MSG_CAPTURE_DATA, MSG_CAPTURE_END,
    MSG_CAPTURE_STATUS, MSG_CONFIGURE_STREAM, MSG_MANUAL_TRIGGER, MSG_STREAM_SAMPLE_BATCH,
    MSG_STREAM_TABLE,
};
use crate::capture_v2::{
    arm_capture_ok, begin_ok, decode_arm_capture, decode_capture_begin, decode_capture_end,
    decode_capture_id, decode_capture_status, enc_arm, enc_begin, enc_end, enc_status,
    encode_arm_capture, encode_capture_begin, encode_capture_end, encode_capture_status,
    lemma_arm_canonical, lemma_arm_roundtrip, lemma_begin_canonical, lemma_begin_roundtrip,
    lemma_capture_id_canonical, lemma_capture_id_roundtrip, lemma_end_canonical,
    lemma_end_roundtrip, lemma_status_canonical, lemma_status_roundtrip, parse_arm, parse_begin,
    parse_capture_id, parse_end, parse_status, ArmCapture, CancelCapture, CaptureBegin, CaptureEnd,
    CaptureStatus, ManualTrigger,
};
use crate::protocol_v2::has_bit;
use crate::wire::{
    from_le16, from_le32, from_le64, le16, le32, le64, le_i16, lemma_le16_canonical,
    lemma_le16_roundtrip, lemma_le32_canonical, lemma_le32_roundtrip, lemma_le64_canonical,
    lemma_le64_roundtrip, put_bytes, put_i16, put_u16, put_u32, put_u64,
};

verus! {

// ---------------------------------------------------------------------------
// STREAM_TABLE
// ---------------------------------------------------------------------------

pub open spec fn enc_stream(d: StreamDescriptorV) -> Seq<u8> {
    le16(d.stream_id) + seq![d.domain.spec_code(), d.capture_phase.spec_code()] + le32(
        d.sample_rate_hz,
    ) + le16(d.consistency_group) + le16(d.channel_ids.len() as u16) + enc_list(
        d.channel_ids,
        g_u16(),
    )
}

pub open spec fn parse_stream(s: Seq<u8>, p: int) -> Option<(StreamDescriptorV, int)> {
    if p < 0 || p + 12 > s.len() {
        None
    } else {
        let dom = SampleDomain::spec_from_code(s[p + 2]);
        let ph = CapturePhase::spec_from_code(s[p + 3]);
        let n = from_le16(s.subrange(p + 10, p + 12));
        if dom is None || ph is None || n < 1 || n > MAX_CHANNEL_COUNT {
            None
        } else {
            match parse_list(s, p + 12, n as nat, f_u16()) {
                Some((ids, q)) => Some(
                    (
                        StreamDescriptorV {
                            stream_id: from_le16(s.subrange(p, p + 2)),
                            domain: dom->Some_0,
                            capture_phase: ph->Some_0,
                            sample_rate_hz: from_le32(s.subrange(p + 4, p + 8)),
                            consistency_group: from_le16(s.subrange(p + 8, p + 10)),
                            channel_ids: ids,
                        },
                        q,
                    ),
                ),
                None => None,
            }
        }
    }
}

pub open spec fn g_stream() -> spec_fn(StreamDescriptorV) -> Seq<u8> {
    |d: StreamDescriptorV| enc_stream(d)
}

pub open spec fn f_stream() -> spec_fn(Seq<u8>, int) -> Option<(StreamDescriptorV, int)> {
    |s: Seq<u8>, p: int| parse_stream(s, p)
}

pub open spec fn enc_binding(b: StreamChannelBinding) -> Seq<u8> {
    le16(b.channel_id) + le16(b.stream_id) + seq![b.owner.spec_code(), b.role.spec_code()]
}

pub open spec fn parse_binding(s: Seq<u8>, p: int) -> Option<(StreamChannelBinding, int)> {
    if p < 0 || p + 6 > s.len() {
        None
    } else {
        let owner = SignalOwner::spec_from_code(s[p + 4]);
        let role = SignalRole::spec_from_code(s[p + 5]);
        if owner is None || role is None {
            None
        } else {
            Some(
                (
                    StreamChannelBinding {
                        channel_id: from_le16(s.subrange(p, p + 2)),
                        stream_id: from_le16(s.subrange(p + 2, p + 4)),
                        owner: owner->Some_0,
                        role: role->Some_0,
                    },
                    p + 6,
                ),
            )
        }
    }
}

pub open spec fn g_binding() -> spec_fn(StreamChannelBinding) -> Seq<u8> {
    |b: StreamChannelBinding| enc_binding(b)
}

pub open spec fn f_binding() -> spec_fn(Seq<u8>, int) -> Option<(StreamChannelBinding, int)> {
    |s: Seq<u8>, p: int| parse_binding(s, p)
}

pub open spec fn enc_relation(r: CausalRelation) -> Seq<u8> {
    le16(r.input_stream_id) + le16(r.result_stream_id) + le16(r.application_stream_id) + le_i16(
        r.result_input_offset,
    ) + le_i16(r.application_result_offset)
}

pub open spec fn parse_relation(s: Seq<u8>, p: int) -> Option<(CausalRelation, int)> {
    if p < 0 || p + 10 > s.len() {
        None
    } else {
        Some(
            (
                CausalRelation {
                    input_stream_id: from_le16(s.subrange(p, p + 2)),
                    result_stream_id: from_le16(s.subrange(p + 2, p + 4)),
                    application_stream_id: from_le16(s.subrange(p + 4, p + 6)),
                    result_input_offset: from_le16(s.subrange(p + 6, p + 8)) as i16,
                    application_result_offset: from_le16(s.subrange(p + 8, p + 10)) as i16,
                },
                p + 10,
            ),
        )
    }
}

pub open spec fn g_relation() -> spec_fn(CausalRelation) -> Seq<u8> {
    |r: CausalRelation| enc_relation(r)
}

pub open spec fn f_relation() -> spec_fn(Seq<u8>, int) -> Option<(CausalRelation, int)> {
    |s: Seq<u8>, p: int| parse_relation(s, p)
}

/// STREAM_TABLE payload layout.
pub open spec fn enc_table(t: StreamTableV) -> Seq<u8> {
    le32(t.revision) + le16(t.streams.len() as u16) + le16(t.bindings.len() as u16) + le16(
        t.causal_relations.len() as u16,
    ) + le16(0) + enc_list(t.streams, g_stream()) + enc_list(t.bindings, g_binding())
        + enc_list(t.causal_relations, g_relation())
}

/// The grammar of a STREAM_TABLE at `p` (validity is checked separately).
pub open spec fn parse_table(s: Seq<u8>, p: int) -> Option<(StreamTableV, int)> {
    if p < 0 || p + 12 > s.len() {
        None
    } else {
        let ns = from_le16(s.subrange(p + 4, p + 6));
        let nb = from_le16(s.subrange(p + 6, p + 8));
        let nr = from_le16(s.subrange(p + 8, p + 10));
        let reserved = from_le16(s.subrange(p + 10, p + 12));
        if reserved != 0 || ns < 1 || ns > MAX_STREAM_COUNT || nb < 1 || nb > MAX_CHANNEL_COUNT
            || nr > MAX_CAUSAL_RELATION_COUNT {
            None
        } else {
            match parse_list(s, p + 12, ns as nat, f_stream()) {
                Some((streams, q1)) => match parse_list(s, q1, nb as nat, f_binding()) {
                    Some((bindings, q2)) => match parse_list(s, q2, nr as nat, f_relation()) {
                        Some((relations, q3)) => Some(
                            (
                                StreamTableV {
                                    revision: from_le32(s.subrange(p, p + 4)),
                                    streams,
                                    bindings,
                                    causal_relations: relations,
                                },
                                q3,
                            ),
                        ),
                        None => None,
                    },
                    None => None,
                },
                None => None,
            }
        }
    }
}

/// A table grammar that also passes validation.
pub open spec fn parse_valid_table(s: Seq<u8>, p: int) -> Option<(StreamTableV, int)> {
    match parse_table(s, p) {
        Some((t, q)) => if stream_table_valid(t) {
            Some((t, q))
        } else {
            None
        },
        None => None,
    }
}

// --- laws of the grammar ----------------------------------------------------

proof fn lemma_stream_elem_roundtrip(s: Seq<u8>, d: StreamDescriptorV)
    requires
        1 <= d.channel_ids.len() <= MAX_CHANNEL_COUNT,
    ensures
        elem_roundtrips(s, f_stream(), g_stream(), d),
{
    assert forall|p: int|
        0 <= p && p + g_stream()(d).len() <= s.len() && #[trigger] s.subrange(
            p,
            p + g_stream()(d).len(),
        ) == g_stream()(d) implies f_stream()(s, p) == Some((d, p + g_stream()(d).len())) by {
        let e = enc_stream(d);
        let w = s.subrange(p, p + e.len());
        assert(w == e);
        lemma_le16_roundtrip(d.stream_id);
        lemma_le32_roundtrip(d.sample_rate_hz);
        lemma_le16_roundtrip(d.consistency_group);
        lemma_le16_roundtrip(d.channel_ids.len() as u16);
        let ids = enc_list(d.channel_ids, g_u16());
        assert(e.subrange(0, 2) =~= le16(d.stream_id));
        assert(e.subrange(4, 8) =~= le32(d.sample_rate_hz));
        assert(e.subrange(8, 10) =~= le16(d.consistency_group));
        assert(e.subrange(10, 12) =~= le16(d.channel_ids.len() as u16));
        assert(e.subrange(12, e.len() as int) =~= ids);
        assert(e[2] == d.domain.spec_code());
        assert(e[3] == d.capture_phase.spec_code());
        assert(s.subrange(p, p + 2) =~= w.subrange(0, 2));
        assert(s.subrange(p + 4, p + 8) =~= w.subrange(4, 8));
        assert(s.subrange(p + 8, p + 10) =~= w.subrange(8, 10));
        assert(s.subrange(p + 10, p + 12) =~= w.subrange(10, 12));
        assert(s.subrange(p + 12, p + 12 + ids.len()) =~= w.subrange(12, e.len() as int));
        assert(s[p + 2] == w[2]);
        assert(s[p + 3] == w[3]);
        lemma_u16_elem(s);
        lemma_list_roundtrip(s, p + 12, d.channel_ids, f_u16(), g_u16());
    }
}

proof fn lemma_stream_elem_canonical(s: Seq<u8>)
    ensures
        elem_canonical(s, f_stream(), g_stream()),
{
    assert forall|p: int| 0 <= p implies match #[trigger] f_stream()(s, p) {
        Some((x, q)) => p <= q <= s.len() && s.subrange(p, q) == g_stream()(x),
        None => true,
    } by {
        if p + 12 <= s.len() {
            let n = from_le16(s.subrange(p + 10, p + 12));
            lemma_u16_elem(s);
            lemma_list_canonical(s, p + 12, n as nat, f_u16(), g_u16());
            match parse_stream(s, p) {
                Some((d, q)) => {
                    lemma_le16_canonical(s.subrange(p, p + 2));
                    lemma_le32_canonical(s.subrange(p + 4, p + 8));
                    lemma_le16_canonical(s.subrange(p + 8, p + 10));
                    lemma_le16_canonical(s.subrange(p + 10, p + 12));
                    assert(d.channel_ids.len() == n);
                    assert(s.subrange(p, q) =~= s.subrange(p, p + 2) + seq![s[p + 2], s[p + 3]]
                        + s.subrange(p + 4, p + 8) + s.subrange(p + 8, p + 10) + s.subrange(
                        p + 10,
                        p + 12,
                    ) + s.subrange(p + 12, q));
                },
                None => {},
            }
        }
    }
}

pub(crate) proof fn lemma_binding_elem(s: Seq<u8>)
    ensures
        elem_canonical(s, f_binding(), g_binding()),
        forall|b: StreamChannelBinding| elem_roundtrips(s, f_binding(), g_binding(), b),
{
    assert forall|p: int| 0 <= p implies match #[trigger] f_binding()(s, p) {
        Some((x, q)) => p <= q <= s.len() && s.subrange(p, q) == g_binding()(x),
        None => true,
    } by {
        if p + 6 <= s.len() {
            lemma_le16_canonical(s.subrange(p, p + 2));
            lemma_le16_canonical(s.subrange(p + 2, p + 4));
            match parse_binding(s, p) {
                Some((b, q)) => {
                    assert(s.subrange(p, q) =~= s.subrange(p, p + 2) + s.subrange(p + 2, p + 4)
                        + seq![s[p + 4], s[p + 5]]);
                },
                None => {},
            }
        }
    }
    assert forall|b: StreamChannelBinding| elem_roundtrips(s, f_binding(), g_binding(), b) by {
        assert forall|p: int|
            0 <= p && p + g_binding()(b).len() <= s.len() && #[trigger] s.subrange(
                p,
                p + g_binding()(b).len(),
            ) == g_binding()(b) implies f_binding()(s, p) == Some(
            (b, p + g_binding()(b).len()),
        ) by {
            lemma_le16_roundtrip(b.channel_id);
            lemma_le16_roundtrip(b.stream_id);
            let w = s.subrange(p, p + 6);
            assert(s.subrange(p, p + 2) =~= w.subrange(0, 2));
            assert(s.subrange(p + 2, p + 4) =~= w.subrange(2, 4));
            assert(s[p + 4] == w[4]);
            assert(s[p + 5] == w[5]);
        }
    }
}

pub(crate) proof fn lemma_relation_elem(s: Seq<u8>)
    ensures
        elem_canonical(s, f_relation(), g_relation()),
        forall|r: CausalRelation| elem_roundtrips(s, f_relation(), g_relation(), r),
{
    assert forall|p: int| 0 <= p implies match #[trigger] f_relation()(s, p) {
        Some((x, q)) => p <= q <= s.len() && s.subrange(p, q) == g_relation()(x),
        None => true,
    } by {
        if p + 10 <= s.len() {
            lemma_le16_canonical(s.subrange(p, p + 2));
            lemma_le16_canonical(s.subrange(p + 2, p + 4));
            lemma_le16_canonical(s.subrange(p + 4, p + 6));
            lemma_le_i16_canonical(s.subrange(p + 6, p + 8));
            lemma_le_i16_canonical(s.subrange(p + 8, p + 10));
            assert(s.subrange(p, p + 10) =~= s.subrange(p, p + 2) + s.subrange(p + 2, p + 4)
                + s.subrange(p + 4, p + 6) + s.subrange(p + 6, p + 8) + s.subrange(p + 8, p + 10));
        }
    }
    assert forall|r: CausalRelation| elem_roundtrips(s, f_relation(), g_relation(), r) by {
        assert forall|p: int|
            0 <= p && p + g_relation()(r).len() <= s.len() && #[trigger] s.subrange(
                p,
                p + g_relation()(r).len(),
            ) == g_relation()(r) implies f_relation()(s, p) == Some(
            (r, p + g_relation()(r).len()),
        ) by {
            lemma_le16_roundtrip(r.input_stream_id);
            lemma_le16_roundtrip(r.result_stream_id);
            lemma_le16_roundtrip(r.application_stream_id);
            lemma_le16_of_i16(r.result_input_offset);
            lemma_le16_of_i16(r.application_result_offset);
            let w = s.subrange(p, p + 10);
            assert(s.subrange(p, p + 2) =~= w.subrange(0, 2));
            assert(s.subrange(p + 2, p + 4) =~= w.subrange(2, 4));
            assert(s.subrange(p + 4, p + 6) =~= w.subrange(4, 6));
            assert(s.subrange(p + 6, p + 8) =~= w.subrange(6, 8));
            assert(s.subrange(p + 8, p + 10) =~= w.subrange(8, 10));
        }
    }
}

/// Law: the STREAM_TABLE grammar parses the encoding of every valid table
/// back to the table, wherever it sits in a larger buffer.
#[verifier::rlimit(60)]
#[verifier::spinoff_prover]
pub proof fn lemma_table_roundtrip(s: Seq<u8>, p: int, t: StreamTableV)
    requires
        stream_table_valid(t),
        0 <= p,
        p + enc_table(t).len() <= s.len(),
        s.subrange(p, p + enc_table(t).len()) == enc_table(t),
    ensures
        parse_valid_table(s, p) == Some((t, p + enc_table(t).len())),
{
    let e = enc_table(t);
    lemma_le32_roundtrip(t.revision);
    lemma_le16_roundtrip(t.streams.len() as u16);
    lemma_le16_roundtrip(t.bindings.len() as u16);
    lemma_le16_roundtrip(t.causal_relations.len() as u16);
    lemma_le16_roundtrip(0);
    assert(s.subrange(p, p + 4) =~= e.subrange(0, 4));
    assert(s.subrange(p + 4, p + 6) =~= e.subrange(4, 6));
    assert(s.subrange(p + 6, p + 8) =~= e.subrange(6, 8));
    assert(s.subrange(p + 8, p + 10) =~= e.subrange(8, 10));
    assert(s.subrange(p + 10, p + 12) =~= e.subrange(10, 12));
    let es = enc_list(t.streams, g_stream());
    let eb = enc_list(t.bindings, g_binding());
    let er = enc_list(t.causal_relations, g_relation());
    let q1 = p + 12 + es.len();
    let q2 = q1 + eb.len();
    assert(e.subrange(12, 12 + es.len() as int) =~= es);
    assert(e.subrange(12 + es.len() as int, 12 + es.len() + eb.len() as int) =~= eb);
    assert(e.subrange(12 + es.len() + eb.len() as int, e.len() as int) =~= er);
    assert(s.subrange(p + 12, q1) =~= e.subrange(12, 12 + es.len() as int));
    assert(s.subrange(q1, q2) =~= e.subrange(12 + es.len() as int, 12 + es.len() + eb.len() as int));
    assert(s.subrange(q2, q2 + er.len()) =~= e.subrange(
        12 + es.len() + eb.len() as int,
        e.len() as int,
    ));
    assert forall|i: int| 0 <= i < t.streams.len() implies elem_roundtrips(
        s,
        f_stream(),
        g_stream(),
        #[trigger] t.streams[i],
    ) by {
        let d = t.streams[i];
        assert(descriptor_ok(d));
        lemma_distinct_below(d.channel_ids, MAX_CHANNEL_COUNT as int);
        lemma_stream_elem_roundtrip(s, d);
    }
    lemma_list_roundtrip(s, p + 12, t.streams, f_stream(), g_stream());
    lemma_binding_elem(s);
    lemma_list_roundtrip(s, q1, t.bindings, f_binding(), g_binding());
    lemma_relation_elem(s);
    lemma_list_roundtrip(s, q2, t.causal_relations, f_relation(), g_relation());
}

/// Law: a table the grammar accepts was encoded canonically.
#[verifier::rlimit(60)]
#[verifier::spinoff_prover]
pub proof fn lemma_table_canonical(s: Seq<u8>, p: int)
    requires
        0 <= p <= s.len(),
    ensures
        match parse_table(s, p) {
            Some((t, q)) => p <= q <= s.len() && s.subrange(p, q) == enc_table(t),
            None => true,
        },
{
    if p + 12 <= s.len() {
        let ns = from_le16(s.subrange(p + 4, p + 6));
        let nb = from_le16(s.subrange(p + 6, p + 8));
        let nr = from_le16(s.subrange(p + 8, p + 10));
        lemma_stream_elem_canonical(s);
        lemma_binding_elem(s);
        lemma_relation_elem(s);
        lemma_list_canonical(s, p + 12, ns as nat, f_stream(), g_stream());
        match parse_list(s, p + 12, ns as nat, f_stream()) {
            Some((streams, q1)) => {
                lemma_list_canonical(s, q1, nb as nat, f_binding(), g_binding());
                match parse_list(s, q1, nb as nat, f_binding()) {
                    Some((bindings, q2)) => {
                        lemma_list_canonical(s, q2, nr as nat, f_relation(), g_relation());
                        match parse_table(s, p) {
                            Some((t, q)) => {
                                lemma_le32_canonical(s.subrange(p, p + 4));
                                lemma_le16_canonical(s.subrange(p + 4, p + 6));
                                lemma_le16_canonical(s.subrange(p + 6, p + 8));
                                lemma_le16_canonical(s.subrange(p + 8, p + 10));
                                lemma_le16_canonical(s.subrange(p + 10, p + 12));
                                assert(s.subrange(p, q) =~= s.subrange(p, p + 4) + s.subrange(
                                    p + 4,
                                    p + 6,
                                ) + s.subrange(p + 6, p + 8) + s.subrange(p + 8, p + 10)
                                    + s.subrange(p + 10, p + 12) + s.subrange(p + 12, q1)
                                    + s.subrange(q1, q2) + s.subrange(q2, q));
                            },
                            None => {},
                        }
                    },
                    None => {},
                }
            },
            None => {},
        }
    }
}

// --- executable codec -------------------------------------------------------

fn encode_stream(d: &StreamDescriptor, bytes: &mut Vec<u8>)
    ensures
        final(bytes)@ == old(bytes)@ + enc_stream(d@),
{
    let ghost start = bytes@;
    put_u16(bytes, d.stream_id);
    bytes.push(d.domain.code());
    bytes.push(d.capture_phase.code());
    put_u32(bytes, d.sample_rate_hz);
    put_u16(bytes, d.consistency_group);
    put_u16(bytes, d.channel_ids.len() as u16);
    put_u16s(bytes, &d.channel_ids);
    assert(bytes@ =~= start + enc_stream(d@));
}

/// Appends the STREAM_TABLE payload of a valid table.
pub fn encode_stream_table(table: &StreamTable, bytes: &mut Vec<u8>) -> (r: Result<(), ProtocolError>)
    ensures
        match r {
            Ok(()) => stream_table_valid(table@) && final(bytes)@ == old(bytes)@ + enc_table(
                table@,
            ),
            Err(e) => !stream_table_valid(table@) && e is InvalidPayload && final(bytes)@ == old(
                bytes,
            )@,
        },
{
    table.validate()?;
    let ghost start = bytes@;
    let ghost t = table@;
    put_u32(bytes, table.revision);
    put_u16(bytes, table.streams.len() as u16);
    put_u16(bytes, table.bindings.len() as u16);
    put_u16(bytes, table.causal_relations.len() as u16);
    put_u16(bytes, 0);
    let ghost head = bytes@;
    let mut i: usize = 0;
    while i < table.streams.len()
        invariant
            t == table@,
            i <= table.streams@.len(),
            bytes@ == head + enc_list(t.streams.subrange(0, i as int), g_stream()),
        decreases table.streams.len() - i,
    {
        encode_stream(&table.streams[i], bytes);
        proof {
            let sub1 = t.streams.subrange(0, i + 1);
            assert(sub1.drop_last() =~= t.streams.subrange(0, i as int));
            assert(sub1.last() == table.streams@[i as int]@);
        }
        i = i + 1;
    }
    assert(t.streams.subrange(0, t.streams.len() as int) =~= t.streams);
    let ghost mid = bytes@;
    let mut i: usize = 0;
    while i < table.bindings.len()
        invariant
            t == table@,
            i <= table.bindings@.len(),
            bytes@ == mid + enc_list(t.bindings.subrange(0, i as int), g_binding()),
        decreases table.bindings.len() - i,
    {
        let b = table.bindings[i];
        let ghost before = bytes@;
        put_u16(bytes, b.channel_id);
        put_u16(bytes, b.stream_id);
        bytes.push(b.owner.code());
        bytes.push(b.role.code());
        proof {
            let sub1 = t.bindings.subrange(0, i + 1);
            assert(sub1.drop_last() =~= t.bindings.subrange(0, i as int));
            assert(bytes@ =~= before + enc_binding(b));
        }
        i = i + 1;
    }
    assert(t.bindings.subrange(0, t.bindings.len() as int) =~= t.bindings);
    let ghost mid2 = bytes@;
    let mut i: usize = 0;
    while i < table.causal_relations.len()
        invariant
            t == table@,
            i <= table.causal_relations@.len(),
            bytes@ == mid2 + enc_list(t.causal_relations.subrange(0, i as int), g_relation()),
        decreases table.causal_relations.len() - i,
    {
        let r = table.causal_relations[i];
        let ghost before = bytes@;
        put_u16(bytes, r.input_stream_id);
        put_u16(bytes, r.result_stream_id);
        put_u16(bytes, r.application_stream_id);
        put_i16(bytes, r.result_input_offset);
        put_i16(bytes, r.application_result_offset);
        proof {
            let sub1 = t.causal_relations.subrange(0, i + 1);
            assert(sub1.drop_last() =~= t.causal_relations.subrange(0, i as int));
            assert(bytes@ =~= before + enc_relation(r));
        }
        i = i + 1;
    }
    assert(t.causal_relations.subrange(0, t.causal_relations.len() as int) =~= t.causal_relations);
    assert(bytes@ =~= start + enc_table(t));
    Ok(())
}

pub(crate) fn decode_u16s(reader: &mut PayloadReader, n: usize) -> (r: Result<Vec<u16>, ProtocolError>)
    requires
        old(reader).wf(),
    ensures
        final(reader).wf(),
        final(reader).data() == old(reader).data(),
        match parse_list(old(reader).data(), old(reader).pos(), n as nat, f_u16()) {
            Some((v, q)) => r matches Ok(x) && x@ == v && final(reader).pos() == q,
            None => r is Err,
        },
{
    let ghost s = reader.data();
    let ghost p0 = reader.pos();
    let mut out: Vec<u16> = Vec::new();
    let mut k: usize = 0;
    while k < n
        invariant
            reader.wf(),
            reader.data() == s,
            s == old(reader).data(),
            p0 == old(reader).pos(),
            k <= n,
            parse_list(s, p0, k as nat, f_u16()) == Some((out@, reader.pos())),
        decreases n - k,
    {
        let ghost before = reader.pos();
        let v = match reader.u16() {
            Ok(v) => v,
            Err(e) => {
                proof {
                    lemma_parse_list_fail(s, p0, k as nat, n as nat, f_u16());
                }
                return Err(e);
            },
        };
        out.push(v);
        k = k + 1;
    }
    Ok(out)
}

fn decode_stream(reader: &mut PayloadReader) -> (r: Result<StreamDescriptor, ProtocolError>)
    requires
        old(reader).wf(),
    ensures
        final(reader).wf(),
        final(reader).data() == old(reader).data(),
        match parse_stream(old(reader).data(), old(reader).pos()) {
            Some((d, q)) => r matches Ok(x) && x@ == d && final(reader).pos() == q,
            None => r is Err,
        },
{
    let ghost s = reader.data();
    let ghost p = reader.pos();
    let stream_id = reader.u16()?;
    let domain = SampleDomain::from_code(reader.u8()?)?;
    let capture_phase = CapturePhase::from_code(reader.u8()?)?;
    let sample_rate_hz = reader.u32()?;
    let consistency_group = reader.u16()?;
    let count = reader.u16()?;
    validate_count(count as usize, 1, MAX_CHANNEL_COUNT, "stream channel id count")?;
    let channel_ids = decode_u16s(reader, count as usize)?;
    Ok(
        StreamDescriptor {
            stream_id,
            domain,
            capture_phase,
            sample_rate_hz,
            consistency_group,
            channel_ids,
        },
    )
}

pub(crate) fn decode_binding(reader: &mut PayloadReader) -> (r: Result<StreamChannelBinding, ProtocolError>)
    requires
        old(reader).wf(),
    ensures
        final(reader).wf(),
        final(reader).data() == old(reader).data(),
        match parse_binding(old(reader).data(), old(reader).pos()) {
            Some((b, q)) => r == Ok::<StreamChannelBinding, ProtocolError>(b) && final(reader).pos()
                == q,
            None => r is Err,
        },
{
    let channel_id = reader.u16()?;
    let stream_id = reader.u16()?;
    let owner = SignalOwner::from_code(reader.u8()?)?;
    let role = SignalRole::from_code(reader.u8()?)?;
    Ok(StreamChannelBinding { channel_id, stream_id, owner, role })
}

pub(crate) fn decode_relation(reader: &mut PayloadReader) -> (r: Result<CausalRelation, ProtocolError>)
    requires
        old(reader).wf(),
    ensures
        final(reader).wf(),
        final(reader).data() == old(reader).data(),
        match parse_relation(old(reader).data(), old(reader).pos()) {
            Some((x, q)) => r == Ok::<CausalRelation, ProtocolError>(x) && final(reader).pos()
                == q,
            None => r is Err,
        },
{
    let input_stream_id = reader.u16()?;
    let result_stream_id = reader.u16()?;
    let application_stream_id = reader.u16()?;
    let result_input_offset = reader.i16()?;
    let application_result_offset = reader.i16()?;
    Ok(
        CausalRelation {
            input_stream_id,
            result_stream_id,
            application_stream_id,
            result_input_offset,
            application_result_offset,
        },
    )
}

/// Decodes a STREAM_TABLE and refuses tables that do not validate.
pub fn decode_stream_table(reader: &mut PayloadReader) -> (r: Result<StreamTable, ProtocolError>)
    requires
        old(reader).wf(),
    ensures
        final(reader).wf(),
        final(reader).data() == old(reader).data(),
        match parse_valid_table(old(reader).data(), old(reader).pos()) {
            Some((t, q)) => r matches Ok(x) && x@ == t && final(reader).pos() == q,
            None => r is Err,
        },
{
    let ghost s = reader.data();
    let ghost p = reader.pos();
    let revision = reader.u32()?;
    let stream_count = reader.u16()?;
    let binding_count = reader.u16()?;
    let relation_count = reader.u16()?;
    let reserved = reader.u16()?;
    if reserved != 0 {
        return Err(invalid_error("STREAM_TABLE reserved field must be zero"));
    }
    validate_count(stream_count as usize, 1, MAX_STREAM_COUNT, "stream descriptor count")?;
    validate_count(binding_count as usize, 1, MAX_CHANNEL_COUNT, "stream channel binding count")?;
    validate_count(relation_count as usize, 0, MAX_CAUSAL_RELATION_COUNT, "causal relation count")?;
    let ghost p0 = reader.pos();
    let mut streams: Vec<StreamDescriptor> = Vec::new();
    let mut k: usize = 0;
    while k < stream_count as usize
        invariant
            reader.wf(),
            reader.data() == s,
            s == old(reader).data(),
            p == old(reader).pos(),
            p0 == p + 12,
            parse_table(s, p) is Some ==> parse_list(s, p + 12, stream_count as nat, f_stream()) is Some,
            k <= stream_count,
            parse_list(s, p0, k as nat, f_stream()) == Some((stream_views(streams@), reader.pos())),
        decreases stream_count as usize - k,
    {
        let d = match decode_stream(reader) {
            Ok(d) => d,
            Err(e) => {
                proof {
                    lemma_parse_list_fail(s, p0, k as nat, stream_count as nat, f_stream());
                }
                return Err(e);
            },
        };
        let ghost before = streams@;
        streams.push(d);
        assert(stream_views(streams@) =~= stream_views(before).push(d@));
        k = k + 1;
    }
    let ghost p1 = reader.pos();
    assert(parse_table(s, p) is Some ==> parse_list(s, p1, binding_count as nat, f_binding()) is Some);
    let mut bindings: Vec<StreamChannelBinding> = Vec::new();
    let mut k: usize = 0;
    while k < binding_count as usize
        invariant
            reader.wf(),
            reader.data() == s,
            s == old(reader).data(),
            p == old(reader).pos(),
            parse_table(s, p) is Some ==> parse_list(s, p1, binding_count as nat, f_binding()) is Some,
            k <= binding_count,
            parse_list(s, p1, k as nat, f_binding()) == Some((bindings@, reader.pos())),
        decreases binding_count as usize - k,
    {
        let b = match decode_binding(reader) {
            Ok(b) => b,
            Err(e) => {
                proof {
                    lemma_parse_list_fail(s, p1, k as nat, binding_count as nat, f_binding());
                }
                return Err(e);
            },
        };
        bindings.push(b);
        k = k + 1;
    }
    let ghost p2 = reader.pos();
    assert(parse_table(s, p) is Some ==> parse_list(s, p2, relation_count as nat, f_relation()) is Some);
    let mut causal_relations: Vec<CausalRelation> = Vec::new();
    let mut k: usize = 0;
    while k < relation_count as usize
        invariant
            reader.wf(),
            reader.data() == s,
            s == old(reader).data(),
            p == old(reader).pos(),
            parse_table(s, p) is Some ==> parse_list(s, p2, relation_count as nat, f_relation()) is Some,
            k <= relation_count,
            parse_list(s, p2, k as nat, f_relation()) == Some((causal_relations@, reader.pos())),
        decreases relation_count as usize - k,
    {
        let x = match decode_relation(reader) {
            Ok(x) => x,
            Err(e) => {
                proof {
                    lemma_parse_list_fail(s, p2, k as nat, relation_count as nat, f_relation());
                }
                return Err(e);
            },
        };
        causal_relations.push(x);
        k = k + 1;
    }
    let table = StreamTable { revision, streams, bindings, causal_relations };
    table.validate()?;
    Ok(table)
}


// ---------------------------------------------------------------------------
// Metadata rows
// ---------------------------------------------------------------------------

pub open spec fn parse_meta(s: Seq<u8>, p: int) -> Option<(SnapshotMeta, int)> {
    if p < 0 || p + 36 > s.len() {
        None
    } else {
        Some(
            (
                SnapshotMeta {
                    row_sequence: from_le64(s.subrange(p, p + 8)),
                    logical_cycle_sequence: from_le64(s.subrange(p + 8, p + 16)),
                    source_sequence: from_le64(s.subrange(p + 16, p + 24)),
                    applied_sequence: from_le64(s.subrange(p + 24, p + 32)),
                    valid_flags: from_le32(s.subrange(p + 32, p + 36)),
                },
                p + 36,
            ),
        )
    }
}

pub open spec fn g_meta() -> spec_fn(SnapshotMeta) -> Seq<u8> {
    |m: SnapshotMeta| enc_meta(m)
}

pub open spec fn f_meta() -> spec_fn(Seq<u8>, int) -> Option<(SnapshotMeta, int)> {
    |s: Seq<u8>, p: int| parse_meta(s, p)
}

pub proof fn lemma_meta_elem(s: Seq<u8>)
    ensures
        elem_canonical(s, f_meta(), g_meta()),
        forall|m: SnapshotMeta| elem_roundtrips(s, f_meta(), g_meta(), m),
        forall|m: SnapshotMeta| (#[trigger] g_meta()(m)).len() == 36,
{
    assert forall|p: int| 0 <= p implies match #[trigger] f_meta()(s, p) {
        Some((x, q)) => p <= q <= s.len() && s.subrange(p, q) == g_meta()(x),
        None => true,
    } by {
        if p + 36 <= s.len() {
            lemma_le64_canonical(s.subrange(p, p + 8));
            lemma_le64_canonical(s.subrange(p + 8, p + 16));
            lemma_le64_canonical(s.subrange(p + 16, p + 24));
            lemma_le64_canonical(s.subrange(p + 24, p + 32));
            lemma_le32_canonical(s.subrange(p + 32, p + 36));
            assert(s.subrange(p, p + 36) =~= s.subrange(p, p + 8) + s.subrange(p + 8, p + 16)
                + s.subrange(p + 16, p + 24) + s.subrange(p + 24, p + 32) + s.subrange(
                p + 32,
                p + 36,
            ));
        }
    }
    assert forall|m: SnapshotMeta| elem_roundtrips(s, f_meta(), g_meta(), m) by {
        assert forall|p: int|
            0 <= p && p + g_meta()(m).len() <= s.len() && #[trigger] s.subrange(
                p,
                p + g_meta()(m).len(),
            ) == g_meta()(m) implies f_meta()(s, p) == Some((m, p + g_meta()(m).len())) by {
            lemma_le64_roundtrip(m.row_sequence);
            lemma_le64_roundtrip(m.logical_cycle_sequence);
            lemma_le64_roundtrip(m.source_sequence);
            lemma_le64_roundtrip(m.applied_sequence);
            lemma_le32_roundtrip(m.valid_flags);
            let w = s.subrange(p, p + 36);
            assert(s.subrange(p, p + 8) =~= w.subrange(0, 8));
            assert(s.subrange(p + 8, p + 16) =~= w.subrange(8, 16));
            assert(s.subrange(p + 16, p + 24) =~= w.subrange(16, 24));
            assert(s.subrange(p + 24, p + 32) =~= w.subrange(24, 32));
            assert(s.subrange(p + 32, p + 36) =~= w.subrange(32, 36));
        }
    }
    assert forall|m: SnapshotMeta| (#[trigger] g_meta()(m)).len() == 36 by {
        lemma_le64_roundtrip(m.row_sequence);
        lemma_le32_roundtrip(m.valid_flags);
    }
}

pub(crate) fn decode_meta(reader: &mut PayloadReader) -> (r: Result<SnapshotMeta, ProtocolError>)
    requires
        old(reader).wf(),
    ensures
        final(reader).wf(),
        final(reader).data() == old(reader).data(),
        match parse_meta(old(reader).data(), old(reader).pos()) {
            Some((m, q)) => r == Ok::<SnapshotMeta, ProtocolError>(m) && final(reader).pos() == q,
            None => r is Err,
        },
{
    let row_sequence = reader.u64()?;
    let logical_cycle_sequence = reader.u64()?;
    let source_sequence = reader.u64()?;
    let applied_sequence = reader.u64()?;
    let valid_flags = reader.u32()?;
    Ok(
        SnapshotMeta {
            row_sequence,
            logical_cycle_sequence,
            source_sequence,
            applied_sequence,
            valid_flags,
        },
    )
}

// ---------------------------------------------------------------------------
// SAMPLE_BATCH_V2
// ---------------------------------------------------------------------------

/// V2 samples carry a single stream and per-row causal metadata.
#[derive(Clone, Debug, PartialEq, Eq)]
pub struct StreamSampleBatch {
    pub stream_id: u16,
    pub stream_revision: u32,
    pub domain: SampleDomain,
    pub capture_phase: CapturePhase,
    pub consistency_group: u16,
    pub first_row_sequence: u64,
    pub sample_period_ticks: u32,
    pub row_count: u16,
    pub channel_ids: Vec<u16>,
    pub sample_data: Vec<u8>,
    pub row_metadata: Vec<SnapshotMeta>,
}

pub struct StreamSampleBatchV {
    pub stream_id: u16,
    pub stream_revision: u32,
    pub domain: SampleDomain,
    pub capture_phase: CapturePhase,
    pub consistency_group: u16,
    pub first_row_sequence: u64,
    pub sample_period_ticks: u32,
    pub row_count: u16,
    pub channel_ids: Seq<u16>,
    pub sample_data: Seq<u8>,
    pub row_metadata: Seq<SnapshotMeta>,
}

impl View for StreamSampleBatch {
    type V = StreamSampleBatchV;

    open spec fn view(&self) -> StreamSampleBatchV {
        StreamSampleBatchV {
            stream_id: self.stream_id,
            stream_revision: self.stream_revision,
            domain: self.domain,
            capture_phase: self.capture_phase,
            consistency_group: self.consistency_group,
            first_row_sequence: self.first_row_sequence,
            sample_period_ticks: self.sample_period_ticks,
            row_count: self.row_count,
            channel_ids: self.channel_ids@,
            sample_data: self.sample_data@,
            row_metadata: self.row_metadata@,
        }
    }
}

/// `a + 1`, clamped at `u64::MAX`.
pub open spec fn sat_inc(a: u64) -> u64 {
    if a == u64::MAX {
        u64::MAX
    } else {
        (a + 1) as u64
    }
}

/// The header checks of a SAMPLE_BATCH_V2: non-zero identity, frozen
/// domain/phase pairing, one metadata row per sample with known flags and
/// continuous row sequences starting at `first_row_sequence`, and 1..=64
/// distinct in-range channels.
pub open spec fn batch_header_ok(b: StreamSampleBatchV) -> bool {
    &&& b.stream_id != 0
    &&& b.stream_revision != 0
    &&& b.consistency_group != 0
    &&& b.capture_phase == b.domain.spec_phase()
    &&& b.sample_period_ticks != 0
    &&& 1 <= b.row_count <= MAX_BATCH_SAMPLES
    &&& b.row_metadata.len() == b.row_count
    &&& forall|i: int| 0 <= i < b.row_metadata.len() ==> (#[trigger] b.row_metadata[i]).valid_flags & !SNAPSHOT_KNOWN_FLAGS == 0
    &&& b.row_metadata[0].row_sequence == b.first_row_sequence
    &&& forall|i: int|
        0 < i < b.row_metadata.len() ==> (#[trigger] b.row_metadata[i]).row_sequence == sat_inc(
            b.row_metadata[i - 1].row_sequence,
        )
    &&& 1 <= b.channel_ids.len() <= MAX_CHANNEL_COUNT
    &&& forall|k: int| 0 <= k < b.channel_ids.len() ==> (b.channel_ids[k] as int) < MAX_CHANNEL_COUNT
    &&& forall|k: int, l: int| 0 <= k < l < b.channel_ids.len() ==> b.channel_ids[k] != b.channel_ids[l]
}

#[verifier::loop_isolation(false)]
pub fn validate_stream_sample_batch_header(batch: &StreamSampleBatch) -> (r: Result<(), ProtocolError>)
    ensures
        r is Ok <==> batch_header_ok(batch@),
        r matches Err(e) ==> e is InvalidPayload,
{
    if batch.stream_id == 0 || batch.stream_revision == 0 || batch.consistency_group == 0 {
        return Err(invalid_error("stream id, stream revision, and consistency group must be non-zero"));
    }
    if batch.capture_phase != batch.domain.fixed_capture_phase() {
        return Err(invalid_error("stream sample batch has an invalid domain/capture phase combination"));
    }
    if batch.sample_period_ticks == 0 {
        return Err(invalid_error("stream sample period ticks must be greater than zero"));
    }
    validate_count(batch.row_count as usize, 1, MAX_BATCH_SAMPLES, "stream sample count")?;
    if batch.row_metadata.len() != batch.row_count as usize {
        return Err(invalid_error("stream sample metadata count does not match sample count"));
    }
    let rows = &batch.row_metadata;
    let mut i: usize = 0;
    while i < rows.len()
        invariant
            i <= rows@.len(),
            forall|a: int| 0 <= a < i ==> (#[trigger] rows@[a]).valid_flags & !SNAPSHOT_KNOWN_FLAGS == 0,
        decreases rows.len() - i,
    {
        if rows[i].valid_flags & !SNAPSHOT_KNOWN_FLAGS != 0 {
            assert(batch@.row_metadata[i as int].valid_flags & !SNAPSHOT_KNOWN_FLAGS != 0);
            return Err(invalid_error("stream row metadata contains unknown valid flag bits"));
        }
        i = i + 1;
    }
    if rows[0].row_sequence != batch.first_row_sequence {
        return Err(invalid_error("first row sequence does not match the first SnapshotMeta"));
    }
    let mut i: usize = 1;
    while i < rows.len()
        invariant
            1 <= i <= rows@.len(),
            forall|a: int| 0 < a < i ==> (#[trigger] rows@[a]).row_sequence == sat_inc(rows@[a - 1].row_sequence),
        decreases rows.len() - i,
    {
        let prev = rows[i - 1].row_sequence;
        let expected = if prev == u64::MAX {
            u64::MAX
        } else {
            prev + 1
        };
        if rows[i].row_sequence != expected {
            assert(batch@.row_metadata[i as int].row_sequence != sat_inc(batch@.row_metadata[i - 1].row_sequence));
            return Err(invalid_error("stream row sequences must be continuous within a batch"));
        }
        i = i + 1;
    }
    validate_count(batch.channel_ids.len(), 1, MAX_CHANNEL_COUNT, "selected stream channel count")?;
    let ids = &batch.channel_ids;
    let mut seen: u64 = 0;
    let mut k: usize = 0;
    proof {
        assert forall|d: u64| d < 64 implies !has_bit(seen, d) by {
            crate::protocol_v2::lemma_no_bits(d);
        }
    }
    while k < ids.len()
        invariant
            k <= ids@.len(),
            forall|a: int| 0 <= a < k ==> (ids@[a] as int) < MAX_CHANNEL_COUNT,
            forall|a: int, b: int| 0 <= a < b < k ==> ids@[a] != ids@[b],
            forall|d: u64| d < 64 ==> (has_bit(seen, d) <==> exists|a: int| 0 <= a < k && (#[trigger] ids@[a]) as u64 == d),
        decreases ids.len() - k,
    {
        let c = ids[k];
        if c as usize >= MAX_CHANNEL_COUNT {
            assert(!((batch@.channel_ids[k as int] as int) < MAX_CHANNEL_COUNT));
            return Err(invalid_error("selected stream channel id is out of range"));
        }
        proof {
            crate::protocol_v2::lemma_test_bit(seen, c as u64);
        }
        if seen & (1u64 << c) != 0 {
            proof {
                let a = choose|a: int| 0 <= a < k && (#[trigger] ids@[a]) as u64 == c as u64;
                assert(ids@[a] == ids@[k as int]);
                assert(batch@.channel_ids[a] == batch@.channel_ids[k as int]);
            }
            return Err(invalid_error("duplicate selected stream channel id"));
        }
        let ghost old_seen = seen;
        seen = seen | (1u64 << c);
        proof {
            assert forall|a: int, b: int| 0 <= a < b < k + 1 implies ids@[a] != ids@[b] by {
                if b == k && ids@[a] == ids@[b] {
                    assert(has_bit(old_seen, c as u64));
                }
            }
            assert forall|d: u64| d < 64 implies (has_bit(seen, d) <==> exists|a: int| 0 <= a < k + 1 && (#[trigger] ids@[a]) as u64 == d) by {
                crate::protocol_v2::lemma_set_bit(old_seen, c as u64, d);
                if d == c as u64 {
                    assert(ids@[k as int] as u64 == d);
                }
                if exists|a: int| 0 <= a < k + 1 && (#[trigger] ids@[a]) as u64 == d {
                    let a = choose|a: int| 0 <= a < k + 1 && (#[trigger] ids@[a]) as u64 == d;
                    if a < k {
                        assert(has_bit(old_seen, d));
                    }
                }
            }
        }
        k = k + 1;
    }
    Ok(())
}

/// The fixed 26-byte head of a SAMPLE_BATCH_V2 payload.
pub open spec fn enc_batch_head(b: StreamSampleBatchV) -> Seq<u8> {
    le16(b.stream_id) + le32(b.stream_revision) + seq![b.domain.spec_code(), b.capture_phase.spec_code()]
        + le16(b.consistency_group) + le64(b.first_row_sequence) + le16(b.row_count) + le32(
        b.sample_period_ticks,
    ) + le16(b.channel_ids.len() as u16)
}

/// SAMPLE_BATCH_V2 payload layout: head, channel ids, raw sample bytes, then
/// one metadata record per row.
pub open spec fn enc_batch(b: StreamSampleBatchV) -> Seq<u8> {
    enc_batch_head(b) + enc_list(b.channel_ids, g_u16()) + b.sample_data + enc_list(
        b.row_metadata,
        g_meta(),
    )
}

/// The SAMPLE_BATCH_V2 grammar at `p`; the batch extends to the end of `s`
/// and its sample data is whatever precedes the per-row metadata.
#[verifier::opaque]
pub open spec fn parse_batch(s: Seq<u8>, p: int) -> Option<StreamSampleBatchV> {
    if p < 0 || p + 26 > s.len() {
        None
    } else {
        let dom = SampleDomain::spec_from_code(s[p + 6]);
        let ph = CapturePhase::spec_from_code(s[p + 7]);
        let rows = from_le16(s.subrange(p + 18, p + 20));
        let n = from_le16(s.subrange(p + 24, p + 26));
        if dom is None || ph is None || n < 1 || n > MAX_CHANNEL_COUNT {
            None
        } else {
            match parse_list(s, p + 26, n as nat, f_u16()) {
                Some((ids, q)) => {
                    let meta_len = rows * 36;
                    if s.len() - q < meta_len {
                        None
                    } else {
                        let m0 = s.len() - meta_len;
                        match parse_list(s, m0, rows as nat, f_meta()) {
                            Some((metas, _)) => Some(
                                StreamSampleBatchV {
                                    stream_id: from_le16(s.subrange(p, p + 2)),
                                    stream_revision: from_le32(s.subrange(p + 2, p + 6)),
                                    domain: dom->Some_0,
                                    capture_phase: ph->Some_0,
                                    consistency_group: from_le16(s.subrange(p + 8, p + 10)),
                                    first_row_sequence: from_le64(s.subrange(p + 10, p + 18)),
                                    row_count: rows,
                                    sample_period_ticks: from_le32(s.subrange(p + 20, p + 24)),
                                    channel_ids: ids,
                                    sample_data: s.subrange(q, m0),
                                    row_metadata: metas,
                                },
                            ),
                            None => None,
                        }
                    }
                },
                None => None,
            }
        }
    }
}

/// The batch grammar that also passes the header checks.
pub open spec fn parse_valid_batch(s: Seq<u8>, p: int) -> Option<StreamSampleBatchV> {
    match parse_batch(s, p) {
        Some(b) => if batch_header_ok(b) {
            Some(b)
        } else {
            None
        },
        None => None,
    }
}

proof fn lemma_batch_head_fields(s: Seq<u8>, p: int, b: StreamSampleBatchV)
    requires
        0 <= p,
        p + 26 <= s.len(),
        b.channel_ids.len() <= 0xffff,
        s.subrange(p, p + 26) == enc_batch_head(b),
    ensures
        enc_batch_head(b).len() == 26,
        from_le16(s.subrange(p, p + 2)) == b.stream_id,
        from_le32(s.subrange(p + 2, p + 6)) == b.stream_revision,
        s[p + 6] == b.domain.spec_code(),
        s[p + 7] == b.capture_phase.spec_code(),
        from_le16(s.subrange(p + 8, p + 10)) == b.consistency_group,
        from_le64(s.subrange(p + 10, p + 18)) == b.first_row_sequence,
        from_le16(s.subrange(p + 18, p + 20)) == b.row_count,
        from_le32(s.subrange(p + 20, p + 24)) == b.sample_period_ticks,
        from_le16(s.subrange(p + 24, p + 26)) == b.channel_ids.len(),
{
    let h = enc_batch_head(b);
    lemma_le16_roundtrip(b.stream_id);
    lemma_le32_roundtrip(b.stream_revision);
    lemma_le16_roundtrip(b.consistency_group);
    lemma_le64_roundtrip(b.first_row_sequence);
    lemma_le16_roundtrip(b.row_count);
    lemma_le32_roundtrip(b.sample_period_ticks);
    lemma_le16_roundtrip(b.channel_ids.len() as u16);
    assert(h.subrange(0, 2) =~= le16(b.stream_id));
    assert(h.subrange(2, 6) =~= le32(b.stream_revision));
    assert(h.subrange(8, 10) =~= le16(b.consistency_group));
    assert(h.subrange(10, 18) =~= le64(b.first_row_sequence));
    assert(h.subrange(18, 20) =~= le16(b.row_count));
    assert(h.subrange(20, 24) =~= le32(b.sample_period_ticks));
    assert(h.subrange(24, 26) =~= le16(b.channel_ids.len() as u16));
    assert(s.subrange(p, p + 2) =~= h.subrange(0, 2));
    assert(s.subrange(p + 2, p + 6) =~= h.subrange(2, 6));
    assert(s.subrange(p + 8, p + 10) =~= h.subrange(8, 10));
    assert(s.subrange(p + 10, p + 18) =~= h.subrange(10, 18));
    assert(s.subrange(p + 18, p + 20) =~= h.subrange(18, 20));
    assert(s.subrange(p + 20, p + 24) =~= h.subrange(20, 24));
    assert(s.subrange(p + 24, p + 26) =~= h.subrange(24, 26));
    assert(s[p + 6] == h[6]);
    assert(s[p + 7] == h[7]);
}

proof fn lemma_parse_batch_at(s: Seq<u8>, p: int, b: StreamSampleBatchV, q: int, m0: int)
    requires
        0 <= p,
        p + 26 <= q <= m0 <= s.len(),
        from_le16(s.subrange(p, p + 2)) == b.stream_id,
        from_le32(s.subrange(p + 2, p + 6)) == b.stream_revision,
        s[p + 6] == b.domain.spec_code(),
        s[p + 7] == b.capture_phase.spec_code(),
        from_le16(s.subrange(p + 8, p + 10)) == b.consistency_group,
        from_le64(s.subrange(p + 10, p + 18)) == b.first_row_sequence,
        from_le16(s.subrange(p + 18, p + 20)) == b.row_count,
        from_le32(s.subrange(p + 20, p + 24)) == b.sample_period_ticks,
        from_le16(s.subrange(p + 24, p + 26)) == b.channel_ids.len(),
        1 <= b.channel_ids.len() <= MAX_CHANNEL_COUNT,
        b.row_metadata.len() == b.row_count,
        m0 == s.len() - b.row_count * 36,
        parse_list(s, p + 26, b.channel_ids.len(), f_u16()) == Some((b.channel_ids, q)),
        parse_list(s, m0, b.row_metadata.len(), f_meta()) == Some((b.row_metadata, s.len() as int)),
        s.subrange(q, m0) == b.sample_data,
    ensures
        parse_batch(s, p) == Some(b),
{
    reveal(parse_batch);
    assert(SampleDomain::spec_from_code(s[p + 6]) == Some(b.domain));
    assert(CapturePhase::spec_from_code(s[p + 7]) == Some(b.capture_phase));
}

/// Law: the batch grammar parses the encoding of every batch that passes the
/// header checks back to the batch.
#[verifier::rlimit(60)]
#[verifier::spinoff_prover]
pub proof fn lemma_batch_roundtrip(s: Seq<u8>, p: int, b: StreamSampleBatchV)
    requires
        batch_header_ok(b),
        0 <= p,
        s.len() == p + enc_batch(b).len(),
        s.subrange(p, s.len() as int) == enc_batch(b),
    ensures
        parse_valid_batch(s, p) == Some(b),
{
    let h = enc_batch_head(b);
    let ids = enc_list(b.channel_ids, g_u16());
    let metas = enc_list(b.row_metadata, g_meta());
    let e = enc_batch(b);
    lemma_le16_roundtrip(b.channel_ids.len() as u16);
    assert(h.len() == 26);
    assert(metas.len() == b.row_metadata.len() * 36) by {
        lemma_meta_elem(s);
        crate::codec::lemma_enc_list_len(b.row_metadata, g_meta(), 36);
    }
    assert(b.channel_ids.len() <= MAX_CHANNEL_COUNT) by {
        lemma_distinct_below(b.channel_ids, MAX_CHANNEL_COUNT as int);
    }
    let il = ids.len() as int;
    let dl = b.sample_data.len() as int;
    let q = p + 26 + il;
    let m0 = q + dl;
    let w = s.subrange(p, s.len() as int);
    assert(s.subrange(p, p + 26) == h) by {
        assert(s.subrange(p, p + 26) =~= w.subrange(0, 26));
        assert(w.subrange(0, 26) =~= h);
    }
    lemma_batch_head_fields(s, p, b);
    assert(s.subrange(p + 26, q) == ids) by {
        assert(e.subrange(26, 26 + il) =~= ids);
        assert(s.subrange(p + 26, q) =~= w.subrange(26, 26 + il));
    }
    assert(s.subrange(q, m0) == b.sample_data) by {
        assert(e.subrange(26 + il, 26 + il + dl) =~= b.sample_data);
        assert(s.subrange(q, m0) =~= w.subrange(26 + il, 26 + il + dl));
    }
    assert(s.subrange(m0, s.len() as int) == metas) by {
        assert(e.subrange(26 + il + dl, e.len() as int) =~= metas);
        assert(s.subrange(m0, s.len() as int) =~= w.subrange(26 + il + dl, e.len() as int));
    }
    assert(parse_list(s, p + 26, b.channel_ids.len(), f_u16()) == Some((b.channel_ids, q))) by {
        lemma_u16_elem(s);
        lemma_list_roundtrip(s, p + 26, b.channel_ids, f_u16(), g_u16());
    }
    assert(parse_list(s, m0, b.row_metadata.len(), f_meta()) == Some((b.row_metadata, s.len() as int))) by {
        lemma_meta_elem(s);
        lemma_list_roundtrip(s, m0, b.row_metadata, f_meta(), g_meta());
    }
    lemma_parse_batch_at(s, p, b, q, m0);
}

/// Law: whatever the batch grammar accepts is the canonical encoding of the
/// batch it returns.
#[verifier::rlimit(60)]
#[verifier::spinoff_prover]
pub proof fn lemma_batch_canonical(s: Seq<u8>, p: int)
    requires
        0 <= p <= s.len(),
    ensures
        match parse_batch(s, p) {
            Some(b) => s.subrange(p, s.len() as int) == enc_batch(b),
            None => true,
        },
{
    reveal(parse_batch);
    if p + 26 <= s.len() {
        let n = from_le16(s.subrange(p + 24, p + 26));
        let rows = from_le16(s.subrange(p + 18, p + 20));
        lemma_u16_elem(s);
        lemma_meta_elem(s);
        lemma_list_canonical(s, p + 26, n as nat, f_u16(), g_u16());
        match parse_list(s, p + 26, n as nat, f_u16()) {
            Some((ids, q)) => {
                let meta_len = rows * 36;
                if s.len() - q >= meta_len {
                    let m0 = s.len() - meta_len;
                    lemma_list_canonical(s, m0, rows as nat, f_meta(), g_meta());
                    match parse_batch(s, p) {
                        Some(b) => {
                            let mq = parse_list(s, m0, rows as nat, f_meta())->Some_0.1;
                            crate::codec::lemma_enc_list_len(b.row_metadata, g_meta(), 36);
                            assert(mq == s.len());
                            lemma_le16_canonical(s.subrange(p, p + 2));
                            lemma_le32_canonical(s.subrange(p + 2, p + 6));
                            lemma_le16_canonical(s.subrange(p + 8, p + 10));
                            lemma_le64_canonical(s.subrange(p + 10, p + 18));
                            lemma_le16_canonical(s.subrange(p + 18, p + 20));
                            lemma_le32_canonical(s.subrange(p + 20, p + 24));
                            lemma_le16_canonical(s.subrange(p + 24, p + 26));
                            assert(s.subrange(p, p + 26) =~= enc_batch_head(b));
                            assert(s.subrange(p, s.len() as int) =~= s.subrange(p, p + 26)
                                + s.subrange(p + 26, q) + s.subrange(q, m0) + s.subrange(
                                m0,
                                s.len() as int,
                            ));
                        },
                        None => {},
                    }
                }
            },
            None => {},
        }
    }
}

fn put_batch_head(bytes: &mut Vec<u8>, batch: &StreamSampleBatch)
    requires
        batch.channel_ids@.len() <= MAX_CHANNEL_COUNT,
    ensures
        final(bytes)@ == old(bytes)@ + enc_batch_head(batch@),
{
    put_u16(bytes, batch.stream_id);
    put_u32(bytes, batch.stream_revision);
    bytes.push(batch.domain.code());
    bytes.push(batch.capture_phase.code());
    put_u16(bytes, batch.consistency_group);
    put_u64(bytes, batch.first_row_sequence);
    put_u16(bytes, batch.row_count);
    put_u32(bytes, batch.sample_period_ticks);
    put_u16(bytes, batch.channel_ids.len() as u16);
    assert(final(bytes)@ =~= old(bytes)@ + enc_batch_head(batch@));
}

fn put_snapshot_metas(bytes: &mut Vec<u8>, rows: &Vec<SnapshotMeta>)
    ensures
        final(bytes)@ == old(bytes)@ + enc_list(rows@, g_meta()),
{
    let ghost head = bytes@;
    let mut i: usize = 0;
    while i < rows.len()
        invariant
            i <= rows@.len(),
            bytes@ == head + enc_list(rows@.subrange(0, i as int), g_meta()),
        decreases rows.len() - i,
    {
        put_snapshot_meta(bytes, rows[i]);
        proof {
            let sub1 = rows@.subrange(0, i + 1);
            assert(sub1.drop_last() =~= rows@.subrange(0, i as int));
        }
        i = i + 1;
    }
    assert(rows@.subrange(0, rows@.len() as int) =~= rows@);
}

proof fn lemma_concat4(a: Seq<u8>, b: Seq<u8>, c: Seq<u8>, d: Seq<u8>, e: Seq<u8>)
    ensures
        a + (b + c + d + e) == a + b + c + d + e,
{
    assert(a + (b + c + d + e) =~= a + b + c + d + e);
}

pub fn encode_stream_sample_batch(batch: &StreamSampleBatch, bytes: &mut Vec<u8>) -> (r: Result<
    (),
    ProtocolError,
>)
    ensures
        match r {
            Ok(()) => batch_header_ok(batch@) && final(bytes)@ == old(bytes)@ + enc_batch(batch@),
            Err(e) => !batch_header_ok(batch@) && e is InvalidPayload && final(bytes)@ == old(
                bytes,
            )@,
        },
{
    validate_stream_sample_batch_header(batch)?;
    let ghost start = bytes@;
    proof {
        lemma_distinct_below(batch@.channel_ids, MAX_CHANNEL_COUNT as int);
    }
    put_batch_head(bytes, batch);
    put_u16s(bytes, &batch.channel_ids);
    put_bytes(bytes, batch.sample_data.as_slice());
    put_snapshot_metas(bytes, &batch.row_metadata);
    proof {
        lemma_concat4(
            start,
            enc_batch_head(batch@),
            enc_list(batch@.channel_ids, g_u16()),
            batch@.sample_data,
            enc_list(batch@.row_metadata, g_meta()),
        );
    }
    Ok(())
}

/// Decodes a batch that extends to the end of the reader's data.
#[verifier::rlimit(60)]
#[verifier::spinoff_prover]
pub fn decode_stream_sample_batch(reader: &mut PayloadReader) -> (r: Result<StreamSampleBatch, ProtocolError>)
    requires
        old(reader).wf(),
    ensures
        final(reader).wf(),
        final(reader).data() == old(reader).data(),
        match parse_valid_batch(old(reader).data(), old(reader).pos()) {
            Some(b) => r matches Ok(x) && x@ == b && final(reader).pos() == old(reader).data().len(),
            None => r is Err,
        },
{
    let ghost s = reader.data();
    let ghost p = reader.pos();
    proof {
        reveal(parse_batch);
    }
    let stream_id = reader.u16()?;
    let stream_revision = reader.u32()?;
    let domain = SampleDomain::from_code(reader.u8()?)?;
    let capture_phase = CapturePhase::from_code(reader.u8()?)?;
    let consistency_group = reader.u16()?;
    let first_row_sequence = reader.u64()?;
    let row_count = reader.u16()?;
    let sample_period_ticks = reader.u32()?;
    let channel_count = reader.u16()?;
    validate_count(channel_count as usize, 1, MAX_CHANNEL_COUNT, "selected stream channel count")?;
    let channel_ids = decode_u16s(reader, channel_count as usize)?;
    let ghost q = reader.pos();
    let remaining = reader.remaining_len();
    let metadata_len = row_count as usize * 36;
    if remaining < metadata_len {
        return Err(invalid_error("stream sample batch is missing per-row metadata"));
    }
    let data = reader.bytes(remaining - metadata_len)?;
    let sample_data = copy_range(data, 0, data.len());
    assert(data@.subrange(0, data@.len() as int) =~= data@);
    let ghost m0 = reader.pos();
    assert(parse_batch(s, p) is Some ==> parse_list(s, m0, row_count as nat, f_meta()) is Some);
    let mut row_metadata: Vec<SnapshotMeta> = Vec::new();
    let mut k: usize = 0;
    while k < row_count as usize
        invariant
            reader.wf(),
            reader.data() == s,
            s == old(reader).data(),
            m0 == s.len() - metadata_len,
            metadata_len == row_count * 36,
            p == old(reader).pos(),
            parse_batch(s, p) is Some ==> parse_list(s, m0, row_count as nat, f_meta()) is Some,
            k <= row_count,
            parse_list(s, m0, k as nat, f_meta()) == Some((row_metadata@, reader.pos())),
        decreases row_count as usize - k,
    {
        let m = match decode_meta(reader) {
            Ok(m) => m,
            Err(e) => {
                proof {
                    lemma_parse_list_fail(s, m0, k as nat, row_count as nat, f_meta());
                }
                return Err(e);
            },
        };
        row_metadata.push(m);
        k = k + 1;
    }
    proof {
        lemma_meta_elem(s);
        lemma_list_canonical(s, m0, row_count as nat, f_meta(), g_meta());
        crate::codec::lemma_enc_list_len(row_metadata@, g_meta(), 36);
    }
    let batch = StreamSampleBatch {
        stream_id,
        stream_revision,
        domain,
        capture_phase,
        consistency_group,
        first_row_sequence,
        sample_period_ticks,
        row_count,
        channel_ids,
        sample_data,
        row_metadata,
    };
    validate_stream_sample_batch_header(&batch)?;
    Ok(batch)
}

// ---------------------------------------------------------------------------
// CONFIGURE_STREAM
// ---------------------------------------------------------------------------

/// CONFIGURE_STREAM payload: stream id, batch size, channel mask.
pub open spec fn enc_configure(c: ConfigureStream) -> Seq<u8> {
    le16(c.stream_id) + le16(c.batch_samples) + le64(c.channel_mask)
}

pub open spec fn parse_configure(s: Seq<u8>, p: int) -> Option<(ConfigureStream, int)> {
    if p < 0 || p + 12 > s.len() {
        None
    } else {
        let c = ConfigureStream {
            stream_id: from_le16(s.subrange(p, p + 2)),
            batch_samples: from_le16(s.subrange(p + 2, p + 4)),
            channel_mask: from_le64(s.subrange(p + 4, p + 12)),
        };
        if configure_shape_ok(c) {
            Some((c, p + 12))
        } else {
            None
        }
    }
}

/// Law: a well-shaped CONFIGURE_STREAM parses back from its encoding.
pub proof fn lemma_configure_roundtrip(s: Seq<u8>, p: int, c: ConfigureStream)
    requires
        configure_shape_ok(c),
        0 <= p,
        p + 12 <= s.len(),
        s.subrange(p, p + 12) == enc_configure(c),
    ensures
        enc_configure(c).len() == 12,
        parse_configure(s, p) == Some((c, p + 12)),
{
    let w = enc_configure(c);
    lemma_le16_roundtrip(c.stream_id);
    lemma_le16_roundtrip(c.batch_samples);
    lemma_le64_roundtrip(c.channel_mask);
    assert(s.subrange(p, p + 2) =~= w.subrange(0, 2));
    assert(w.subrange(0, 2) =~= le16(c.stream_id));
    assert(s.subrange(p + 2, p + 4) =~= w.subrange(2, 4));
    assert(w.subrange(2, 4) =~= le16(c.batch_samples));
    assert(s.subrange(p + 4, p + 12) =~= w.subrange(4, 12));
    assert(w.subrange(4, 12) =~= le64(c.channel_mask));
}

/// Law: whatever the CONFIGURE_STREAM grammar accepts is the encoding of its
/// result.
pub proof fn lemma_configure_canonical(s: Seq<u8>, p: int)
    ensures
        match parse_configure(s, p) {
            Some((c, q)) => q == p + 12 && s.subrange(p, q) == enc_configure(c),
            None => true,
        },
{
    if let Some((c, q)) = parse_configure(s, p) {
        lemma_le16_canonical(s.subrange(p, p + 2));
        lemma_le16_canonical(s.subrange(p + 2, p + 4));
        lemma_le64_canonical(s.subrange(p + 4, p + 12));
        assert(s.subrange(p, q) =~= s.subrange(p, p + 2) + s.subrange(p + 2, p + 4) + s.subrange(
            p + 4,
            p + 12,
        ));
    }
}

pub fn encode_configure_stream(configure: &ConfigureStream, bytes: &mut Vec<u8>) -> (r: Result<(), ProtocolError>)
    ensures
        r is Ok <==> configure_shape_ok(*configure),
        r is Ok ==> final(bytes)@ == old(bytes)@ + enc_configure(*configure),
        r is Err ==> final(bytes)@ == old(bytes)@,
        r matches Err(e) ==> e is InvalidPayload,
{
    validate_configure_stream_shape(configure)?;
    let ghost start = bytes@;
    put_u16(bytes, configure.stream_id);
    put_u16(bytes, configure.batch_samples);
    put_u64(bytes, configure.channel_mask);
    assert(bytes@ =~= start + enc_configure(*configure));
    Ok(())
}

pub fn decode_configure_stream(reader: &mut PayloadReader) -> (r: Result<ConfigureStream, ProtocolError>)
    requires
        old(reader).wf(),
    ensures
        final(reader).wf(),
        final(reader).data() == old(reader).data(),
        match parse_configure(old(reader).data(), old(reader).pos()) {
            Some((c, q)) => r == Ok::<ConfigureStream, ProtocolError>(c) && final(reader).pos() == q,
            None => r is Err,
        },
{
    let stream_id = reader.u16()?;
    let batch_samples = reader.u16()?;
    let channel_mask = reader.u64()?;
    let configure = ConfigureStream { stream_id, batch_samples, channel_mask };
    validate_configure_stream_shape(&configure)?;
    Ok(configure)
}

// ---------------------------------------------------------------------------
// CAPTURE_DATA
// ---------------------------------------------------------------------------

/// Capture data is uploaded as independently-valid stream batches so the
/// client can decode, validate, and persist it using the normal V2 data path.
#[derive(Clone, Debug, PartialEq, Eq)]
pub struct CaptureData {
    pub capture_id: u32,
    pub block_index: u32,
    pub batch: StreamSampleBatch,
}

pub struct CaptureDataV {
    pub capture_id: u32,
    pub block_index: u32,
    pub batch: StreamSampleBatchV,
}

impl View for CaptureData {
    type V = CaptureDataV;

    open spec fn view(&self) -> CaptureDataV {
        CaptureDataV { capture_id: self.capture_id, block_index: self.block_index, batch: self.batch@ }
    }
}

/// A CAPTURE_DATA block can be encoded: non-zero capture id, a batch that
/// passes the header checks, and a batch encoding whose length fits the
/// 32-bit length prefix.
#[verifier::opaque]
pub open spec fn capture_data_ok(d: CaptureDataV) -> bool {
    &&& d.capture_id != 0
    &&& batch_header_ok(d.batch)
    &&& enc_batch(d.batch).len() <= u32::MAX
}

/// CAPTURE_DATA payload: capture id, block index, length-prefixed batch.
#[verifier::opaque]
pub open spec fn enc_capture_data(d: CaptureDataV) -> Seq<u8> {
    le32(d.capture_id) + le32(d.block_index) + le32(enc_batch(d.batch).len() as u32) + enc_batch(
        d.batch,
    )
}

pub open spec fn parse_capture_data(s: Seq<u8>, p: int) -> Option<(CaptureDataV, int)> {
    if p < 0 || p + 12 > s.len() {
        None
    } else {
        let id = from_le32(s.subrange(p, p + 4));
        let n = from_le32(s.subrange(p + 8, p + 12));
        if id == 0 || n > s.len() - (p + 12) {
            None
        } else {
            match parse_valid_batch(s.subrange(p + 12, p + 12 + n), 0) {
                Some(b) => Some(
                    (
                        CaptureDataV {
                            capture_id: id,
                            block_index: from_le32(s.subrange(p + 4, p + 8)),
                            batch: b,
                        },
                        p + 12 + n,
                    ),
                ),
                None => None,
            }
        }
    }
}

/// Law: an encodable CAPTURE_DATA block parses back from its encoding.
#[verifier::rlimit(80)]
#[verifier::spinoff_prover]
pub proof fn lemma_capture_data_roundtrip(s: Seq<u8>, p: int, d: CaptureDataV)
    requires
        capture_data_ok(d),
        0 <= p,
        p + enc_capture_data(d).len() <= s.len(),
        s.subrange(p, p + enc_capture_data(d).len()) == enc_capture_data(d),
    ensures
        parse_capture_data(s, p) == Some((d, p + enc_capture_data(d).len())),
{
    reveal(capture_data_ok);
    reveal(enc_capture_data);
    let e = enc_capture_data(d);
    let b = enc_batch(d.batch);
    let n = b.len() as u32;
    let len = e.len() as int;
    let w = s.subrange(p, p + len);
    assert(e.len() == 12 + b.len());
    lemma_le32_roundtrip(d.capture_id);
    lemma_le32_roundtrip(d.block_index);
    lemma_le32_roundtrip(n);
    assert(from_le32(s.subrange(p, p + 4)) == d.capture_id) by {
        assert(s.subrange(p, p + 4) =~= w.subrange(0, 4));
        assert(e.subrange(0, 4) =~= le32(d.capture_id));
    }
    assert(from_le32(s.subrange(p + 4, p + 8)) == d.block_index) by {
        assert(s.subrange(p + 4, p + 8) =~= w.subrange(4, 8));
        assert(e.subrange(4, 8) =~= le32(d.block_index));
    }
    assert(from_le32(s.subrange(p + 8, p + 12)) == n) by {
        assert(s.subrange(p + 8, p + 12) =~= w.subrange(8, 12));
        assert(e.subrange(8, 12) =~= le32(n));
    }
    let t = s.subrange(p + 12, p + 12 + n);
    assert(t == b) by {
        assert(t =~= w.subrange(12, len));
        assert(e.subrange(12, len) =~= b);
    }
    assert(parse_valid_batch(t, 0) == Some(d.batch)) by {
        assert(t.subrange(0, t.len() as int) =~= t);
        lemma_batch_roundtrip(t, 0, d.batch);
    }
}

/// Law: whatever the CAPTURE_DATA grammar accepts is the encoding of its
/// result, and is encodable.
#[verifier::rlimit(80)]
#[verifier::spinoff_prover]
pub proof fn lemma_capture_data_canonical(s: Seq<u8>, p: int)
    ensures
        match parse_capture_data(s, p) {
            Some((d, q)) => capture_data_ok(d) && q == p + enc_capture_data(d).len() && s.subrange(
                p,
                q,
            ) == enc_capture_data(d),
            None => true,
        },
{
    reveal(capture_data_ok);
    reveal(enc_capture_data);
    if let Some((d, q)) = parse_capture_data(s, p) {
        let n = from_le32(s.subrange(p + 8, p + 12));
        let t = s.subrange(p + 12, p + 12 + n);
        assert(parse_valid_batch(t, 0) == Some(d.batch));
        assert(batch_header_ok(d.batch));
        assert(t == enc_batch(d.batch)) by {
            lemma_batch_canonical(t, 0);
            assert(t.subrange(0, t.len() as int) =~= t);
        }
        assert(capture_data_ok(d));
        assert(s.subrange(p, q) == enc_capture_data(d)) by {
            lemma_le32_canonical(s.subrange(p, p + 4));
            lemma_le32_canonical(s.subrange(p + 4, p + 8));
            lemma_le32_canonical(s.subrange(p + 8, p + 12));
            assert(s.subrange(p, q) =~= s.subrange(p, p + 4) + s.subrange(p + 4, p + 8)
                + s.subrange(p + 8, p + 12) + t);
        }
    }
}

#[verifier::rlimit(40)]
#[verifier::spinoff_prover]
pub fn encode_capture_data(data: &CaptureData, bytes: &mut Vec<u8>) -> (r: Result<(), ProtocolError>)
    ensures
        r is Ok <==> capture_data_ok(data@),
        r is Ok ==> final(bytes)@ == old(bytes)@ + enc_capture_data(data@),
        r is Err ==> final(bytes)@ == old(bytes)@,
{
    proof {
        reveal(capture_data_ok);
        reveal(enc_capture_data);
    }
    if data.capture_id == 0 {
        return Err(invalid_error("capture id must be non-zero"));
    }
    let mut batch: Vec<u8> = Vec::new();
    encode_stream_sample_batch(&data.batch, &mut batch)?;
    assert(batch@ =~= enc_batch(data.batch@));
    if batch.len() as u64 > 0xffff_ffffu64 {
        return Err(ProtocolError::PayloadTooLarge(batch.len()));
    }
    let ghost start = bytes@;
    put_u32(bytes, data.capture_id);
    put_u32(bytes, data.block_index);
    put_u32(bytes, batch.len() as u32);
    put_bytes(bytes, batch.as_slice());
    assert(bytes@ =~= start + enc_capture_data(data@));
    Ok(())
}

pub fn decode_capture_data(reader: &mut PayloadReader) -> (r: Result<CaptureData, ProtocolError>)
    requires
        old(reader).wf(),
    ensures
        final(reader).wf(),
        final(reader).data() == old(reader).data(),
        match parse_capture_data(old(reader).data(), old(reader).pos()) {
            Some((d, q)) => r matches Ok(x) && x@ == d && final(reader).pos() == q,
            None => r is Err,
        },
{
    let ghost s = reader.data();
    let ghost p = reader.pos();
    let capture_id = reader.u32()?;
    if capture_id == 0 {
        return Err(invalid_error("capture id must be non-zero"));
    }
    let block_index = reader.u32()?;
    let batch_len = reader.u32()?;
    if batch_len as usize > reader.remaining_len() {
        return Err(invalid_error("CAPTURE_DATA batch length exceeds payload"));
    }
    let inner = reader.bytes(batch_len as usize)?;
    let mut batch_reader = PayloadReader::new(inner);
    let batch = decode_stream_sample_batch(&mut batch_reader)?;
    batch_reader.finish()?;
    Ok(CaptureData { capture_id, block_index, batch })
}

// ---------------------------------------------------------------------------
// The V2 message set
// ---------------------------------------------------------------------------

#[derive(Clone, Debug, PartialEq)]
pub enum MessageV2 {
    StreamTable(StreamTable),
    ConfigureStream(ConfigureStream),
    StreamSampleBatch(StreamSampleBatch),
    ArmCapture(ArmCapture),
    ManualTrigger(ManualTrigger),
    CancelCapture(CancelCapture),
    CaptureStatus(CaptureStatus),
    CaptureBegin(CaptureBegin),
    CaptureData(CaptureData),
    CaptureEnd(CaptureEnd),
}

pub enum MessageV2V {
    StreamTable(StreamTableV),
    ConfigureStream(ConfigureStream),
    StreamSampleBatch(StreamSampleBatchV),
    ArmCapture(ArmCapture),
    ManualTrigger(ManualTrigger),
    CancelCapture(CancelCapture),
    CaptureStatus(CaptureStatus),
    CaptureBegin(CaptureBegin),
    CaptureData(CaptureDataV),
    CaptureEnd(CaptureEnd),
}

impl View for MessageV2 {
    type V = MessageV2V;

    open spec fn view(&self) -> MessageV2V {
        match self {
            MessageV2::StreamTable(t) => MessageV2V::StreamTable(t@),
            MessageV2::ConfigureStream(c) => MessageV2V::ConfigureStream(*c),
            MessageV2::StreamSampleBatch(b) => MessageV2V::StreamSampleBatch(b@),
            MessageV2::ArmCapture(c) => MessageV2V::ArmCapture(*c),
            MessageV2::ManualTrigger(c) => MessageV2V::ManualTrigger(*c),
            MessageV2::CancelCapture(c) => MessageV2V::CancelCapture(*c),
            MessageV2::CaptureStatus(c) => MessageV2V::CaptureStatus(*c),
            MessageV2::CaptureBegin(c) => MessageV2V::CaptureBegin(*c),
            MessageV2::CaptureData(d) => MessageV2V::CaptureData(d@),
            MessageV2::CaptureEnd(c) => MessageV2V::CaptureEnd(*c),
        }
    }
}

pub open spec fn spec_message_type(m: MessageV2V) -> u8 {
    match m {
        MessageV2V::StreamTable(_) => MSG_STREAM_TABLE,
        MessageV2V::ConfigureStream(_) => MSG_CONFIGURE_STREAM,
        MessageV2V::StreamSampleBatch(_) => MSG_STREAM_SAMPLE_BATCH,
        MessageV2V::ArmCapture(_) => MSG_ARM_CAPTURE,
        MessageV2V::ManualTrigger(_) => MSG_MANUAL_TRIGGER,
        MessageV2V::CancelCapture(_) => MSG_CANCEL_CAPTURE,
        MessageV2V::CaptureStatus(_) => MSG_CAPTURE_STATUS,
        MessageV2V::CaptureBegin(_) => MSG_CAPTURE_BEGIN,
        MessageV2V::CaptureData(_) => MSG_CAPTURE_DATA,
        MessageV2V::CaptureEnd(_) => MSG_CAPTURE_END,
    }
}

/// What the encoder checks before it writes a message.
pub open spec fn message_encodable(m: MessageV2V) -> bool {
    match m {
        MessageV2V::StreamTable(t) => stream_table_valid(t),
        MessageV2V::ConfigureStream(c) => configure_shape_ok(c),
        MessageV2V::StreamSampleBatch(b) => batch_header_ok(b),
        MessageV2V::ArmCapture(c) => arm_capture_ok(c),
        MessageV2V::CaptureData(d) => capture_data_ok(d),
        _ => true,
    }
}

/// The payload bytes of a message.
pub open spec fn enc_message(m: MessageV2V) -> Seq<u8> {
    match m {
        MessageV2V::StreamTable(t) => enc_table(t),
        MessageV2V::ConfigureStream(c) => enc_configure(c),
        MessageV2V::StreamSampleBatch(b) => enc_batch(b),
        MessageV2V::ArmCapture(c) => enc_arm(c),
        MessageV2V::ManualTrigger(c) => le32(c.capture_id),
        MessageV2V::CancelCapture(c) => le32(c.capture_id),
        MessageV2V::CaptureStatus(c) => enc_status(c),
        MessageV2V::CaptureBegin(c) => enc_begin(c),
        MessageV2V::CaptureData(d) => enc_capture_data(d),
        MessageV2V::CaptureEnd(c) => enc_end(c),
    }
}

/// `parsed` consumed the whole payload `s`.
pub open spec fn whole<T>(parsed: Option<(T, int)>, s: Seq<u8>) -> Option<T> {
    match parsed {
        Some((x, q)) => if q == s.len() {
            Some(x)
        } else {
            None
        },
        None => None,
    }
}

/// The message a payload of type `t` decodes to, if any.
pub open spec fn parse_message(t: u8, s: Seq<u8>) -> Option<MessageV2V> {
    if t == MSG_STREAM_TABLE {
        match whole(parse_valid_table(s, 0), s) {
            Some(x) => Some(MessageV2V::StreamTable(x)),
            None => None,
        }
    } else if t == MSG_CONFIGURE_STREAM {
        match whole(parse_configure(s, 0), s) {
            Some(x) => Some(MessageV2V::ConfigureStream(x)),
            None => None,
        }
    } else if t == MSG_STREAM_SAMPLE_BATCH {
        match parse_valid_batch(s, 0) {
            Some(x) => Some(MessageV2V::StreamSampleBatch(x)),
            None => None,
        }
    } else if t == MSG_ARM_CAPTURE {
        match whole(parse_arm(s, 0), s) {
            Some(x) => Some(MessageV2V::ArmCapture(x)),
            None => None,
        }
    } else if t == MSG_MANUAL_TRIGGER {
        match whole(parse_capture_id(s, 0), s) {
            Some(x) => Some(MessageV2V::ManualTrigger(ManualTrigger { capture_id: x })),
            None => None,
        }
    } else if t == MSG_CANCEL_CAPTURE {
        match whole(parse_capture_id(s, 0), s) {
            Some(x) => Some(MessageV2V::CancelCapture(CancelCapture { capture_id: x })),
            None => None,
        }
    } else if t == MSG_CAPTURE_STATUS {
        match whole(parse_status(s, 0), s) {
            Some(x) => Some(MessageV2V::CaptureStatus(x)),
            None => None,
        }
    } else if t == MSG_CAPTURE_BEGIN {
        match whole(parse_begin(s, 0), s) {
            Some(x) => Some(MessageV2V::CaptureBegin(x)),
            None => None,
        }
    } else if t == MSG_CAPTURE_DATA {
        match whole(parse_capture_data(s, 0), s) {
            Some(x) => Some(MessageV2V::CaptureData(x)),
            None => None,
        }
    } else if t == MSG_CAPTURE_END {
        match whole(parse_end(s, 0), s) {
            Some(x) => Some(MessageV2V::CaptureEnd(x)),
            None => None,
        }
    } else {
        None
    }
}

/// The message types of the V2 set.
pub open spec fn known_message_type(t: u8) -> bool {
    t == MSG_STREAM_TABLE || t == MSG_CONFIGURE_STREAM || t == MSG_STREAM_SAMPLE_BATCH || t
        == MSG_ARM_CAPTURE || t == MSG_MANUAL_TRIGGER || t == MSG_CANCEL_CAPTURE || t
        == MSG_CAPTURE_STATUS || t == MSG_CAPTURE_BEGIN || t == MSG_CAPTURE_DATA || t
        == MSG_CAPTURE_END
}

impl MessageV2 {
    pub fn message_type(&self) -> (r: u8)
        ensures
            r == spec_message_type(self@),
    {
        match self {
            MessageV2::StreamTable(_) => MSG_STREAM_TABLE,
            MessageV2::ConfigureStream(_) => MSG_CONFIGURE_STREAM,
            MessageV2::StreamSampleBatch(_) => MSG_STREAM_SAMPLE_BATCH,
            MessageV2::ArmCapture(_) => MSG_ARM_CAPTURE,
            MessageV2::ManualTrigger(_) => MSG_MANUAL_TRIGGER,
            MessageV2::CancelCapture(_) => MSG_CANCEL_CAPTURE,
            MessageV2::CaptureStatus(_) => MSG_CAPTURE_STATUS,
            MessageV2::CaptureBegin(_) => MSG_CAPTURE_BEGIN,
            MessageV2::CaptureData(_) => MSG_CAPTURE_DATA,
            MessageV2::CaptureEnd(_) => MSG_CAPTURE_END,
        }
    }

    /// Encodes the payload.  Fails when the message does not pass its own
    /// checks, or when its encoding exceeds the frame payload limit.
    #[verifier::rlimit(40)]
    #[verifier::spinoff_prover]
    pub fn encode_payload(&self) -> (r: Result<Vec<u8>, ProtocolError>)
        ensures
            match r {
                Ok(b) => message_encodable(self@) && b@ == enc_message(self@) && b@.len()
                    <= MAX_PAYLOAD_LEN,
                Err(e) => !message_encodable(self@) || (enc_message(self@).len() > MAX_PAYLOAD_LEN
                    && e == ProtocolError::PayloadTooLarge(enc_message(self@).len() as usize)),
            },
    {
        let mut bytes: Vec<u8> = Vec::new();
        match self {
            MessageV2::StreamTable(table) => encode_stream_table(table, &mut bytes)?,
            MessageV2::ConfigureStream(configure) => encode_configure_stream(configure, &mut bytes)?,
            MessageV2::StreamSampleBatch(batch) => encode_stream_sample_batch(batch, &mut bytes)?,
            MessageV2::ArmCapture(capture) => encode_arm_capture(capture, &mut bytes)?,
            MessageV2::ManualTrigger(trigger) => put_u32(&mut bytes, trigger.capture_id),
            MessageV2::CancelCapture(cancel) => put_u32(&mut bytes, cancel.capture_id),
            MessageV2::CaptureStatus(status) => encode_capture_status(status, &mut bytes),
            MessageV2::CaptureBegin(begin) => encode_capture_begin(begin, &mut bytes),
            MessageV2::CaptureData(data) => encode_capture_data(data, &mut bytes)?,
            MessageV2::CaptureEnd(end) => encode_capture_end(end, &mut bytes),
        }
        assert(bytes@ =~= enc_message(self@));
        if bytes.len() > MAX_PAYLOAD_LEN {
            return Err(ProtocolError::PayloadTooLarge(bytes.len()));
        }
        Ok(bytes)
    }

    /// Decodes a payload of the given message type; the whole payload must
    /// be consumed.
    #[verifier::rlimit(40)]
    #[verifier::spinoff_prover]
    pub fn decode(message_type: u8, payload: &[u8]) -> (r: Result<MessageV2, ProtocolError>)
        ensures
            payload@.len() > MAX_PAYLOAD_LEN ==> r == Err::<MessageV2, ProtocolError>(
                ProtocolError::PayloadTooLarge(payload@.len() as usize),
            ),
            payload@.len() <= MAX_PAYLOAD_LEN && !known_message_type(message_type) ==> r == Err::<
                MessageV2,
                ProtocolError,
            >(ProtocolError::UnknownMessageType(message_type)),
            payload@.len() <= MAX_PAYLOAD_LEN && known_message_type(message_type) ==> match parse_message(
                message_type,
                payload@,
            ) {
                Some(m) => r matches Ok(x) && x@ == m,
                None => r is Err,
            },
    {
        if payload.len() > MAX_PAYLOAD_LEN {
            return Err(ProtocolError::PayloadTooLarge(payload.len()));
        }
        let mut reader = PayloadReader::new(payload);
        let message = match message_type {
            MSG_STREAM_TABLE => MessageV2::StreamTable(decode_stream_table(&mut reader)?),
            MSG_CONFIGURE_STREAM => MessageV2::ConfigureStream(decode_configure_stream(&mut reader)?),
            MSG_STREAM_SAMPLE_BATCH => MessageV2::StreamSampleBatch(
                decode_stream_sample_batch(&mut reader)?,
            ),
            MSG_ARM_CAPTURE => MessageV2::ArmCapture(decode_arm_capture(&mut reader)?),
            MSG_MANUAL_TRIGGER => MessageV2::ManualTrigger(
                ManualTrigger { capture_id: decode_capture_id(&mut reader)? },
            ),
            MSG_CANCEL_CAPTURE => MessageV2::CancelCapture(
                CancelCapture { capture_id: decode_capture_id(&mut reader)? },
            ),
            MSG_CAPTURE_STATUS => MessageV2::CaptureStatus(decode_capture_status(&mut reader)?),
            MSG_CAPTURE_BEGIN => MessageV2::CaptureBegin(decode_capture_begin(&mut reader)?),
            MSG_CAPTURE_DATA => MessageV2::CaptureData(decode_capture_data(&mut reader)?),
            MSG_CAPTURE_END => MessageV2::CaptureEnd(decode_capture_end(&mut reader)?),
            other => {
                return Err(ProtocolError::UnknownMessageType(other));
            },
        };
        reader.finish()?;
        Ok(message)
    }

    /// Encodes the message into a version-2 frame.
    pub fn into_frame(self, flags: u16, sequence: u32, session_id: u32, timestamp_ticks: u64) -> (r:
        Result<Frame, ProtocolError>)
        ensures
            match r {
                Ok(f) => message_encodable(self@) && enc_message(self@).len() <= MAX_PAYLOAD_LEN
                    && f.version == PROTOCOL_VERSION_V2 && f.message_type == spec_message_type(self@)
                    && f.flags == flags && f.sequence == sequence && f.session_id == session_id
                    && f.timestamp_ticks == timestamp_ticks && f.payload@ == enc_message(self@),
                Err(_) => !message_encodable(self@) || enc_message(self@).len() > MAX_PAYLOAD_LEN,
            },
    {
        let message_type = self.message_type();
        let payload = self.encode_payload()?;
        Ok(Frame::new_v2(message_type, flags, sequence, session_id, timestamp_ticks, payload))
    }
}

/// What the decoder accepts beyond what the encoder checks: a CAPTURE_BEGIN
/// must announce an allowed row count.
pub open spec fn message_decodable(m: MessageV2V) -> bool {
    message_encodable(m) && (m matches MessageV2V::CaptureBegin(c) ==> begin_ok(c))
}

#[verifier::spinoff_prover]
proof fn lemma_roundtrip_stream_table(t: StreamTableV)
    requires
        stream_table_valid(t),
    ensures
        parse_message(MSG_STREAM_TABLE, enc_table(t)) == Some(MessageV2V::StreamTable(t)),
{
    let s = enc_table(t);
    assert(parse_valid_table(s, 0) == Some((t, s.len() as int))) by {
        assert(s.subrange(0, s.len() as int) =~= s);
        lemma_table_roundtrip(s, 0, t);
    }
}

#[verifier::spinoff_prover]
proof fn lemma_roundtrip_configure_stream(c: ConfigureStream)
    requires
        configure_shape_ok(c),
    ensures
        parse_message(MSG_CONFIGURE_STREAM, enc_configure(c)) == Some(MessageV2V::ConfigureStream(c)),
{
    let s = enc_configure(c);
    assert(parse_configure(s, 0) == Some((c, s.len() as int))) by {
        lemma_le16_roundtrip(c.stream_id);
        lemma_le16_roundtrip(c.batch_samples);
        lemma_le64_roundtrip(c.channel_mask);
        assert(s.subrange(0, s.len() as int) =~= s);
        lemma_configure_roundtrip(s, 0, c);
    }
}

#[verifier::spinoff_prover]
proof fn lemma_roundtrip_stream_sample_batch(b: StreamSampleBatchV)
    requires
        batch_header_ok(b),
    ensures
        parse_message(MSG_STREAM_SAMPLE_BATCH, enc_batch(b)) == Some(MessageV2V::StreamSampleBatch(b)),
{
    let s = enc_batch(b);
    assert(parse_valid_batch(s, 0) == Some(b)) by {
        assert(s.subrange(0, s.len() as int) =~= s);
        lemma_batch_roundtrip(s, 0, b);
    }
}

#[verifier::rlimit(90)]
#[verifier::spinoff_prover]
proof fn lemma_roundtrip_arm_capture(c: ArmCapture)
    requires
        arm_capture_ok(c),
    ensures
        parse_message(MSG_ARM_CAPTURE, enc_arm(c)) == Some(MessageV2V::ArmCapture(c)),
{
    let s = enc_arm(c);
    assert(parse_arm(s, 0) == Some((c, s.len() as int))) by {
        lemma_le32_roundtrip(c.capture_id);
        lemma_le16_roundtrip(c.stream_id);
        lemma_le32_roundtrip(c.pretrigger_rows);
        lemma_le32_roundtrip(c.posttrigger_rows);
        lemma_le32_roundtrip(c.timeout_samples);
        lemma_le16_roundtrip(c.trigger.channel_id);
        lemma_le32_roundtrip(c.trigger.level_bits);
        lemma_le32_roundtrip(c.trigger.hysteresis_bits);
        lemma_le32_roundtrip(c.trigger.flag_mask);
        lemma_le32_roundtrip(c.trigger.flag_value);
        assert(s.subrange(0, s.len() as int) =~= s);
        lemma_arm_roundtrip(s, 0, c);
    }
}

#[verifier::spinoff_prover]
proof fn lemma_roundtrip_manual_trigger(c: ManualTrigger)
    ensures
        parse_message(MSG_MANUAL_TRIGGER, le32(c.capture_id)) == Some(MessageV2V::ManualTrigger(c)),
{
    let s = le32(c.capture_id);
    assert(parse_capture_id(s, 0) == Some((c.capture_id, 4int))) by {
        assert(s.subrange(0, s.len() as int) =~= s);
        lemma_le32_roundtrip(c.capture_id);
        lemma_capture_id_roundtrip(s, 0, c.capture_id);
    }
}

#[verifier::spinoff_prover]
proof fn lemma_roundtrip_cancel_capture(c: CancelCapture)
    ensures
        parse_message(MSG_CANCEL_CAPTURE, le32(c.capture_id)) == Some(MessageV2V::CancelCapture(c)),
{
    let s = le32(c.capture_id);
    assert(parse_capture_id(s, 0) == Some((c.capture_id, 4int))) by {
        assert(s.subrange(0, s.len() as int) =~= s);
        lemma_le32_roundtrip(c.capture_id);
        lemma_capture_id_roundtrip(s, 0, c.capture_id);
    }
}

#[verifier::spinoff_prover]
proof fn lemma_roundtrip_capture_status(c: CaptureStatus)
    ensures
        parse_message(MSG_CAPTURE_STATUS, enc_status(c)) == Some(MessageV2V::CaptureStatus(c)),
{
    let s = enc_status(c);
    assert(parse_status(s, 0) == Some((c, s.len() as int))) by {
        lemma_le32_roundtrip(c.capture_id);
        lemma_le32_roundtrip(c.captured_rows);
        lemma_le32_roundtrip(c.dropped_rows);
        assert(s.subrange(0, s.len() as int) =~= s);
        lemma_status_roundtrip(s, 0, c);
    }
}

#[verifier::spinoff_prover]
proof fn lemma_roundtrip_capture_begin(c: CaptureBegin)
    requires
        begin_ok(c),
    ensures
        parse_message(MSG_CAPTURE_BEGIN, enc_begin(c)) == Some(MessageV2V::CaptureBegin(c)),
{
    let s = enc_begin(c);
    assert(parse_begin(s, 0) == Some((c, s.len() as int))) by {
        lemma_le32_roundtrip(c.capture_id);
        lemma_le16_roundtrip(c.stream_id);
        lemma_le32_roundtrip(c.row_count);
        lemma_le64_roundtrip(c.trigger_row_seq);
        assert(s.subrange(0, s.len() as int) =~= s);
        lemma_begin_roundtrip(s, 0, c);
    }
}

#[verifier::rlimit(90)]
#[verifier::spinoff_prover]
proof fn lemma_roundtrip_capture_data(d: CaptureDataV)
    requires
        capture_data_ok(d),
    ensures
        parse_message(MSG_CAPTURE_DATA, enc_capture_data(d)) == Some(MessageV2V::CaptureData(d)),
{
    let s = enc_capture_data(d);
    assert(parse_capture_data(s, 0) == Some((d, s.len() as int))) by {
        assert(s.subrange(0, s.len() as int) =~= s);
        lemma_capture_data_roundtrip(s, 0, d);
    }
}

#[verifier::spinoff_prover]
proof fn lemma_roundtrip_capture_end(c: CaptureEnd)
    ensures
        parse_message(MSG_CAPTURE_END, enc_end(c)) == Some(MessageV2V::CaptureEnd(c)),
{
    let s = enc_end(c);
    assert(parse_end(s, 0) == Some((c, s.len() as int))) by {
        lemma_le32_roundtrip(c.capture_id);
        lemma_le32_roundtrip(c.uploaded_rows);
        lemma_le32_roundtrip(c.dropped_rows);
        lemma_le32_roundtrip(c.total_blocks);
        lemma_le32_roundtrip(c.total_samples);
        lemma_le32_roundtrip(c.integrity_summary);
        assert(s.subrange(0, s.len() as int) =~= s);
        lemma_end_roundtrip(s, 0, c);
    }
}

/// Law: every message that passes the encoder's and the decoder's checks
/// decodes from its own payload, under its own message type, to itself.
pub proof fn lemma_message_roundtrip(m: MessageV2V)
    requires
        message_decodable(m),
    ensures
        parse_message(spec_message_type(m), enc_message(m)) == Some(m),
{
    match m {
        MessageV2V::StreamTable(t) => lemma_roundtrip_stream_table(t),
        MessageV2V::ConfigureStream(c) => lemma_roundtrip_configure_stream(c),
        MessageV2V::StreamSampleBatch(b) => lemma_roundtrip_stream_sample_batch(b),
        MessageV2V::ArmCapture(c) => lemma_roundtrip_arm_capture(c),
        MessageV2V::ManualTrigger(c) => lemma_roundtrip_manual_trigger(c),
        MessageV2V::CancelCapture(c) => lemma_roundtrip_cancel_capture(c),
        MessageV2V::CaptureStatus(c) => lemma_roundtrip_capture_status(c),
        MessageV2V::CaptureBegin(c) => lemma_roundtrip_capture_begin(c),
        MessageV2V::CaptureData(d) => lemma_roundtrip_capture_data(d),
        MessageV2V::CaptureEnd(c) => lemma_roundtrip_capture_end(c),
    }
}

/// Law: a payload decodes only to a message of its own type that passes
/// both sides' checks and whose encoding is exactly that payload.
#[verifier::rlimit(40)]
#[verifier::spinoff_prover]
pub proof fn lemma_message_canonical(t: u8, s: Seq<u8>)
    ensures
        match parse_message(t, s) {
            Some(m) => message_decodable(m) && spec_message_type(m) == t && enc_message(m) == s,
            None => true,
        },
{
    if let Some(m) = parse_message(t, s) {
        if t == MSG_STREAM_TABLE {
            lemma_table_canonical(s, 0);
        } else if t == MSG_CONFIGURE_STREAM {
            lemma_configure_canonical(s, 0);
        } else if t == MSG_STREAM_SAMPLE_BATCH {
            lemma_batch_canonical(s, 0);
        } else if t == MSG_ARM_CAPTURE {
            lemma_arm_canonical(s, 0);
        } else if t == MSG_MANUAL_TRIGGER || t == MSG_CANCEL_CAPTURE {
            lemma_capture_id_canonical(s, 0);
        } else if t == MSG_CAPTURE_STATUS {
            lemma_status_canonical(s, 0);
        } else if t == MSG_CAPTURE_BEGIN {
            lemma_begin_canonical(s, 0);
        } else if t == MSG_CAPTURE_DATA {
            lemma_capture_data_canonical(s, 0);
        } else {
            lemma_end_canonical(s, 0);
        }
        assert(s.subrange(0, s.len() as int) =~= s);
    }
}

// ---------------------------------------------------------------------------
// CAPTURE_END integrity summary
// ---------------------------------------------------------------------------

/// The blocks in ascending block-index order; blocks with equal indices keep
/// their relative order (a stable sort).
pub open spec fn sort_by_index(blocks: Seq<CaptureDataV>) -> Seq<CaptureDataV> {
    sort_by_key(blocks, |d: CaptureDataV| d.block_index)
}

/// Concatenated CAPTURE_DATA payloads, first block first.
pub open spec fn enc_blocks(blocks: Seq<CaptureDataV>) -> Seq<u8>
    decreases blocks.len(),
{
    if blocks.len() == 0 {
        Seq::empty()
    } else {
        enc_blocks(blocks.drop_last()) + enc_capture_data(blocks.last())
    }
}

pub open spec fn data_views(blocks: Seq<CaptureData>) -> Seq<CaptureDataV> {
    blocks.map_values(|b: CaptureData| b@)
}

/// Every block encodes as a CAPTURE_DATA payload within the frame limit.
pub open spec fn blocks_encodable(blocks: Seq<CaptureDataV>) -> bool {
    forall|i: int|
        0 <= i < blocks.len() ==> capture_data_ok(#[trigger] blocks[i]) && enc_capture_data(
            blocks[i],
        ).len() <= MAX_PAYLOAD_LEN
}

/// The bytes the summary is the CRC32C of: the little-endian capture id,
/// then the CAPTURE_DATA payloads in ascending block-index order.
pub open spec fn summary_input(capture_id: u32, blocks: Seq<CaptureDataV>) -> Seq<u8> {
    le32(capture_id) + enc_blocks(sort_by_index(blocks))
}

proof fn lemma_enc_blocks_prefix(blocks: Seq<CaptureDataV>, k: int)
    requires
        0 <= k <= blocks.len(),
    ensures
        enc_blocks(blocks.take(k)).len() <= enc_blocks(blocks).len(),
    decreases blocks.len(),
{
    if k < blocks.len() {
        lemma_enc_blocks_prefix(blocks.drop_last(), k);
        assert(blocks.drop_last().take(k) =~= blocks.take(k));
    } else {
        assert(blocks.take(k) =~= blocks);
    }
}

/// Positions of `blocks` in ascending block-index order, ties in input
/// order.
fn sort_block_positions(blocks: &[CaptureData]) -> (order: Vec<usize>)
    ensures
        order@.len() == blocks@.len(),
        forall|i: int| 0 <= i < order@.len() ==> (#[trigger] order@[i]) < blocks@.len(),
        order@.map_values(|i: usize| data_views(blocks@)[i as int]) == sort_by_index(data_views(blocks@)),
{
    let ghost views = data_views(blocks@);
    let mut keys: Vec<u32> = Vec::new();
    let mut i: usize = 0;
    while i < blocks.len()
        invariant
            i <= blocks@.len(),
            views == data_views(blocks@),
            keys@.len() == i,
            forall|a: int| 0 <= a < i ==> keys@[a] == (#[trigger] views[a]).block_index,
        decreases blocks.len() - i,
    {
        keys.push(blocks[i].block_index);
        i = i + 1;
    }
    stable_sort_positions::<CaptureDataV>(&keys, Ghost(views), Ghost(|d: CaptureDataV| d.block_index))
}

/// Computes the frozen CAPTURE_END integrity summary: the CRC32C of the
/// little-endian capture id followed by the encoded CAPTURE_DATA payloads
/// in ascending block-index order.  Fails when a block does not encode, or
/// when the summarised bytes would exceed the capture payload limit.
#[verifier::rlimit(40)]
#[verifier::spinoff_prover]
pub fn capture_integrity_summary(capture_id: u32, blocks: &[CaptureData]) -> (r: Result<u32, ProtocolError>)
    ensures
        r is Ok <==> blocks_encodable(sort_by_index(data_views(blocks@))) && summary_input(
            capture_id,
            data_views(blocks@),
        ).len() <= MAX_CAPTURE_PAYLOAD_BYTES,
        r matches Ok(c) ==> c == spec_crc32c(summary_input(capture_id, data_views(blocks@))),
{
    let ghost views = data_views(blocks@);
    let order = sort_block_positions(blocks);
    let ghost sorted = sort_by_index(views);
    let mut crc = Crc32c::new();
    let mut id_bytes: Vec<u8> = Vec::new();
    put_u32(&mut id_bytes, capture_id);
    assert(id_bytes@ =~= le32(capture_id));
    crc.update(id_bytes.as_slice());
    let mut total: usize = 4;
    let mut n: usize = 0;
    while n < order.len()
        invariant
            n <= order@.len(),
            order@.len() == blocks@.len(),
            views == data_views(blocks@),
            sorted == sort_by_index(views),
            order@.map_values(|i: usize| views[i as int]) == sorted,
            forall|i: int| 0 <= i < order@.len() ==> (#[trigger] order@[i]) < blocks@.len(),
            crc.wf(),
            crc@ == le32(capture_id) + enc_blocks(sorted.take(n as int)),
            total == crc@.len(),
            total <= MAX_CAPTURE_PAYLOAD_BYTES,
            forall|i: int| 0 <= i < n ==> capture_data_ok(#[trigger] sorted[i]) && enc_capture_data(
                sorted[i],
            ).len() <= MAX_PAYLOAD_LEN,
        decreases order.len() - n,
    {
        let block = &blocks[order[n]];
        assert(block@ == sorted[n as int]);
        let mut payload: Vec<u8> = Vec::new();
        match encode_capture_data(block, &mut payload) {
            Ok(()) => {},
            Err(e) => {
                return Err(e);
            },
        }
        if payload.len() > MAX_PAYLOAD_LEN {
            return Err(ProtocolError::PayloadTooLarge(payload.len()));
        }
        assert(payload@ =~= enc_capture_data(sorted[n as int]));
        proof {
            assert(sorted.take(n + 1).drop_last() =~= sorted.take(n as int));
            lemma_enc_blocks_prefix(sorted, n + 1);
        }
        if total + payload.len() > MAX_CAPTURE_PAYLOAD_BYTES {
            return Err(ProtocolError::PayloadTooLarge(total + payload.len()));
        }
        crc.update(payload.as_slice());
        total = total + payload.len();
        assert(crc@ =~= le32(capture_id) + enc_blocks(sorted.take(n + 1)));
        n = n + 1;
    }
    assert(sorted.take(sorted.len() as int) =~= sorted);
    Ok(crc.finalize())
}

/// What an encodable CAPTURE_DATA block guarantees of its parts.
pub proof fn lemma_capture_data_ok(d: CaptureDataV)
    ensures
        capture_data_ok(d) <==> (d.capture_id != 0 && batch_header_ok(d.batch) && enc_batch(d.batch).len()
            <= u32::MAX),
        enc_capture_data(d).len() == 12 + enc_batch(d.batch).len(),
{
    reveal(capture_data_ok);
    reveal(enc_capture_data);
}


/// The integrity summary does not depend on the order the blocks arrived
/// in: blocks with pairwise distinct indices, received in any order, give
/// the same summary input (the capture id, then the payloads in block-index
/// order).
pub proof fn lemma_summary_order_free(capture_id: u32, a: Seq<CaptureDataV>, b: Seq<CaptureDataV>)
    requires
        a.to_multiset() == b.to_multiset(),
        forall|i: int, j: int| 0 <= i < j < a.len() ==> (#[trigger] a[i]).block_index != (#[trigger] a[j]).block_index,
    ensures
        summary_input(capture_id, a) == summary_input(capture_id, b),
{
    broadcast use vstd::seq_lib::group_to_multiset_ensures;
    let key = |d: CaptureDataV| d.block_index;
    crate::codec::lemma_sort_by_key_items(a, key);
    crate::codec::lemma_sort_by_key_items(b, key);
    let sa = sort_by_key(a, key);
    let sb = sort_by_key(b, key);
    assert(crate::codec::keys_distinct(sa.to_multiset(), key)) by {
        assert forall|x: CaptureDataV, y: CaptureDataV|
            sa.to_multiset().count(x) > 0 && sa.to_multiset().count(y) > 0 && key(x) == key(y) implies x == y by {
            assert(a.to_multiset().count(x) > 0);
            assert(a.contains(x));
            assert(a.contains(y));
            let i = choose|i: int| 0 <= i < a.len() && a[i] == x;
            let j = choose|j: int| 0 <= j < a.len() && a[j] == y;
            if i < j {
                assert(a[i].block_index != a[j].block_index);
            } else if j < i {
                assert(a[j].block_index != a[i].block_index);
            }
        }
    }
    crate::codec::lemma_key_sorted_unique(sa, sb, key);
    assert(sort_by_index(a) == sa);
    assert(sort_by_index(b) == sb);
}

} // verus!
