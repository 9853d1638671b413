//! R2 sample batches, R2 capture data, and the byte layout of the R2 stream
//! table.

use vstd::prelude::*;

use crate::codec::{
    elem_roundtrips, enc_list, f_u16, g_u16, lemma_distinct_below, lemma_list_roundtrip,
    lemma_parse_list_fail, lemma_u16_elem, parse_list, put_u16s,
};
use crate::messages_v2::{
    decode_binding, decode_relation, decode_u16s, enc_binding, enc_relation, f_binding, f_relation,
    g_binding, g_relation, lemma_binding_elem, lemma_relation_elem,
};
use crate::protocol_v2::{CausalRelation, StreamChannelBinding, MAX_CAUSAL_RELATION_COUNT, MAX_STREAM_COUNT};
use crate::protocol_v2_r2::{
    descriptor_r2_ok, stream_r2_views, stream_table_r2_valid, CausalGroupDescriptorR2, StreamDescriptorR2,
    StreamDescriptorR2V, StreamTableR2, StreamTableR2V, MAX_CAUSAL_GROUPS_R2,
};
use crate::wire::put_i16;
use crate::metadata_r2::{
    decode_metadata, enc_metadata, encode_metadata, infer_step, lemma_metadata_round_trip,
    metadata_encodable, parse_metadata, MetadataEncodingR2,
};
use crate::protocol::{copy_range, invalid_error, ProtocolError, MAX_BATCH_SAMPLES, MAX_CHANNEL_COUNT};
use crate::protocol_v2::{validate_count, CapturePhase, SampleDomain};
use crate::reader::PayloadReader;
use crate::snapshot::SnapshotMeta;
use crate::wire::{
    from_le16, from_le32, from_le64, le16, le32, le64, lemma_le16_roundtrip, lemma_le32_roundtrip,
    lemma_le64_roundtrip, put_bytes, put_u16, put_u32, put_u64,
};

verus! {

#[derive(Clone, Debug, PartialEq, Eq)]
pub struct StreamSampleBatchR2 {
    pub stream_id: u16,
    pub stream_revision: u32,
    pub domain: SampleDomain,
    pub capture_phase: CapturePhase,
    pub consistency_group: u16,
    pub first_row_sequence: u64,
    pub row_sequence_step: u32,
    pub logical_cycle_step: u32,
    pub sample_period_ticks: u32,
    pub row_count: u16,
    pub channel_ids: Vec<u16>,
    pub sample_data: Vec<u8>,
    pub metadata_encoding: MetadataEncodingR2,
    pub row_metadata: Vec<SnapshotMeta>,
}

pub struct StreamSampleBatchR2V {
    pub stream_id: u16,
    pub stream_revision: u32,
    pub domain: SampleDomain,
    pub capture_phase: CapturePhase,
    pub consistency_group: u16,
    pub first_row_sequence: u64,
    pub row_sequence_step: u32,
    pub logical_cycle_step: u32,
    pub sample_period_ticks: u32,
    pub row_count: u16,
    pub channel_ids: Seq<u16>,
    pub sample_data: Seq<u8>,
    pub metadata_encoding: MetadataEncodingR2,
    pub row_metadata: Seq<SnapshotMeta>,
}

impl View for StreamSampleBatchR2 {
    type V = StreamSampleBatchR2V;

    open spec fn view(&self) -> StreamSampleBatchR2V {
        StreamSampleBatchR2V {
            stream_id: self.stream_id,
            stream_revision: self.stream_revision,
            domain: self.domain,
            capture_phase: self.capture_phase,
            consistency_group: self.consistency_group,
            first_row_sequence: self.first_row_sequence,
            row_sequence_step: self.row_sequence_step,
            logical_cycle_step: self.logical_cycle_step,
            sample_period_ticks: self.sample_period_ticks,
            row_count: self.row_count,
            channel_ids: self.channel_ids@,
            sample_data: self.sample_data@,
            metadata_encoding: self.metadata_encoding,
            row_metadata: self.row_metadata@,
        }
    }
}

/// The header checks of an R2 batch.
pub open spec fn batch_r2_header_ok(b: StreamSampleBatchR2V) -> bool {
    &&& b.stream_id != 0
    &&& b.stream_revision != 0
    &&& b.consistency_group != 0
    &&& 1 <= b.row_count <= MAX_BATCH_SAMPLES
    &&& b.sample_period_ticks != 0
    &&& b.row_sequence_step != 0
    &&& b.logical_cycle_step != 0
    &&& b.row_metadata.len() == b.row_count
    &&& b.row_metadata[0].row_sequence == b.first_row_sequence
    &&& 1 <= b.channel_ids.len() <= MAX_CHANNEL_COUNT
    &&& forall|k: int| 0 <= k < b.channel_ids.len() ==> (b.channel_ids[k] as int) < MAX_CHANNEL_COUNT
    &&& forall|k: int, l: int| 0 <= k < l < b.channel_ids.len() ==> b.channel_ids[k] != b.channel_ids[l]
}

#[verifier::loop_isolation(false)]
pub fn validate_stream_sample_batch_r2_header(batch: &StreamSampleBatchR2) -> (r: Result<(), ProtocolError>)
    ensures
        r is Ok <==> batch_r2_header_ok(batch@),
        r matches Err(e) ==> e is InvalidPayload,
{
    if batch.stream_id == 0 || batch.stream_revision == 0 || batch.consistency_group == 0
        || batch.row_count == 0 || batch.row_count as usize > MAX_BATCH_SAMPLES
        || batch.sample_period_ticks == 0 || batch.row_sequence_step == 0
        || batch.logical_cycle_step == 0 {
        return Err(invalid_error("R2 sample batch has an invalid non-zero header field"));
    }
    if batch.row_metadata.len() != batch.row_count as usize {
        return Err(invalid_error("R2 row metadata count does not match row count"));
    }
    if batch.row_metadata[0].row_sequence != batch.first_row_sequence {
        return Err(invalid_error("R2 first row sequence does not match metadata"));
    }
    validate_count(batch.channel_ids.len(), 1, MAX_CHANNEL_COUNT, "R2 selected channels")?;
    let ids = &batch.channel_ids;
    let mut k: usize = 0;
    while k < ids.len()
        invariant
            k <= ids@.len(),
            ids@ == batch.channel_ids@,
            forall|a: int| 0 <= a < k ==> (ids@[a] as int) < MAX_CHANNEL_COUNT,
            forall|a: int, b: int| 0 <= a < b < k ==> ids@[a] != ids@[b],
        decreases ids.len() - k,
    {
        let c = ids[k];
        if c as usize >= MAX_CHANNEL_COUNT {
            return Err(invalid_error("R2 sample batch has an invalid or duplicate channel id"));
        }
        let mut l: usize = 0;
        while l < k
            invariant
                l <= k < ids@.len(),
                c == ids@[k as int],
                forall|b: int| 0 <= b < l ==> ids@[b] != c,
            decreases k - l,
        {
            if ids[l] == c {
                return Err(invalid_error("R2 sample batch has an invalid or duplicate channel id"));
            }
            l = l + 1;
        }
        k = k + 1;
    }
    Ok(())
}

/// The metadata section of a batch in its own encoding.
pub open spec fn batch_metadata(b: StreamSampleBatchR2V) -> Seq<u8> {
    enc_metadata(b.metadata_encoding, b.row_metadata, b.row_sequence_step, b.logical_cycle_step)
}

/// A batch the encoder writes: header checks pass, the metadata can be
/// written, and both length prefixes fit 32 bits.
pub open spec fn batch_r2_encodable(b: StreamSampleBatchR2V) -> bool {
    &&& batch_r2_header_ok(b)
    &&& metadata_encodable(b.metadata_encoding, b.row_metadata, b.row_sequence_step, b.logical_cycle_step)
    &&& b.sample_data.len() <= u32::MAX
    &&& batch_metadata(b).len() <= u32::MAX
}

/// The fixed 36-byte head of an R2 batch.
pub open spec fn enc_batch_r2_head(b: StreamSampleBatchR2V) -> Seq<u8> {
    le16(b.stream_id) + le32(b.stream_revision) + seq![b.domain.spec_code(), b.capture_phase.spec_code()]
        + le16(b.consistency_group) + le64(b.first_row_sequence) + le16(b.row_count) + le32(
        b.sample_period_ticks,
    ) + le16(b.channel_ids.len() as u16) + seq![b.metadata_encoding.spec_code(), 0u8] + le32(
        b.sample_data.len() as u32,
    ) + le32(batch_metadata(b).len() as u32)
}

/// SAMPLE_BATCH_V2_R2 layout: head, channel ids, sample bytes, metadata.
pub open spec fn enc_batch_r2(b: StreamSampleBatchR2V) -> Seq<u8> {
    enc_batch_r2_head(b) + enc_list(b.channel_ids, g_u16()) + b.sample_data + batch_metadata(b)
}

/// The R2 batch grammar at `p`, with the position after the batch.
pub open spec fn parse_batch_r2(s: Seq<u8>, p: int) -> Option<(StreamSampleBatchR2V, int)> {
    if p < 0 || p + 36 > s.len() {
        None
    } else {
        let dom = SampleDomain::spec_from_code(s[p + 6]);
        let ph = CapturePhase::spec_from_code(s[p + 7]);
        let row_count = from_le16(s.subrange(p + 18, p + 20));
        let n = from_le16(s.subrange(p + 24, p + 26));
        let enc = MetadataEncodingR2::spec_from_code(s[p + 26]);
        let sdl = from_le32(s.subrange(p + 28, p + 32));
        let mdl = from_le32(s.subrange(p + 32, p + 36));
        if dom is None || ph is None || enc is None || s[p + 27] != 0 || n < 1 || n > MAX_CHANNEL_COUNT {
            None
        } else {
            match parse_list(s, p + 36, n as nat, f_u16()) {
                Some((ids, q1)) => if q1 + sdl + mdl > s.len() {
                    None
                } else {
                    let q2 = q1 + sdl;
                    match parse_metadata(enc->Some_0, row_count, s.subrange(q2, q2 + mdl)) {
                        Some((rs, ls, rows)) => {
                            let b = StreamSampleBatchR2V {
                                stream_id: from_le16(s.subrange(p, p + 2)),
                                stream_revision: from_le32(s.subrange(p + 2, p + 6)),
                                domain: dom->Some_0,
                                capture_phase: ph->Some_0,
                                consistency_group: from_le16(s.subrange(p + 8, p + 10)),
                                first_row_sequence: from_le64(s.subrange(p + 10, p + 18)),
                                row_sequence_step: rs,
                                logical_cycle_step: ls,
                                sample_period_ticks: from_le32(s.subrange(p + 20, p + 24)),
                                row_count,
                                channel_ids: ids,
                                sample_data: s.subrange(q1, q2),
                                metadata_encoding: enc->Some_0,
                                row_metadata: rows,
                            };
                            if batch_r2_header_ok(b) {
                                Some((b, q2 + mdl))
                            } else {
                                None
                            }
                        },
                        None => None,
                    }
                },
                None => None,
            }
        }
    }
}

fn put_batch_r2_head(bytes: &mut Vec<u8>, batch: &StreamSampleBatchR2, metadata_len: u32)
    requires
        batch.channel_ids@.len() <= MAX_CHANNEL_COUNT,
        batch.sample_data@.len() <= u32::MAX,
        metadata_len == batch_metadata(batch@).len(),
    ensures
        final(bytes)@ == old(bytes)@ + enc_batch_r2_head(batch@),
{
    put_u16(bytes, batch.stream_id);
    put_u32(bytes, batch.stream_revision);
    bytes.push(batch.domain.code());
    bytes.push(batch.capture_phase.code());
    put_u16(bytes, batch.consistency_group);
    put_u64(bytes, batch.first_row_sequence);
    put_u16(bytes, batch.row_count);
    put_u32(bytes, batch.sample_period_ticks);
    put_u16(bytes, batch.channel_ids.len() as u16);
    bytes.push(batch.metadata_encoding.code());
    bytes.push(0);
    put_u32(bytes, batch.sample_data.len() as u32);
    put_u32(bytes, metadata_len);
    assert(final(bytes)@ =~= old(bytes)@ + enc_batch_r2_head(batch@));
}

proof fn lemma_concat4(a: Seq<u8>, b: Seq<u8>, c: Seq<u8>, d: Seq<u8>, e: Seq<u8>)
    ensures
        a + (b + c + d + e) == a + b + c + d + e,
{
    assert(a + (b + c + d + e) =~= a + b + c + d + e);
}

/// Encodes an R2 batch.  Header violations are `InvalidPayload`; a
/// prediction or a length prefix that does not fit is `LengthOverflow`.
pub fn encode_stream_sample_batch_r2(batch: &StreamSampleBatchR2, bytes: &mut Vec<u8>) -> (r: Result<(), ProtocolError>)
    ensures
        r is Ok <==> batch_r2_encodable(batch@),
        r is Ok ==> final(bytes)@ == old(bytes)@ + enc_batch_r2(batch@),
        r is Err ==> final(bytes)@ == old(bytes)@,
        r matches Err(e) ==> ((e is InvalidPayload <==> !batch_r2_header_ok(batch@)) && (e is InvalidPayload
            || e is LengthOverflow)),
{
    validate_stream_sample_batch_r2_header(batch)?;
    let mut metadata: Vec<u8> = Vec::new();
    encode_metadata(
        batch.metadata_encoding,
        &batch.row_metadata,
        batch.row_sequence_step,
        batch.logical_cycle_step,
        &mut metadata,
    )?;
    assert(metadata@ =~= batch_metadata(batch@));
    if batch.sample_data.len() as u64 > 0xffff_ffffu64 || metadata.len() as u64 > 0xffff_ffffu64 {
        return Err(ProtocolError::LengthOverflow);
    }
    let ghost start = bytes@;
    proof {
        lemma_distinct_below(batch@.channel_ids, MAX_CHANNEL_COUNT as int);
    }
    put_batch_r2_head(bytes, batch, metadata.len() as u32);
    put_u16s(bytes, &batch.channel_ids);
    put_bytes(bytes, batch.sample_data.as_slice());
    put_bytes(bytes, metadata.as_slice());
    proof {
        lemma_concat4(
            start,
            enc_batch_r2_head(batch@),
            enc_list(batch@.channel_ids, g_u16()),
            batch@.sample_data,
            batch_metadata(batch@),
        );
    }
    Ok(())
}

/// Decodes an R2 batch; its length prefixes delimit it.
#[verifier::loop_isolation(false)]
#[verifier::rlimit(40)]
pub fn decode_stream_sample_batch_r2(reader: &mut PayloadReader) -> (r: Result<StreamSampleBatchR2, ProtocolError>)
    requires
        old(reader).wf(),
    ensures
        final(reader).wf(),
        final(reader).data() == old(reader).data(),
        match parse_batch_r2(old(reader).data(), old(reader).pos()) {
            Some((b, q)) => r matches Ok(x) && x@ == b && final(reader).pos() == q,
            None => r is Err,
        },
{
    let ghost s = reader.data();
    let ghost p = reader.pos();
    let stream_id = reader.u16()?;
    let stream_revision = reader.u32()?;
    let domain = SampleDomain::from_code(reader.u8()?)?;
    let capture_phase = CapturePhase::from_code(reader.u8()?)?;
    let consistency_group = reader.u16()?;
    let first_row_sequence = reader.u64()?;
    let row_count = reader.u16()?;
    let sample_period_ticks = reader.u32()?;
    let channel_count = reader.u16()?;
    let metadata_encoding = MetadataEncodingR2::from_code(reader.u8()?)?;
    let reserved = reader.u8()?;
    if reserved != 0 {
        return Err(invalid_error("R2 SAMPLE_BATCH reserved field must be zero"));
    }
    let sample_data_len = reader.u32()?;
    let metadata_len = reader.u32()?;
    validate_count(channel_count as usize, 1, MAX_CHANNEL_COUNT, "R2 selected channels")?;
    let channel_ids = decode_u16s(reader, channel_count as usize)?;
    let ghost q1 = reader.pos();
    proof {
        reader.lemma_pos_bound();
    }
    if sample_data_len as usize > reader.remaining_len() {
        return Err(invalid_error("truncated R2 sample data"));
    }
    let data = reader.bytes(sample_data_len as usize)?;
    let sample_data = copy_range(data, 0, data.len());
    assert(data@.subrange(0, data@.len() as int) =~= data@);
    if metadata_len as usize > reader.remaining_len() {
        return Err(invalid_error("truncated R2 metadata"));
    }
    let metadata_bytes = reader.bytes(metadata_len as usize)?;
    let (row_sequence_step, logical_cycle_step, row_metadata) = decode_metadata(
        metadata_encoding,
        row_count,
        metadata_bytes,
    )?;
    let batch = StreamSampleBatchR2 {
        stream_id,
        stream_revision,
        domain,
        capture_phase,
        consistency_group,
        first_row_sequence,
        row_sequence_step,
        logical_cycle_step,
        sample_period_ticks,
        row_count,
        channel_ids,
        sample_data,
        metadata_encoding,
        row_metadata,
    };
    validate_stream_sample_batch_r2_header(&batch)?;
    Ok(batch)
}

/// Bytes one SCP1 frame carrying `batch` takes on the link, for a budget at
/// this sample rate and baud: refused when the rate, the baud or the batch's
/// row count is zero, or when the batch cannot be encoded.
pub fn r2_budget_frame_bytes(batch: &StreamSampleBatchR2, sample_rate_hz: u32, baud: u32) -> (r: Result<
    usize,
    ProtocolError,
>)
    ensures
        r is Ok <==> (sample_rate_hz != 0 && baud != 0 && batch.row_count != 0 && batch_r2_encodable(batch@)
            && crate::protocol::FRAME_HEADER_LEN + enc_batch_r2(batch@).len() + crate::protocol::FRAME_CRC_LEN
            <= usize::MAX),
        r matches Ok(n) ==> n == crate::protocol::FRAME_HEADER_LEN + enc_batch_r2(batch@).len()
            + crate::protocol::FRAME_CRC_LEN,
{
    if sample_rate_hz == 0 || baud == 0 || batch.row_count == 0 {
        return Err(invalid_error("R2 link budget rate, baud, and row count must be non-zero"));
    }
    let payload = stream_sample_batch_r2_payload_len(batch)?;
    match crate::protocol::FRAME_HEADER_LEN.checked_add(payload) {
        Some(with_header) => match with_header.checked_add(crate::protocol::FRAME_CRC_LEN) {
            Some(total) => Ok(total),
            None => Err(ProtocolError::LengthOverflow),
        },
        None => Err(ProtocolError::LengthOverflow),
    }
}

/// The encoded length of an R2 batch, or the encoder's error.
pub fn stream_sample_batch_r2_payload_len(batch: &StreamSampleBatchR2) -> (r: Result<usize, ProtocolError>)
    ensures
        r is Ok <==> batch_r2_encodable(batch@),
        r matches Ok(n) ==> n == enc_batch_r2(batch@).len(),
{
    let mut scratch: Vec<u8> = Vec::new();
    encode_stream_sample_batch_r2(batch, &mut scratch)?;
    assert(scratch@ =~= enc_batch_r2(batch@));
    Ok(scratch.len())
}

// ---------------------------------------------------------------------------
// CAPTURE_DATA_R2
// ---------------------------------------------------------------------------

#[derive(Clone, Debug, PartialEq, Eq)]
pub struct CaptureDataR2 {
    pub capture_id: u32,
    pub block_index: u32,
    pub batch: StreamSampleBatchR2,
}

pub struct CaptureDataR2V {
    pub capture_id: u32,
    pub block_index: u32,
    pub batch: StreamSampleBatchR2V,
}

impl View for CaptureDataR2 {
    type V = CaptureDataR2V;

    open spec fn view(&self) -> CaptureDataR2V {
        CaptureDataR2V { capture_id: self.capture_id, block_index: self.block_index, batch: self.batch@ }
    }
}

/// CAPTURE_DATA_R2 payload: capture id, block index, then the batch.
pub open spec fn enc_capture_data_r2(d: CaptureDataR2V) -> Seq<u8> {
    le32(d.capture_id) + le32(d.block_index) + enc_batch_r2(d.batch)
}

pub fn encode_capture_data_r2_payload(data: &CaptureDataR2) -> (r: Result<Vec<u8>, ProtocolError>)
    ensures
        r is Ok <==> batch_r2_encodable(data@.batch),
        r matches Ok(b) ==> b@ == enc_capture_data_r2(data@),
{
    let mut bytes: Vec<u8> = Vec::new();
    put_u32(&mut bytes, data.capture_id);
    put_u32(&mut bytes, data.block_index);
    let ghost head = bytes@;
    encode_stream_sample_batch_r2(&data.batch, &mut bytes)?;
    assert(bytes@ =~= enc_capture_data_r2(data@));
    Ok(bytes)
}

/// The encoded length of a CAPTURE_DATA_R2 payload.
pub fn capture_data_r2_payload_len(data: &CaptureDataR2) -> (r: Result<usize, ProtocolError>)
    ensures
        r is Ok ==> batch_r2_encodable(data@.batch),
        batch_r2_encodable(data@.batch) && enc_capture_data_r2(data@).len() <= usize::MAX ==> r is Ok,
        r matches Ok(n) ==> n == enc_capture_data_r2(data@).len(),
{
    let n = stream_sample_batch_r2_payload_len(&data.batch)?;
    if n > usize::MAX - 8 {
        return Err(ProtocolError::LengthOverflow);
    }
    Ok(8 + n)
}

// ---------------------------------------------------------------------------
// STREAM_TABLE_R2 layout
// ---------------------------------------------------------------------------

pub open spec fn enc_group(g: CausalGroupDescriptorR2) -> Seq<u8> {
    le16(g.consistency_group) + le16(g.max_reorder_cycles) + le32(g.logical_cycle_rate_hz)
}

pub open spec fn parse_group(s: Seq<u8>, p: int) -> Option<(CausalGroupDescriptorR2, int)> {
    if p < 0 || p + 8 > s.len() {
        None
    } else {
        Some(
            (
                CausalGroupDescriptorR2 {
                    consistency_group: from_le16(s.subrange(p, p + 2)),
                    max_reorder_cycles: from_le16(s.subrange(p + 2, p + 4)),
                    logical_cycle_rate_hz: from_le32(s.subrange(p + 4, p + 8)),
                },
                p + 8,
            ),
        )
    }
}

pub open spec fn g_group() -> spec_fn(CausalGroupDescriptorR2) -> Seq<u8> {
    |g: CausalGroupDescriptorR2| enc_group(g)
}

pub open spec fn f_group() -> spec_fn(Seq<u8>, int) -> Option<(CausalGroupDescriptorR2, int)> {
    |s: Seq<u8>, p: int| parse_group(s, p)
}

pub open spec fn enc_stream_r2(d: StreamDescriptorR2V) -> Seq<u8> {
    le16(d.stream_id) + seq![d.domain.spec_code(), d.capture_phase.spec_code()] + le32(d.sample_rate_hz)
        + le16(d.consistency_group) + le32(d.logical_cycle_step) + le16(d.channel_ids.len() as u16)
        + enc_list(d.channel_ids, g_u16())
}

pub open spec fn parse_stream_r2(s: Seq<u8>, p: int) -> Option<(StreamDescriptorR2V, int)> {
    if p < 0 || p + 16 > s.len() {
        None
    } else {
        let dom = SampleDomain::spec_from_code(s[p + 2]);
        let ph = CapturePhase::spec_from_code(s[p + 3]);
        let n = from_le16(s.subrange(p + 14, p + 16));
        if dom is None || ph is None || n < 1 || n > MAX_CHANNEL_COUNT {
            None
        } else {
            match parse_list(s, p + 16, n as nat, f_u16()) {
                Some((ids, q)) => Some(
                    (
                        StreamDescriptorR2V {
                            stream_id: from_le16(s.subrange(p, p + 2)),
                            domain: dom->Some_0,
                            capture_phase: ph->Some_0,
                            sample_rate_hz: from_le32(s.subrange(p + 4, p + 8)),
                            consistency_group: from_le16(s.subrange(p + 8, p + 10)),
                            logical_cycle_step: from_le32(s.subrange(p + 10, p + 14)),
                            channel_ids: ids,
                        },
                        q,
                    ),
                ),
                None => None,
            }
        }
    }
}

pub open spec fn g_stream_r2() -> spec_fn(StreamDescriptorR2V) -> Seq<u8> {
    |d: StreamDescriptorR2V| enc_stream_r2(d)
}

pub open spec fn f_stream_r2() -> spec_fn(Seq<u8>, int) -> Option<(StreamDescriptorR2V, int)> {
    |s: Seq<u8>, p: int| parse_stream_r2(s, p)
}

/// STREAM_TABLE_R2 payload: revision, four counts, a zero reserved
/// half-word, then groups, streams, bindings, and relations.
pub open spec fn enc_table_r2(t: StreamTableR2V) -> Seq<u8> {
    le32(t.revision) + le16(t.causal_groups.len() as u16) + le16(t.streams.len() as u16) + le16(
        t.bindings.len() as u16,
    ) + le16(t.causal_relations.len() as u16) + le16(0) + enc_list(t.causal_groups, g_group())
        + enc_list(t.streams, g_stream_r2()) + enc_list(t.bindings, g_binding()) + enc_list(
        t.causal_relations,
        g_relation(),
    )
}

/// The table grammar at `p` followed by validation.
pub open spec fn parse_table_r2(s: Seq<u8>, p: int) -> Option<(StreamTableR2V, int)> {
    if p < 0 || p + 14 > s.len() {
        None
    } else {
        let ng = from_le16(s.subrange(p + 4, p + 6));
        let ns = from_le16(s.subrange(p + 6, p + 8));
        let nb = from_le16(s.subrange(p + 8, p + 10));
        let nr = from_le16(s.subrange(p + 10, p + 12));
        if from_le16(s.subrange(p + 12, p + 14)) != 0 || ng < 1 || ng > MAX_CAUSAL_GROUPS_R2 || ns < 1
            || ns > MAX_STREAM_COUNT || nb < 1 || nb > MAX_CHANNEL_COUNT || nr
            > MAX_CAUSAL_RELATION_COUNT {
            None
        } else {
            match parse_list(s, p + 14, ng as nat, f_group()) {
                Some((groups, q0)) => match parse_list(s, q0, ns as nat, f_stream_r2()) {
                    Some((streams, q1)) => match parse_list(s, q1, nb as nat, f_binding()) {
                        Some((bindings, q2)) => match parse_list(s, q2, nr as nat, f_relation()) {
                            Some((relations, q3)) => {
                                let t = StreamTableR2V {
                                    revision: from_le32(s.subrange(p, p + 4)),
                                    causal_groups: groups,
                                    streams,
                                    bindings,
                                    causal_relations: relations,
                                };
                                if stream_table_r2_valid(t) {
                                    Some((t, q3))
                                } else {
                                    None
                                }
                            },
                            None => None,
                        },
                        None => None,
                    },
                    None => None,
                },
                None => None,
            }
        }
    }
}

fn put_group(bytes: &mut Vec<u8>, g: CausalGroupDescriptorR2)
    ensures
        final(bytes)@ == old(bytes)@ + enc_group(g),
{
    put_u16(bytes, g.consistency_group);
    put_u16(bytes, g.max_reorder_cycles);
    put_u32(bytes, g.logical_cycle_rate_hz);
    assert(final(bytes)@ =~= old(bytes)@ + enc_group(g));
}

fn put_stream_r2(bytes: &mut Vec<u8>, d: &StreamDescriptorR2)
    requires
        d.channel_ids@.len() <= 0xffff,
    ensures
        final(bytes)@ == old(bytes)@ + enc_stream_r2(d@),
{
    let ghost start = bytes@;
    put_u16(bytes, d.stream_id);
    bytes.push(d.domain.code());
    bytes.push(d.capture_phase.code());
    put_u32(bytes, d.sample_rate_hz);
    put_u16(bytes, d.consistency_group);
    put_u32(bytes, d.logical_cycle_step);
    put_u16(bytes, d.channel_ids.len() as u16);
    let ghost mid = bytes@;
    put_u16s(bytes, &d.channel_ids);
    assert(mid =~= start + (le16(d.stream_id) + seq![d@.domain.spec_code(), d@.capture_phase.spec_code()]
        + le32(d.sample_rate_hz) + le16(d.consistency_group) + le32(d.logical_cycle_step) + le16(
        d.channel_ids@.len() as u16,
    )));
    assert(bytes@ =~= start + enc_stream_r2(d@));
}

fn put_binding(bytes: &mut Vec<u8>, b: StreamChannelBinding)
    ensures
        final(bytes)@ == old(bytes)@ + enc_binding(b),
{
    put_u16(bytes, b.channel_id);
    put_u16(bytes, b.stream_id);
    bytes.push(b.owner.code());
    bytes.push(b.role.code());
    assert(final(bytes)@ =~= old(bytes)@ + enc_binding(b));
}

fn put_relation(bytes: &mut Vec<u8>, r: CausalRelation)
    ensures
        final(bytes)@ == old(bytes)@ + enc_relation(r),
{
    put_u16(bytes, r.input_stream_id);
    put_u16(bytes, r.result_stream_id);
    put_u16(bytes, r.application_stream_id);
    put_i16(bytes, r.result_input_offset);
    put_i16(bytes, r.application_result_offset);
    assert(final(bytes)@ =~= old(bytes)@ + enc_relation(r));
}

/// Encodes a valid R2 stream table.
pub fn encode_stream_table_r2(table: &StreamTableR2, bytes: &mut Vec<u8>) -> (r: Result<(), ProtocolError>)
    ensures
        r is Ok <==> stream_table_r2_valid(table@),
        r is Ok ==> final(bytes)@ == old(bytes)@ + enc_table_r2(table@),
        r is Err ==> final(bytes)@ == old(bytes)@,
        r matches Err(e) ==> e is InvalidPayload,
{
    table.validate()?;
    let ghost start = bytes@;
    let ghost t = table@;
    put_u32(bytes, table.revision);
    put_u16(bytes, table.causal_groups.len() as u16);
    put_u16(bytes, table.streams.len() as u16);
    put_u16(bytes, table.bindings.len() as u16);
    put_u16(bytes, table.causal_relations.len() as u16);
    put_u16(bytes, 0);
    let ghost h0 = bytes@;
    let mut i: usize = 0;
    while i < table.causal_groups.len()
        invariant
            t == table@,
            i <= table.causal_groups@.len(),
            bytes@ == h0 + enc_list(t.causal_groups.subrange(0, i as int), g_group()),
        decreases table.causal_groups.len() - i,
    {
        put_group(bytes, table.causal_groups[i]);
        proof {
            let sub1 = t.causal_groups.subrange(0, i + 1);
            assert(sub1.drop_last() =~= t.causal_groups.subrange(0, i as int));
        }
        i = i + 1;
    }
    assert(t.causal_groups.subrange(0, t.causal_groups.len() as int) =~= t.causal_groups);
    let ghost h1 = bytes@;
    let mut i: usize = 0;
    while i < table.streams.len()
        invariant
            t == table@,
            stream_table_r2_valid(t),
            i <= table.streams@.len(),
            bytes@ == h1 + enc_list(t.streams.subrange(0, i as int), g_stream_r2()),
        decreases table.streams.len() - i,
    {
        assert(t.streams[i as int] == table.streams@[i as int]@);
        put_stream_r2(bytes, &table.streams[i]);
        proof {
            let sub1 = t.streams.subrange(0, i + 1);
            assert(sub1.drop_last() =~= t.streams.subrange(0, i as int));
        }
        i = i + 1;
    }
    assert(t.streams.subrange(0, t.streams.len() as int) =~= t.streams);
    let ghost h2 = bytes@;
    let mut i: usize = 0;
    while i < table.bindings.len()
        invariant
            t == table@,
            i <= table.bindings@.len(),
            bytes@ == h2 + enc_list(t.bindings.subrange(0, i as int), g_binding()),
        decreases table.bindings.len() - i,
    {
        put_binding(bytes, table.bindings[i]);
        proof {
            let sub1 = t.bindings.subrange(0, i + 1);
            assert(sub1.drop_last() =~= t.bindings.subrange(0, i as int));
        }
        i = i + 1;
    }
    assert(t.bindings.subrange(0, t.bindings.len() as int) =~= t.bindings);
    let ghost h3 = bytes@;
    let mut i: usize = 0;
    while i < table.causal_relations.len()
        invariant
            t == table@,
            i <= table.causal_relations@.len(),
            bytes@ == h3 + enc_list(t.causal_relations.subrange(0, i as int), g_relation()),
        decreases table.causal_relations.len() - i,
    {
        put_relation(bytes, table.causal_relations[i]);
        proof {
            let sub1 = t.causal_relations.subrange(0, i + 1);
            assert(sub1.drop_last() =~= t.causal_relations.subrange(0, i as int));
        }
        i = i + 1;
    }
    assert(t.causal_relations.subrange(0, t.causal_relations.len() as int) =~= t.causal_relations);
    assert(bytes@ =~= start + enc_table_r2(t));
    Ok(())
}

fn decode_group(reader: &mut PayloadReader) -> (r: Result<CausalGroupDescriptorR2, ProtocolError>)
    requires
        old(reader).wf(),
    ensures
        final(reader).wf(),
        final(reader).data() == old(reader).data(),
        match parse_group(old(reader).data(), old(reader).pos()) {
            Some((g, q)) => r == Ok::<CausalGroupDescriptorR2, ProtocolError>(g) && final(reader).pos() == q,
            None => r is Err,
        },
{
    let consistency_group = reader.u16()?;
    let max_reorder_cycles = reader.u16()?;
    let logical_cycle_rate_hz = reader.u32()?;
    Ok(CausalGroupDescriptorR2 { consistency_group, logical_cycle_rate_hz, max_reorder_cycles })
}

fn decode_stream_r2(reader: &mut PayloadReader) -> (r: Result<StreamDescriptorR2, ProtocolError>)
    requires
        old(reader).wf(),
    ensures
        final(reader).wf(),
        final(reader).data() == old(reader).data(),
        match parse_stream_r2(old(reader).data(), old(reader).pos()) {
            Some((d, q)) => r matches Ok(x) && x@ == d && final(reader).pos() == q,
            None => r is Err,
        },
{
    let stream_id = reader.u16()?;
    let domain = SampleDomain::from_code(reader.u8()?)?;
    let capture_phase = CapturePhase::from_code(reader.u8()?)?;
    let sample_rate_hz = reader.u32()?;
    let consistency_group = reader.u16()?;
    let logical_cycle_step = reader.u32()?;
    let n = reader.u16()?;
    validate_count(n as usize, 1, MAX_CHANNEL_COUNT, "R2 stream channels")?;
    let channel_ids = decode_u16s(reader, n as usize)?;
    Ok(
        StreamDescriptorR2 {
            stream_id,
            domain,
            capture_phase,
            sample_rate_hz,
            consistency_group,
            logical_cycle_step,
            channel_ids,
        },
    )
}

/// Decodes and validates an R2 stream table.
#[verifier::loop_isolation(false)]
#[verifier::rlimit(40)]
pub fn decode_stream_table_r2(reader: &mut PayloadReader) -> (r: Result<StreamTableR2, ProtocolError>)
    requires
        old(reader).wf(),
    ensures
        final(reader).wf(),
        final(reader).data() == old(reader).data(),
        match parse_table_r2(old(reader).data(), old(reader).pos()) {
            Some((t, q)) => r matches Ok(x) && x@ == t && final(reader).pos() == q,
            None => r is Err,
        },
{
    let ghost s = reader.data();
    let ghost p = reader.pos();
    let revision = reader.u32()?;
    let group_count = reader.u16()?;
    let stream_count = reader.u16()?;
    let binding_count = reader.u16()?;
    let relation_count = reader.u16()?;
    let reserved = reader.u16()?;
    if reserved != 0 {
        return Err(invalid_error("R2 STREAM_TABLE reserved field must be zero"));
    }
    validate_count(group_count as usize, 1, MAX_CAUSAL_GROUPS_R2, "R2 causal groups")?;
    validate_count(stream_count as usize, 1, MAX_STREAM_COUNT, "R2 streams")?;
    validate_count(binding_count as usize, 1, MAX_CHANNEL_COUNT, "R2 bindings")?;
    validate_count(relation_count as usize, 0, MAX_CAUSAL_RELATION_COUNT, "R2 causal relations")?;
    let ghost p0 = reader.pos();
    let mut causal_groups: Vec<CausalGroupDescriptorR2> = Vec::new();
    let mut k: usize = 0;
    while k < group_count as usize
        invariant
            reader.wf(),
            reader.data() == s,
            k <= group_count,
            parse_list(s, p0, k as nat, f_group()) == Some((causal_groups@, reader.pos())),
        decreases group_count as usize - k,
    {
        let g = match decode_group(reader) {
            Ok(g) => g,
            Err(e) => {
                proof {
                    lemma_parse_list_fail(s, p0, k as nat, group_count as nat, f_group());
                }
                return Err(e);
            },
        };
        causal_groups.push(g);
        k = k + 1;
    }
    let ghost p1 = reader.pos();
    let mut streams: Vec<StreamDescriptorR2> = Vec::new();
    let mut k: usize = 0;
    while k < stream_count as usize
        invariant
            reader.wf(),
            reader.data() == s,
            k <= stream_count,
            parse_list(s, p1, k as nat, f_stream_r2()) == Some((stream_r2_views(streams@), reader.pos())),
        decreases stream_count as usize - k,
    {
        let d = match decode_stream_r2(reader) {
            Ok(d) => d,
            Err(e) => {
                proof {
                    lemma_parse_list_fail(s, p1, k as nat, stream_count as nat, f_stream_r2());
                }
                return Err(e);
            },
        };
        let ghost before = streams@;
        streams.push(d);
        assert(stream_r2_views(streams@) =~= stream_r2_views(before).push(d@));
        k = k + 1;
    }
    let ghost p2 = reader.pos();
    let mut bindings: Vec<StreamChannelBinding> = Vec::new();
    let mut k: usize = 0;
    while k < binding_count as usize
        invariant
            reader.wf(),
            reader.data() == s,
            k <= binding_count,
            parse_list(s, p2, k as nat, f_binding()) == Some((bindings@, reader.pos())),
        decreases binding_count as usize - k,
    {
        let b = match decode_binding(reader) {
            Ok(b) => b,
            Err(e) => {
                proof {
                    lemma_parse_list_fail(s, p2, k as nat, binding_count as nat, f_binding());
                }
                return Err(e);
            },
        };
        bindings.push(b);
        k = k + 1;
    }
    let ghost p3 = reader.pos();
    let mut causal_relations: Vec<CausalRelation> = Vec::new();
    let mut k: usize = 0;
    while k < relation_count as usize
        invariant
            reader.wf(),
            reader.data() == s,
            k <= relation_count,
            parse_list(s, p3, k as nat, f_relation()) == Some((causal_relations@, reader.pos())),
        decreases relation_count as usize - k,
    {
        let x = match decode_relation(reader) {
            Ok(x) => x,
            Err(e) => {
                proof {
                    lemma_parse_list_fail(s, p3, k as nat, relation_count as nat, f_relation());
                }
                return Err(e);
            },
        };
        causal_relations.push(x);
        k = k + 1;
    }
    let table = StreamTableR2 { revision, causal_groups, streams, bindings, causal_relations };
    table.validate()?;
    Ok(table)
}

// ---------------------------------------------------------------------------
// Laws of the R2 grammars
// ---------------------------------------------------------------------------

proof fn lemma_group_elem(s: Seq<u8>)
    ensures
        forall|g: CausalGroupDescriptorR2| elem_roundtrips(s, f_group(), g_group(), g),
{
    assert forall|g: CausalGroupDescriptorR2| elem_roundtrips(s, f_group(), g_group(), g) by {
        assert forall|p: int|
            0 <= p && p + g_group()(g).len() <= s.len() && #[trigger] s.subrange(
                p,
                p + g_group()(g).len(),
            ) == g_group()(g) implies f_group()(s, p) == Some((g, p + g_group()(g).len())) by {
            lemma_le16_roundtrip(g.consistency_group);
            lemma_le16_roundtrip(g.max_reorder_cycles);
            lemma_le32_roundtrip(g.logical_cycle_rate_hz);
            let w = s.subrange(p, p + 8);
            assert(s.subrange(p, p + 2) =~= w.subrange(0, 2));
            assert(s.subrange(p + 2, p + 4) =~= w.subrange(2, 4));
            assert(s.subrange(p + 4, p + 8) =~= w.subrange(4, 8));
        }
    }
}

proof fn lemma_stream_r2_elem_roundtrip(s: Seq<u8>, d: StreamDescriptorR2V)
    requires
        1 <= d.channel_ids.len() <= MAX_CHANNEL_COUNT,
    ensures
        elem_roundtrips(s, f_stream_r2(), g_stream_r2(), d),
{
    assert forall|p: int|
        0 <= p && p + g_stream_r2()(d).len() <= s.len() && #[trigger] s.subrange(
            p,
            p + g_stream_r2()(d).len(),
        ) == g_stream_r2()(d) implies f_stream_r2()(s, p) == Some((d, p + g_stream_r2()(d).len())) by {
        let e = enc_stream_r2(d);
        let w = s.subrange(p, p + e.len());
        assert(w == e);
        lemma_le16_roundtrip(d.stream_id);
        lemma_le32_roundtrip(d.sample_rate_hz);
        lemma_le16_roundtrip(d.consistency_group);
        lemma_le32_roundtrip(d.logical_cycle_step);
        lemma_le16_roundtrip(d.channel_ids.len() as u16);
        let ids = enc_list(d.channel_ids, g_u16());
        assert(e.subrange(0, 2) =~= le16(d.stream_id));
        assert(e.subrange(4, 8) =~= le32(d.sample_rate_hz));
        assert(e.subrange(8, 10) =~= le16(d.consistency_group));
        assert(e.subrange(10, 14) =~= le32(d.logical_cycle_step));
        assert(e.subrange(14, 16) =~= le16(d.channel_ids.len() as u16));
        assert(e.subrange(16, e.len() as int) =~= ids);
        assert(e[2] == d.domain.spec_code());
        assert(e[3] == d.capture_phase.spec_code());
        assert(s.subrange(p, p + 2) =~= w.subrange(0, 2));
        assert(s.subrange(p + 4, p + 8) =~= w.subrange(4, 8));
        assert(s.subrange(p + 8, p + 10) =~= w.subrange(8, 10));
        assert(s.subrange(p + 10, p + 14) =~= w.subrange(10, 14));
        assert(s.subrange(p + 14, p + 16) =~= w.subrange(14, 16));
        assert(s.subrange(p + 16, p + 16 + ids.len()) =~= w.subrange(16, e.len() as int));
        assert(s[p + 2] == w[2]);
        assert(s[p + 3] == w[3]);
        lemma_u16_elem(s);
        lemma_list_roundtrip(s, p + 16, d.channel_ids, f_u16(), g_u16());
    }
}

/// Law: the STREAM_TABLE_R2 grammar parses the encoding of every valid
/// table back to the table, wherever it sits in a larger buffer.
#[verifier::rlimit(60)]
#[verifier::spinoff_prover]
pub proof fn lemma_table_r2_roundtrip(s: Seq<u8>, p: int, t: StreamTableR2V)
    requires
        stream_table_r2_valid(t),
        0 <= p,
        p + enc_table_r2(t).len() <= s.len(),
        s.subrange(p, p + enc_table_r2(t).len()) == enc_table_r2(t),
    ensures
        parse_table_r2(s, p) == Some((t, p + enc_table_r2(t).len())),
{
    let e = enc_table_r2(t);
    lemma_le32_roundtrip(t.revision);
    lemma_le16_roundtrip(t.causal_groups.len() as u16);
    lemma_le16_roundtrip(t.streams.len() as u16);
    lemma_le16_roundtrip(t.bindings.len() as u16);
    lemma_le16_roundtrip(t.causal_relations.len() as u16);
    lemma_le16_roundtrip(0);
    assert(s.subrange(p, p + 4) =~= e.subrange(0, 4));
    assert(s.subrange(p + 4, p + 6) =~= e.subrange(4, 6));
    assert(s.subrange(p + 6, p + 8) =~= e.subrange(6, 8));
    assert(s.subrange(p + 8, p + 10) =~= e.subrange(8, 10));
    assert(s.subrange(p + 10, p + 12) =~= e.subrange(10, 12));
    assert(s.subrange(p + 12, p + 14) =~= e.subrange(12, 14));
    let eg = enc_list(t.causal_groups, g_group());
    let es = enc_list(t.streams, g_stream_r2());
    let eb = enc_list(t.bindings, g_binding());
    let er = enc_list(t.causal_relations, g_relation());
    let a0 = 14 + eg.len() as int;
    let a1 = a0 + es.len();
    let a2 = a1 + eb.len();
    let q0 = p + a0;
    let q1 = p + a1;
    let q2 = p + a2;
    assert(e.subrange(14, a0) =~= eg);
    assert(e.subrange(a0, a1) =~= es);
    assert(e.subrange(a1, a2) =~= eb);
    assert(e.subrange(a2, e.len() as int) =~= er);
    assert(s.subrange(p + 14, q0) =~= e.subrange(14, a0));
    assert(s.subrange(q0, q1) =~= e.subrange(a0, a1));
    assert(s.subrange(q1, q2) =~= e.subrange(a1, a2));
    assert(s.subrange(q2, q2 + er.len()) =~= e.subrange(a2, e.len() as int));
    lemma_group_elem(s);
    lemma_list_roundtrip(s, p + 14, t.causal_groups, f_group(), g_group());
    assert forall|i: int| 0 <= i < t.streams.len() implies elem_roundtrips(
        s,
        f_stream_r2(),
        g_stream_r2(),
        #[trigger] t.streams[i],
    ) by {
        assert(descriptor_r2_ok(t.causal_groups, t.streams[i]));
        lemma_stream_r2_elem_roundtrip(s, t.streams[i]);
    }
    lemma_list_roundtrip(s, q0, t.streams, f_stream_r2(), g_stream_r2());
    lemma_binding_elem(s);
    lemma_list_roundtrip(s, q1, t.bindings, f_binding(), g_binding());
    lemma_relation_elem(s);
    lemma_list_roundtrip(s, q2, t.causal_relations, f_relation(), g_relation());
}

/// The explicit metadata form carries no steps: a reader takes them from the
/// first two rows, so they must be the batch's own.
pub open spec fn batch_steps_recoverable(b: StreamSampleBatchR2V) -> bool {
    b.metadata_encoding is Explicit ==> {
        &&& infer_step(b.row_metadata[0].row_sequence, b.row_metadata[1].row_sequence, b.row_count as int)
            == Some(b.row_sequence_step)
        &&& infer_step(
            b.row_metadata[0].logical_cycle_sequence,
            b.row_metadata[1].logical_cycle_sequence,
            b.row_count as int,
        ) == Some(b.logical_cycle_step)
    }
}

proof fn lemma_batch_r2_head_fields(s: Seq<u8>, p: int, b: StreamSampleBatchR2V)
    requires
        0 <= p,
        p + 36 <= s.len(),
        b.channel_ids.len() <= 0xffff,
        b.sample_data.len() <= u32::MAX,
        batch_metadata(b).len() <= u32::MAX,
        s.subrange(p, p + 36) == enc_batch_r2_head(b),
    ensures
        from_le16(s.subrange(p, p + 2)) == b.stream_id,
        from_le32(s.subrange(p + 2, p + 6)) == b.stream_revision,
        s[p + 6] == b.domain.spec_code(),
        s[p + 7] == b.capture_phase.spec_code(),
        from_le16(s.subrange(p + 8, p + 10)) == b.consistency_group,
        from_le64(s.subrange(p + 10, p + 18)) == b.first_row_sequence,
        from_le16(s.subrange(p + 18, p + 20)) == b.row_count,
        from_le32(s.subrange(p + 20, p + 24)) == b.sample_period_ticks,
        from_le16(s.subrange(p + 24, p + 26)) == b.channel_ids.len(),
        s[p + 26] == b.metadata_encoding.spec_code(),
        s[p + 27] == 0,
        from_le32(s.subrange(p + 28, p + 32)) == b.sample_data.len(),
        from_le32(s.subrange(p + 32, p + 36)) == batch_metadata(b).len(),
{
    let h = enc_batch_r2_head(b);
    lemma_le16_roundtrip(b.stream_id);
    lemma_le32_roundtrip(b.stream_revision);
    lemma_le16_roundtrip(b.consistency_group);
    lemma_le64_roundtrip(b.first_row_sequence);
    lemma_le16_roundtrip(b.row_count);
    lemma_le32_roundtrip(b.sample_period_ticks);
    lemma_le16_roundtrip(b.channel_ids.len() as u16);
    lemma_le32_roundtrip(b.sample_data.len() as u32);
    lemma_le32_roundtrip(batch_metadata(b).len() as u32);
    assert(h.subrange(0, 2) =~= le16(b.stream_id));
    assert(h.subrange(2, 6) =~= le32(b.stream_revision));
    assert(h.subrange(8, 10) =~= le16(b.consistency_group));
    assert(h.subrange(10, 18) =~= le64(b.first_row_sequence));
    assert(h.subrange(18, 20) =~= le16(b.row_count));
    assert(h.subrange(20, 24) =~= le32(b.sample_period_ticks));
    assert(h.subrange(24, 26) =~= le16(b.channel_ids.len() as u16));
    assert(h.subrange(28, 32) =~= le32(b.sample_data.len() as u32));
    assert(h.subrange(32, 36) =~= le32(batch_metadata(b).len() as u32));
    assert(s.subrange(p, p + 2) =~= h.subrange(0, 2));
    assert(s.subrange(p + 2, p + 6) =~= h.subrange(2, 6));
    assert(s.subrange(p + 8, p + 10) =~= h.subrange(8, 10));
    assert(s.subrange(p + 10, p + 18) =~= h.subrange(10, 18));
    assert(s.subrange(p + 18, p + 20) =~= h.subrange(18, 20));
    assert(s.subrange(p + 20, p + 24) =~= h.subrange(20, 24));
    assert(s.subrange(p + 24, p + 26) =~= h.subrange(24, 26));
    assert(s.subrange(p + 28, p + 32) =~= h.subrange(28, 32));
    assert(s.subrange(p + 32, p + 36) =~= h.subrange(32, 36));
    assert(s[p + 6] == h[6]);
    assert(s[p + 7] == h[7]);
    assert(s[p + 26] == h[26]);
    assert(s[p + 27] == h[27]);
}

proof fn lemma_parse_batch_r2_at(s: Seq<u8>, p: int, b: StreamSampleBatchR2V, q1: int, q2: int, end: int)
    requires
        0 <= p,
        p + 36 <= q1 <= q2 <= end <= s.len(),
        from_le16(s.subrange(p, p + 2)) == b.stream_id,
        from_le32(s.subrange(p + 2, p + 6)) == b.stream_revision,
        s[p + 6] == b.domain.spec_code(),
        s[p + 7] == b.capture_phase.spec_code(),
        from_le16(s.subrange(p + 8, p + 10)) == b.consistency_group,
        from_le64(s.subrange(p + 10, p + 18)) == b.first_row_sequence,
        from_le16(s.subrange(p + 18, p + 20)) == b.row_count,
        from_le32(s.subrange(p + 20, p + 24)) == b.sample_period_ticks,
        from_le16(s.subrange(p + 24, p + 26)) == b.channel_ids.len(),
        s[p + 26] == b.metadata_encoding.spec_code(),
        s[p + 27] == 0,
        from_le32(s.subrange(p + 28, p + 32)) == q2 - q1,
        from_le32(s.subrange(p + 32, p + 36)) == end - q2,
        batch_r2_header_ok(b),
        parse_list(s, p + 36, b.channel_ids.len(), f_u16()) == Some((b.channel_ids, q1)),
        s.subrange(q1, q2) == b.sample_data,
        parse_metadata(b.metadata_encoding, b.row_count, s.subrange(q2, end)) == Some(
            (b.row_sequence_step, b.logical_cycle_step, b.row_metadata),
        ),
    ensures
        parse_batch_r2(s, p) == Some((b, end)),
{
    assert(SampleDomain::spec_from_code(s[p + 6]) == Some(b.domain));
    assert(CapturePhase::spec_from_code(s[p + 7]) == Some(b.capture_phase));
    assert(MetadataEncodingR2::spec_from_code(s[p + 26]) == Some(b.metadata_encoding));
}

proof fn lemma_batch_r2_slices(s: Seq<u8>, p: int, b: StreamSampleBatchR2V)
    requires
        0 <= p,
        p + enc_batch_r2(b).len() <= s.len(),
        s.subrange(p, p + enc_batch_r2(b).len()) == enc_batch_r2(b),
    ensures
        ({
            let il = enc_list(b.channel_ids, g_u16()).len() as int;
            let q1 = p + 36 + il;
            let q2 = q1 + b.sample_data.len();
            let end = p + enc_batch_r2(b).len();
            &&& end == q2 + batch_metadata(b).len()
            &&& s.subrange(p, p + 36) == enc_batch_r2_head(b)
            &&& s.subrange(p + 36, q1) == enc_list(b.channel_ids, g_u16())
            &&& s.subrange(q1, q2) == b.sample_data
            &&& s.subrange(q2, end) == batch_metadata(b)
        }),
{
    let h = enc_batch_r2_head(b);
    let ids = enc_list(b.channel_ids, g_u16());
    let md = batch_metadata(b);
    let e = enc_batch_r2(b);
    assert(h.len() == 36);
    let il = ids.len() as int;
    let dl = b.sample_data.len() as int;
    let q1 = p + 36 + il;
    let q2 = q1 + dl;
    let end = p + e.len();
    let w = s.subrange(p, end);
    assert(s.subrange(p, p + 36) =~= w.subrange(0, 36));
    assert(e.subrange(0, 36) =~= h);
    assert(e.subrange(36, 36 + il) =~= ids);
    assert(s.subrange(p + 36, q1) =~= w.subrange(36, 36 + il));
    assert(e.subrange(36 + il, 36 + il + dl) =~= b.sample_data);
    assert(s.subrange(q1, q2) =~= w.subrange(36 + il, 36 + il + dl));
    assert(e.subrange(36 + il + dl, e.len() as int) =~= md);
    assert(s.subrange(q2, end) =~= w.subrange(36 + il + dl, e.len() as int));
}

proof fn lemma_batch_r2_metadata(b: StreamSampleBatchR2V)
    requires
        batch_r2_encodable(b),
        batch_steps_recoverable(b),
    ensures
        parse_metadata(b.metadata_encoding, b.row_count, batch_metadata(b)) == Some(
            (b.row_sequence_step, b.logical_cycle_step, b.row_metadata),
        ),
{
    lemma_metadata_round_trip(b.metadata_encoding, b.row_metadata, b.row_sequence_step, b.logical_cycle_step);
}

/// Law: the R2 batch grammar parses the encoding of every batch the encoder
/// writes back to the batch, wherever it sits in a larger buffer, when its
/// steps can be read back from the metadata.
#[verifier::spinoff_prover]
pub proof fn lemma_batch_r2_roundtrip(s: Seq<u8>, p: int, b: StreamSampleBatchR2V)
    requires
        batch_r2_encodable(b),
        batch_steps_recoverable(b),
        0 <= p,
        p + enc_batch_r2(b).len() <= s.len(),
        s.subrange(p, p + enc_batch_r2(b).len()) == enc_batch_r2(b),
    ensures
        parse_batch_r2(s, p) == Some((b, p + enc_batch_r2(b).len())),
{
    let il = enc_list(b.channel_ids, g_u16()).len() as int;
    let q1 = p + 36 + il;
    let q2 = q1 + b.sample_data.len();
    let end = p + enc_batch_r2(b).len();
    lemma_batch_r2_slices(s, p, b);
    lemma_batch_r2_head_fields(s, p, b);
    lemma_u16_elem(s);
    lemma_list_roundtrip(s, p + 36, b.channel_ids, f_u16(), g_u16());
    lemma_batch_r2_metadata(b);
    lemma_parse_batch_r2_at(s, p, b, q1, q2, end);
}

} // verus!
