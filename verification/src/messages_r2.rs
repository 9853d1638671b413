//! The R2 message set, selected only by its own message numbers, and the R2
//! capture integrity summary.

use vstd::prelude::*;

use crate::batch_r2::{
    batch_r2_encodable, batch_steps_recoverable, lemma_batch_r2_roundtrip, lemma_table_r2_roundtrip, decode_stream_sample_batch_r2, decode_stream_table_r2, enc_batch_r2,
    enc_capture_data_r2, enc_table_r2, encode_capture_data_r2_payload,
    encode_stream_sample_batch_r2, encode_stream_table_r2, parse_batch_r2, parse_table_r2,
    CaptureDataR2, CaptureDataR2V, StreamSampleBatchR2, StreamSampleBatchR2V,
};
use crate::codec::{sort_by_key, stable_sort_positions};
use crate::messages_v2::whole;
use crate::protocol::{spec_crc32c, Crc32c, Frame, ProtocolError, MAX_PAYLOAD_LEN, PROTOCOL_VERSION_V2};
use crate::protocol_v2::MAX_CAPTURE_PAYLOAD_BYTES;
use crate::protocol_v2_r2::{
    configure_streams_shape_ok, decode_configure_streams, enc_configure_streams,
    encode_configure_streams, lemma_configure_streams_roundtrip, parse_configure_streams, stream_table_r2_valid, ConfigureStreamsR2,
    ConfigureStreamsR2V, StreamTableR2, StreamTableR2V, MSG_CAPTURE_DATA_R2,
    MSG_CONFIGURE_STREAMS_R2, MSG_SAMPLE_BATCH_V2_R2, MSG_STREAM_TABLE_R2,
};
use crate::reader::PayloadReader;
use crate::wire::{from_le32, le32, lemma_le32_roundtrip, put_u32};

verus! {

#[derive(Clone, Debug, PartialEq, Eq)]
pub enum MessageV2R2 {
    StreamTable(StreamTableR2),
    ConfigureStreams(ConfigureStreamsR2),
    StreamSampleBatch(StreamSampleBatchR2),
    CaptureData(CaptureDataR2),
}

pub enum MessageV2R2V {
    StreamTable(StreamTableR2V),
    ConfigureStreams(ConfigureStreamsR2V),
    StreamSampleBatch(StreamSampleBatchR2V),
    CaptureData(CaptureDataR2V),
}

impl View for MessageV2R2 {
    type V = MessageV2R2V;

    open spec fn view(&self) -> MessageV2R2V {
        match self {
            MessageV2R2::StreamTable(t) => MessageV2R2V::StreamTable(t@),
            MessageV2R2::ConfigureStreams(c) => MessageV2R2V::ConfigureStreams(c@),
            MessageV2R2::StreamSampleBatch(b) => MessageV2R2V::StreamSampleBatch(b@),
            MessageV2R2::CaptureData(d) => MessageV2R2V::CaptureData(d@),
        }
    }
}

pub open spec fn spec_message_type_r2(m: MessageV2R2V) -> u8 {
    match m {
        MessageV2R2V::StreamTable(_) => MSG_STREAM_TABLE_R2,
        MessageV2R2V::ConfigureStreams(_) => MSG_CONFIGURE_STREAMS_R2,
        MessageV2R2V::StreamSampleBatch(_) => MSG_SAMPLE_BATCH_V2_R2,
        MessageV2R2V::CaptureData(_) => MSG_CAPTURE_DATA_R2,
    }
}

/// What the encoder checks before it writes an R2 message.
pub open spec fn message_r2_encodable(m: MessageV2R2V) -> bool {
    match m {
        MessageV2R2V::StreamTable(t) => stream_table_r2_valid(t),
        MessageV2R2V::ConfigureStreams(c) => configure_streams_shape_ok(c),
        MessageV2R2V::StreamSampleBatch(b) => batch_r2_encodable(b),
        MessageV2R2V::CaptureData(d) => batch_r2_encodable(d.batch),
    }
}

pub open spec fn enc_message_r2(m: MessageV2R2V) -> Seq<u8> {
    match m {
        MessageV2R2V::StreamTable(t) => enc_table_r2(t),
        MessageV2R2V::ConfigureStreams(c) => enc_configure_streams(c),
        MessageV2R2V::StreamSampleBatch(b) => enc_batch_r2(b),
        MessageV2R2V::CaptureData(d) => enc_capture_data_r2(d),
    }
}

pub open spec fn known_message_type_r2(t: u8) -> bool {
    t == MSG_STREAM_TABLE_R2 || t == MSG_CONFIGURE_STREAMS_R2 || t == MSG_SAMPLE_BATCH_V2_R2 || t
        == MSG_CAPTURE_DATA_R2
}

/// The R2 message a payload of type `t` decodes to, if any.
pub open spec fn parse_message_r2(t: u8, s: Seq<u8>) -> Option<MessageV2R2V> {
    if t == MSG_STREAM_TABLE_R2 {
        match whole(parse_table_r2(s, 0), s) {
            Some(x) => Some(MessageV2R2V::StreamTable(x)),
            None => None,
        }
    } else if t == MSG_CONFIGURE_STREAMS_R2 {
        match whole(parse_configure_streams(s, 0), s) {
            Some(x) => Some(MessageV2R2V::ConfigureStreams(x)),
            None => None,
        }
    } else if t == MSG_SAMPLE_BATCH_V2_R2 {
        match whole(parse_batch_r2(s, 0), s) {
            Some(x) => Some(MessageV2R2V::StreamSampleBatch(x)),
            None => None,
        }
    } else if t == MSG_CAPTURE_DATA_R2 {
        if s.len() < 8 {
            None
        } else {
            match whole(parse_batch_r2(s, 8), s) {
                Some(x) => Some(
                    MessageV2R2V::CaptureData(
                        CaptureDataR2V {
                            capture_id: from_le32(s.subrange(0, 4)),
                            block_index: from_le32(s.subrange(4, 8)),
                            batch: x,
                        },
                    ),
                ),
                None => None,
            }
        }
    } else {
        None
    }
}

/// What the decoder needs beyond the encoder's checks: a batch in the
/// explicit metadata form must have the steps of its first two rows.
pub open spec fn message_r2_decodable(m: MessageV2R2V) -> bool {
    &&& message_r2_encodable(m)
    &&& match m {
        MessageV2R2V::StreamSampleBatch(b) => batch_steps_recoverable(b),
        MessageV2R2V::CaptureData(d) => batch_steps_recoverable(d.batch),
        _ => true,
    }
}

proof fn lemma_roundtrip_capture_data_r2(d: CaptureDataR2V)
    requires
        batch_r2_encodable(d.batch),
        batch_steps_recoverable(d.batch),
    ensures
        parse_message_r2(MSG_CAPTURE_DATA_R2, enc_capture_data_r2(d)) == Some(MessageV2R2V::CaptureData(d)),
{
    let s = enc_capture_data_r2(d);
    let eb = enc_batch_r2(d.batch);
    lemma_le32_roundtrip(d.capture_id);
    lemma_le32_roundtrip(d.block_index);
    assert(s.subrange(0, 4) =~= le32(d.capture_id));
    assert(s.subrange(4, 8) =~= le32(d.block_index));
    assert(s.subrange(8, 8 + eb.len() as int) =~= eb);
    lemma_batch_r2_roundtrip(s, 8, d.batch);
}

/// Law: every R2 message that passes the encoder's checks, and whose steps
/// the metadata carries, decodes from its own payload, under its own
/// message type, to itself.
pub proof fn lemma_message_r2_roundtrip(m: MessageV2R2V)
    requires
        message_r2_decodable(m),
    ensures
        parse_message_r2(spec_message_type_r2(m), enc_message_r2(m)) == Some(m),
{
    let s = enc_message_r2(m);
    assert(s.subrange(0, s.len() as int) =~= s);
    match m {
        MessageV2R2V::StreamTable(t) => lemma_table_r2_roundtrip(s, 0, t),
        MessageV2R2V::ConfigureStreams(c) => lemma_configure_streams_roundtrip(s, 0, c),
        MessageV2R2V::StreamSampleBatch(b) => lemma_batch_r2_roundtrip(s, 0, b),
        MessageV2R2V::CaptureData(d) => lemma_roundtrip_capture_data_r2(d),
    }
}

impl MessageV2R2 {
    pub fn message_type(&self) -> (r: u8)
        ensures
            r == spec_message_type_r2(self@),
    {
        match self {
            MessageV2R2::StreamTable(_) => MSG_STREAM_TABLE_R2,
            MessageV2R2::ConfigureStreams(_) => MSG_CONFIGURE_STREAMS_R2,
            MessageV2R2::StreamSampleBatch(_) => MSG_SAMPLE_BATCH_V2_R2,
            MessageV2R2::CaptureData(_) => MSG_CAPTURE_DATA_R2,
        }
    }

    /// Encodes the payload.  Fails when the message does not pass its own
    /// checks, or when its encoding exceeds the frame payload limit.
    pub fn encode_payload(&self) -> (r: Result<Vec<u8>, ProtocolError>)
        ensures
            match r {
                Ok(b) => message_r2_encodable(self@) && b@ == enc_message_r2(self@) && b@.len()
                    <= MAX_PAYLOAD_LEN,
                Err(e) => !message_r2_encodable(self@) || (enc_message_r2(self@).len() > MAX_PAYLOAD_LEN
                    && e == ProtocolError::PayloadTooLarge(enc_message_r2(self@).len() as usize)),
            },
    {
        let bytes = match self {
            MessageV2R2::StreamTable(table) => {
                let mut bytes: Vec<u8> = Vec::new();
                encode_stream_table_r2(table, &mut bytes)?;
                bytes
            },
            MessageV2R2::ConfigureStreams(configure) => {
                let mut bytes: Vec<u8> = Vec::new();
                encode_configure_streams(configure, &mut bytes)?;
                bytes
            },
            MessageV2R2::StreamSampleBatch(batch) => {
                let mut bytes: Vec<u8> = Vec::new();
                encode_stream_sample_batch_r2(batch, &mut bytes)?;
                bytes
            },
            MessageV2R2::CaptureData(data) => encode_capture_data_r2_payload(data)?,
        };
        assert(bytes@ =~= enc_message_r2(self@));
        if bytes.len() > MAX_PAYLOAD_LEN {
            return Err(ProtocolError::PayloadTooLarge(bytes.len()));
        }
        Ok(bytes)
    }

    /// Decodes a payload of an R2 message type; the whole payload must be
    /// consumed.  Message numbers of other revisions are unknown here.
    pub fn decode(message_type: u8, payload: &[u8]) -> (r: Result<MessageV2R2, ProtocolError>)
        ensures
            payload@.len() > MAX_PAYLOAD_LEN ==> r == Err::<MessageV2R2, ProtocolError>(
                ProtocolError::PayloadTooLarge(payload@.len() as usize),
            ),
            payload@.len() <= MAX_PAYLOAD_LEN && !known_message_type_r2(message_type) ==> r == Err::<
                MessageV2R2,
                ProtocolError,
            >(ProtocolError::UnknownMessageType(message_type)),
            payload@.len() <= MAX_PAYLOAD_LEN && known_message_type_r2(message_type) ==> match parse_message_r2(
                message_type,
                payload@,
            ) {
                Some(m) => r matches Ok(x) && x@ == m,
                None => r is Err,
            },
    {
        if payload.len() > MAX_PAYLOAD_LEN {
            return Err(ProtocolError::PayloadTooLarge(payload.len()));
        }
        let mut reader = PayloadReader::new(payload);
        let message = match message_type {
            MSG_STREAM_TABLE_R2 => MessageV2R2::StreamTable(decode_stream_table_r2(&mut reader)?),
            MSG_CONFIGURE_STREAMS_R2 => MessageV2R2::ConfigureStreams(
                decode_configure_streams(&mut reader)?,
            ),
            MSG_SAMPLE_BATCH_V2_R2 => MessageV2R2::StreamSampleBatch(
                decode_stream_sample_batch_r2(&mut reader)?,
            ),
            MSG_CAPTURE_DATA_R2 => {
                let capture_id = reader.u32()?;
                let block_index = reader.u32()?;
                let batch = decode_stream_sample_batch_r2(&mut reader)?;
                MessageV2R2::CaptureData(CaptureDataR2 { capture_id, block_index, batch })
            },
            other => {
                return Err(ProtocolError::UnknownMessageType(other));
            },
        };
        reader.finish()?;
        Ok(message)
    }

    /// Encodes the message into a version-2 frame.
    pub fn into_frame(self, flags: u16, sequence: u32, session_id: u32, timestamp_ticks: u64) -> (r:
        Result<Frame, ProtocolError>)
        ensures
            match r {
                Ok(f) => message_r2_encodable(self@) && enc_message_r2(self@).len() <= MAX_PAYLOAD_LEN
                    && f.version == PROTOCOL_VERSION_V2 && f.message_type == spec_message_type_r2(self@)
                    && f.flags == flags && f.sequence == sequence && f.session_id == session_id
                    && f.timestamp_ticks == timestamp_ticks && f.payload@ == enc_message_r2(self@),
                Err(_) => !message_r2_encodable(self@) || enc_message_r2(self@).len() > MAX_PAYLOAD_LEN,
            },
    {
        let message_type = self.message_type();
        let payload = self.encode_payload()?;
        Ok(Frame::new_v2(message_type, flags, sequence, session_id, timestamp_ticks, payload))
    }
}

// ---------------------------------------------------------------------------
// R2 capture integrity summary
// ---------------------------------------------------------------------------

/// Concatenated CAPTURE_DATA_R2 payloads, first block first.
pub open spec fn enc_blocks_r2(blocks: Seq<CaptureDataR2V>) -> Seq<u8>
    decreases blocks.len(),
{
    if blocks.len() == 0 {
        Seq::empty()
    } else {
        enc_blocks_r2(blocks.drop_last()) + enc_capture_data_r2(blocks.last())
    }
}

pub open spec fn data_r2_views(blocks: Seq<CaptureDataR2>) -> Seq<CaptureDataR2V> {
    blocks.map_values(|b: CaptureDataR2| b@)
}

pub open spec fn sort_r2_by_index(blocks: Seq<CaptureDataR2V>) -> Seq<CaptureDataR2V> {
    sort_by_key(blocks, |d: CaptureDataR2V| d.block_index)
}

/// Every block encodes as a CAPTURE_DATA_R2 payload within the frame limit.
pub open spec fn blocks_r2_encodable(blocks: Seq<CaptureDataR2V>) -> bool {
    forall|i: int|
        0 <= i < blocks.len() ==> batch_r2_encodable((#[trigger] blocks[i]).batch)
            && enc_capture_data_r2(blocks[i]).len() <= MAX_PAYLOAD_LEN
}

/// The bytes the R2 summary is the CRC32C of.
pub open spec fn summary_input_r2(capture_id: u32, blocks: Seq<CaptureDataR2V>) -> Seq<u8> {
    le32(capture_id) + enc_blocks_r2(sort_r2_by_index(blocks))
}

proof fn lemma_enc_blocks_r2_prefix(blocks: Seq<CaptureDataR2V>, k: int)
    requires
        0 <= k <= blocks.len(),
    ensures
        enc_blocks_r2(blocks.take(k)).len() <= enc_blocks_r2(blocks).len(),
    decreases blocks.len(),
{
    if k < blocks.len() {
        lemma_enc_blocks_r2_prefix(blocks.drop_last(), k);
        assert(blocks.drop_last().take(k) =~= blocks.take(k));
    } else {
        assert(blocks.take(k) =~= blocks);
    }
}

fn sort_block_positions_r2(blocks: &[CaptureDataR2]) -> (order: Vec<usize>)
    ensures
        order@.len() == blocks@.len(),
        forall|i: int| 0 <= i < order@.len() ==> (#[trigger] order@[i]) < blocks@.len(),
        order@.map_values(|i: usize| data_r2_views(blocks@)[i as int]) == sort_r2_by_index(
            data_r2_views(blocks@),
        ),
{
    let ghost views = data_r2_views(blocks@);
    let mut keys: Vec<u32> = Vec::new();
    let mut i: usize = 0;
    while i < blocks.len()
        invariant
            i <= blocks@.len(),
            views == data_r2_views(blocks@),
            keys@.len() == i,
            forall|a: int| 0 <= a < i ==> keys@[a] == (#[trigger] views[a]).block_index,
        decreases blocks.len() - i,
    {
        keys.push(blocks[i].block_index);
        i = i + 1;
    }
    stable_sort_positions::<CaptureDataR2V>(&keys, Ghost(views), Ghost(|d: CaptureDataR2V| d.block_index))
}

/// Computes the R2 CAPTURE_END integrity summary incrementally: the CRC32C
/// of the little-endian capture id followed by the CAPTURE_DATA_R2 payloads
/// in ascending block-index order.  Fails when a block does not encode, or
/// when the summarised bytes would exceed the capture payload limit.
#[verifier::rlimit(40)]
#[verifier::spinoff_prover]
pub fn capture_integrity_summary_r2(capture_id: u32, blocks: &[CaptureDataR2]) -> (r: Result<u32, ProtocolError>)
    ensures
        r is Ok <==> blocks_r2_encodable(sort_r2_by_index(data_r2_views(blocks@))) && summary_input_r2(
            capture_id,
            data_r2_views(blocks@),
        ).len() <= MAX_CAPTURE_PAYLOAD_BYTES,
        r matches Ok(c) ==> c == spec_crc32c(summary_input_r2(capture_id, data_r2_views(blocks@))),
{
    let ghost views = data_r2_views(blocks@);
    let order = sort_block_positions_r2(blocks);
    let ghost sorted = sort_r2_by_index(views);
    let mut crc = Crc32c::new();
    let mut id_bytes: Vec<u8> = Vec::new();
    put_u32(&mut id_bytes, capture_id);
    assert(id_bytes@ =~= le32(capture_id));
    crc.update(id_bytes.as_slice());
    let mut total: usize = 4;
    let mut n: usize = 0;
    while n < order.len()
        invariant
            n <= order@.len(),
            order@.len() == blocks@.len(),
            views == data_r2_views(blocks@),
            sorted == sort_r2_by_index(views),
            order@.map_values(|i: usize| views[i as int]) == sorted,
            forall|i: int| 0 <= i < order@.len() ==> (#[trigger] order@[i]) < blocks@.len(),
            crc.wf(),
            crc@ == le32(capture_id) + enc_blocks_r2(sorted.take(n as int)),
            total == crc@.len(),
            total <= MAX_CAPTURE_PAYLOAD_BYTES,
            forall|i: int|
                0 <= i < n ==> batch_r2_encodable((#[trigger] sorted[i]).batch) && enc_capture_data_r2(
                    sorted[i],
                ).len() <= MAX_PAYLOAD_LEN,
        decreases order.len() - n,
    {
        let block = &blocks[order[n]];
        assert(block@ == sorted[n as int]);
        let payload = encode_capture_data_r2_payload(block)?;
        if payload.len() > MAX_PAYLOAD_LEN {
            return Err(ProtocolError::PayloadTooLarge(payload.len()));
        }
        proof {
            assert(sorted.take(n + 1).drop_last() =~= sorted.take(n as int));
            lemma_enc_blocks_r2_prefix(sorted, n + 1);
        }
        if total + payload.len() > MAX_CAPTURE_PAYLOAD_BYTES {
            return Err(ProtocolError::PayloadTooLarge(total + payload.len()));
        }
        crc.update(payload.as_slice());
        total = total + payload.len();
        assert(crc@ =~= le32(capture_id) + enc_blocks_r2(sorted.take(n + 1)));
        n = n + 1;
    }
    assert(sorted.take(sorted.len() as int) =~= sorted);
    Ok(crc.finalize())
}


/// The lengths of one batch agree: its message payload is exactly its
/// encoding, and as capture data it is eight bytes longer (capture id and
/// block index first).
pub proof fn lemma_r2_lengths_agree(b: crate::batch_r2::StreamSampleBatchR2V, capture_id: u32, block_index: u32)
    ensures
        enc_message_r2(MessageV2R2V::StreamSampleBatch(b)) == crate::batch_r2::enc_batch_r2(b),
        message_r2_encodable(MessageV2R2V::StreamSampleBatch(b)) == crate::batch_r2::batch_r2_encodable(b),
        crate::batch_r2::enc_capture_data_r2(crate::batch_r2::CaptureDataR2V { capture_id, block_index, batch: b }).len()
            == crate::batch_r2::enc_batch_r2(b).len() + 8,
{
}

} // verus!
