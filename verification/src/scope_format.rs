//! The record layer of `.scope` recordings.
//!
//! After its header and metadata, a recording is a sequence of records:
//! `REC1`, a 16-byte header (type, flags, reserved, payload length and
//! timestamp), the payload, and the CRC32C of header and payload. Gap,
//! trigger and index records have fixed little-endian layouts.

use vstd::prelude::*;

use crate::capture_history::decimal;
use crate::protocol::{
    channel_table_valid, crc32c, lemma_lookup_channel, lookup_channel, spec_crc32c, ChannelDescriptor,
    ChannelTable, ProtocolError,
};
use crate::protocol_v2::{has_bit, lemma_test_bit};
use crate::trigger::{TriggerCapture, TriggerConfig, TriggerEdge, TriggerMode};
use crate::wire::{
    from_le16, from_le32, from_le64, get_u16, get_u32, get_u64, le16, le32, le64, lemma_le16_canonical,
    lemma_le16_roundtrip, lemma_le32_canonical, lemma_le32_roundtrip, lemma_le64_canonical,
    lemma_le64_roundtrip, put_bytes, put_u16, put_u32, put_u64,
};

verus! {

pub const RECORD_HEADER_LEN: u64 = 20;

pub const MAX_RECORD_PAYLOAD: usize = 16 * 1024 * 1024;

pub const RECORD_SAMPLE_FRAME: u8 = 1;

pub const RECORD_GAP: u8 = 2;

pub const RECORD_TRIGGER: u8 = 3;

pub const RECORD_SESSION_END: u8 = 4;

pub const RECORD_INDEX: u8 = 5;

pub const TRIGGER_RECORD_VERSION: u8 = 1;

pub const TRIGGER_RECORD_LEN: usize = 48;

pub const GAP_RECORD_LEN: usize = 17;

/// Why sample rows are missing.
#[derive(Clone, Copy, Debug, PartialEq, Eq, Structural)]
pub enum GapReason {
    SequenceLoss,
    SampleIndexLoss,
    HostBackpressure,
    DeviceReported,
}

/// A run of sample indices that never arrived.
#[derive(Clone, Copy, Debug, PartialEq, Eq, Structural)]
pub struct LiveGap {
    pub start_sample_index: u64,
    pub missing_samples: u64,
    pub reason: GapReason,
}

/// Where a sample-frame record's frame is, and what it holds.
#[derive(Clone, Copy, Debug, PartialEq, Eq, Structural)]
pub struct SampleRecordIndex {
    pub payload_offset: u64,
    pub payload_len: u32,
    pub first_sample_index: u64,
    pub timestamp_ticks: u64,
    pub sample_period_ticks: u32,
    pub sample_count: u16,
}

/// One entry of an index record.
#[derive(Clone, Copy, Debug, PartialEq, Eq, Structural)]
pub struct StoredIndexEntry {
    pub first_sample_index: u64,
    pub timestamp_ticks: u64,
    pub payload_offset: u64,
}

/// A trigger firing stored in a recording.
#[derive(Clone, Copy, Debug, PartialEq, Eq, Structural)]
pub struct TriggerRecord {
    pub timestamp_ticks: u64,
    pub trigger_sample_index: u64,
    pub config: TriggerConfig,
    pub auto_timeout: bool,
}

/// Why record bytes are not a valid recording.
#[derive(Clone, Copy, Debug, PartialEq, Eq, Structural)]
pub enum RecordingFormatError {
    RecordTooLarge(usize),
    InvalidRecordMagic(u64),
    UnsupportedRecordFlags(u64),
    RecordPayloadTooLarge(u64),
    RecordCrcMismatch(u64),
    GapRecordLength,
    ZeroMissingSamples,
    UnknownGapReason(u8),
    InvalidTriggerRecord,
    UnknownTriggerMode(u8),
    UnknownTriggerEdge(u8),
    PreSamplesTooLarge,
    PostSamplesTooLarge,
    AutoTimeoutTooLarge,
    AutoTimeoutRecordOutsideAutoMode,
    TriggerPositionOutOfRange,
    TriggerTimestampOutOfRange,
    TriggerSourceAbsent,
    AutoTimeoutCaptureOutsideAutoMode,
    IndexLengthOverflow,
    IndexCountTooLarge,
    TruncatedIndex,
    IndexRecordLengthMismatch,
    IndexCountMismatch,
    IndexEntryMismatch,
    TimestampOffsetOverflow,
    TimestampOverflow,
    DuplicateIndexRecord,
    InvalidSessionEnd,
    MissingIndexRecord,
    TruncatedFileHeader,
    InvalidFileMagic,
    UnsupportedFileHeader,
    MetadataTooLarge(usize),
}

/// Formats `prefix`, `n` in decimal, then `suffix`.
///
/// Trusted: `std`'s `format!` writes the three parts one after the other.
#[verifier::external_body]
pub(crate) fn numbered_message(prefix: &str, n: u64, suffix: &str) -> (s: String)
    ensures
        s@ == prefix@ + decimal(n as nat) + suffix@,
{
    format!("{}{}{}", prefix, n, suffix)
}

/// The words `message` gives for each refusal.
pub open spec fn recording_format_error_text(e: RecordingFormatError) -> Seq<char> {
    match e {
        RecordingFormatError::RecordTooLarge(n) => "record payload length "@ + decimal((n as u64) as nat) + " exceeds 16777216"@,
        RecordingFormatError::InvalidRecordMagic(o) => "invalid record magic at offset "@ + decimal((o) as nat) + ""@,
        RecordingFormatError::UnsupportedRecordFlags(o) => "unsupported record flags at offset "@ + decimal((o) as nat) + ""@,
        RecordingFormatError::RecordPayloadTooLarge(o) => "record payload at offset "@ + decimal((o) as nat) + " exceeds 16777216"@,
        RecordingFormatError::RecordCrcMismatch(o) => "record CRC mismatch at offset "@ + decimal((o) as nat) + ""@,
        RecordingFormatError::GapRecordLength => "gap record length mismatch"@,
        RecordingFormatError::ZeroMissingSamples => "gap record has zero missing samples"@,
        RecordingFormatError::UnknownGapReason(v) => "unknown gap reason "@ + decimal((v as u64) as nat) + ""@,
        RecordingFormatError::InvalidTriggerRecord => "invalid trigger record"@,
        RecordingFormatError::UnknownTriggerMode(v) => "unknown trigger mode "@ + decimal((v as u64) as nat) + ""@,
        RecordingFormatError::UnknownTriggerEdge(v) => "unknown trigger edge "@ + decimal((v as u64) as nat) + ""@,
        RecordingFormatError::PreSamplesTooLarge => "trigger pre_samples does not fit usize"@,
        RecordingFormatError::PostSamplesTooLarge => "trigger post_samples does not fit usize"@,
        RecordingFormatError::AutoTimeoutTooLarge => "trigger auto timeout does not fit usize"@,
        RecordingFormatError::AutoTimeoutRecordOutsideAutoMode => "non-Auto trigger record is marked as an auto timeout"@,
        RecordingFormatError::TriggerPositionOutOfRange => "trigger capture position is out of range"@,
        RecordingFormatError::TriggerTimestampOutOfRange => "trigger timestamp is out of range"@,
        RecordingFormatError::TriggerSourceAbsent => "trigger source channel is absent from capture"@,
        RecordingFormatError::AutoTimeoutCaptureOutsideAutoMode => "non-Auto trigger capture is marked as an auto timeout"@,
        RecordingFormatError::IndexLengthOverflow => "index length overflow"@,
        RecordingFormatError::IndexCountTooLarge => "index entry count does not fit u32"@,
        RecordingFormatError::TruncatedIndex => "truncated index record"@,
        RecordingFormatError::IndexRecordLengthMismatch => "index record length mismatch"@,
        RecordingFormatError::IndexCountMismatch => "index entry count does not match sample records"@,
        RecordingFormatError::IndexEntryMismatch => "index entry does not match sample record"@,
        RecordingFormatError::TimestampOffsetOverflow => "record timestamp offset overflow"@,
        RecordingFormatError::TimestampOverflow => "record timestamp overflow"@,
        RecordingFormatError::DuplicateIndexRecord => "duplicate index record"@,
        RecordingFormatError::InvalidSessionEnd => "invalid SessionEnd record"@,
        RecordingFormatError::MissingIndexRecord => "SessionEnd is missing index record"@,
        RecordingFormatError::TruncatedFileHeader => "truncated .scope file header"@,
        RecordingFormatError::InvalidFileMagic => "invalid .scope file magic"@,
        RecordingFormatError::UnsupportedFileHeader => "unsupported .scope file header"@,
        RecordingFormatError::MetadataTooLarge(n) => "metadata length "@ + decimal((n as u64) as nat) + " exceeds 1048576"@,
    }
}

impl RecordingFormatError {
    /// The refusal in words.
    pub fn message(&self) -> (r: String)
        ensures
            r@ == recording_format_error_text(*self),
    {
        match self {
            RecordingFormatError::RecordTooLarge(n) => numbered_message(
                "record payload length ",
                *n as u64,
                " exceeds 16777216",
            ),
            RecordingFormatError::InvalidRecordMagic(o) => numbered_message("invalid record magic at offset ", *o, ""),
            RecordingFormatError::UnsupportedRecordFlags(o) => numbered_message(
                "unsupported record flags at offset ",
                *o,
                "",
            ),
            RecordingFormatError::RecordPayloadTooLarge(o) => numbered_message(
                "record payload at offset ",
                *o,
                " exceeds 16777216",
            ),
            RecordingFormatError::RecordCrcMismatch(o) => numbered_message("record CRC mismatch at offset ", *o, ""),
            RecordingFormatError::GapRecordLength => "gap record length mismatch".to_string(),
            RecordingFormatError::ZeroMissingSamples => "gap record has zero missing samples".to_string(),
            RecordingFormatError::UnknownGapReason(v) => numbered_message("unknown gap reason ", *v as u64, ""),
            RecordingFormatError::InvalidTriggerRecord => "invalid trigger record".to_string(),
            RecordingFormatError::UnknownTriggerMode(v) => numbered_message("unknown trigger mode ", *v as u64, ""),
            RecordingFormatError::UnknownTriggerEdge(v) => numbered_message("unknown trigger edge ", *v as u64, ""),
            RecordingFormatError::PreSamplesTooLarge => "trigger pre_samples does not fit usize".to_string(),
            RecordingFormatError::PostSamplesTooLarge => "trigger post_samples does not fit usize".to_string(),
            RecordingFormatError::AutoTimeoutTooLarge => "trigger auto timeout does not fit usize".to_string(),
            RecordingFormatError::AutoTimeoutRecordOutsideAutoMode => "non-Auto trigger record is marked as an auto timeout".to_string(),
            RecordingFormatError::TriggerPositionOutOfRange => "trigger capture position is out of range".to_string(),
            RecordingFormatError::TriggerTimestampOutOfRange => "trigger timestamp is out of range".to_string(),
            RecordingFormatError::TriggerSourceAbsent => "trigger source channel is absent from capture".to_string(),
            RecordingFormatError::AutoTimeoutCaptureOutsideAutoMode => "non-Auto trigger capture is marked as an auto timeout".to_string(),
            RecordingFormatError::IndexLengthOverflow => "index length overflow".to_string(),
            RecordingFormatError::IndexCountTooLarge => "index entry count does not fit u32".to_string(),
            RecordingFormatError::TruncatedIndex => "truncated index record".to_string(),
            RecordingFormatError::IndexRecordLengthMismatch => "index record length mismatch".to_string(),
            RecordingFormatError::IndexCountMismatch => "index entry count does not match sample records".to_string(),
            RecordingFormatError::IndexEntryMismatch => "index entry does not match sample record".to_string(),
            RecordingFormatError::TimestampOffsetOverflow => "record timestamp offset overflow".to_string(),
            RecordingFormatError::TimestampOverflow => "record timestamp overflow".to_string(),
            RecordingFormatError::DuplicateIndexRecord => "duplicate index record".to_string(),
            RecordingFormatError::InvalidSessionEnd => "invalid SessionEnd record".to_string(),
            RecordingFormatError::MissingIndexRecord => "SessionEnd is missing index record".to_string(),
            RecordingFormatError::TruncatedFileHeader => "truncated .scope file header".to_string(),
            RecordingFormatError::InvalidFileMagic => "invalid .scope file magic".to_string(),
            RecordingFormatError::UnsupportedFileHeader => "unsupported .scope file header".to_string(),
            RecordingFormatError::MetadataTooLarge(n) => numbered_message(
                "metadata length ",
                *n as u64,
                " exceeds 1048576",
            ),
        }
    }
}

// ---------------------------------------------------------------------------
// Record framing
// ---------------------------------------------------------------------------

pub open spec fn record_magic() -> Seq<u8> {
    seq![0x52u8, 0x45u8, 0x43u8, 0x31u8]
}

/// Header and payload of a record, which its CRC covers.
pub open spec fn record_body(record_type: u8, timestamp: u64, payload: Seq<u8>) -> Seq<u8> {
    seq![record_type, 0u8] + le16(0) + le32(payload.len() as u32) + le64(timestamp) + payload
}

/// The bytes of a record.
pub open spec fn enc_record(record_type: u8, timestamp: u64, payload: Seq<u8>) -> Seq<u8> {
    let body = record_body(record_type, timestamp, payload);
    record_magic() + body + le32(spec_crc32c(body))
}

/// Frames a payload as a record; refused above the record payload limit.
pub fn encode_record(record_type: u8, timestamp_ticks: u64, payload: &[u8]) -> (r: Result<
    Vec<u8>,
    RecordingFormatError,
>)
    ensures
        payload@.len() > MAX_RECORD_PAYLOAD ==> r == Err::<Vec<u8>, RecordingFormatError>(
            RecordingFormatError::RecordTooLarge(payload@.len() as usize),
        ),
        payload@.len() <= MAX_RECORD_PAYLOAD ==> (r matches Ok(b) && b@ == enc_record(
            record_type,
            timestamp_ticks,
            payload@,
        )),
{
    if payload.len() > MAX_RECORD_PAYLOAD {
        return Err(RecordingFormatError::RecordTooLarge(payload.len()));
    }
    let mut body: Vec<u8> = Vec::new();
    body.push(record_type);
    body.push(0);
    put_u16(&mut body, 0);
    put_u32(&mut body, payload.len() as u32);
    put_u64(&mut body, timestamp_ticks);
    put_bytes(&mut body, payload);
    assert(body@ =~= record_body(record_type, timestamp_ticks, payload@));
    let checksum = crc32c(body.as_slice());
    let mut out: Vec<u8> = Vec::new();
    out.push(0x52);
    out.push(0x45);
    out.push(0x43);
    out.push(0x31);
    put_bytes(&mut out, body.as_slice());
    put_u32(&mut out, checksum);
    assert(out@ =~= enc_record(record_type, timestamp_ticks, payload@));
    Ok(out)
}

/// What reading a record at some offset found.
#[derive(Clone, Copy, Debug, PartialEq, Eq, Structural)]
pub enum RecordRead {
    /// No bytes are left.
    End,
    /// The bytes stop inside a record: a recording cut short.
    TruncatedTail,
    /// A whole record whose CRC holds; its payload lies at
    /// `payload_start..payload_start + payload_len`.
    Record { record_type: u8, timestamp_ticks: u64, payload_start: usize, payload_len: usize, next: usize },
}

/// Reading the record that starts at `offset` of `s`, as a recording reader
/// does: the end, a cut-short tail, a record, or why the bytes are refused.
pub open spec fn spec_read_record(s: Seq<u8>, offset: int) -> Result<RecordRead, RecordingFormatError> {
    let rest = s.len() - offset;
    if rest == 0 {
        Ok(RecordRead::End)
    } else if rest < 4 {
        Ok(RecordRead::TruncatedTail)
    } else if s.subrange(offset, offset + 4) != record_magic() {
        Err(RecordingFormatError::InvalidRecordMagic(offset as u64))
    } else if rest < 20 {
        Ok(RecordRead::TruncatedTail)
    } else {
        let h = offset + 4;
        let flags = s[h + 1];
        let reserved = from_le16(s.subrange(h + 2, h + 4));
        let len = from_le32(s.subrange(h + 4, h + 8));
        let timestamp = from_le64(s.subrange(h + 8, h + 16));
        if flags != 0 || reserved != 0 {
            Err(RecordingFormatError::UnsupportedRecordFlags(offset as u64))
        } else if len > MAX_RECORD_PAYLOAD {
            Err(RecordingFormatError::RecordPayloadTooLarge(offset as u64))
        } else if rest < 20 + len + 4 {
            Ok(RecordRead::TruncatedTail)
        } else if from_le32(s.subrange(h + 16 + len, h + 16 + len + 4)) != spec_crc32c(
            s.subrange(h, h + 16 + len),
        ) {
            Err(RecordingFormatError::RecordCrcMismatch(offset as u64))
        } else {
            Ok(
                RecordRead::Record {
                    record_type: s[h],
                    timestamp_ticks: timestamp,
                    payload_start: (h + 16) as usize,
                    payload_len: len as usize,
                    next: (h + 16 + len + 4) as usize,
                },
            )
        }
    }
}

fn is_record_magic(bytes: &[u8], offset: usize) -> (r: bool)
    requires
        offset + 4 <= bytes@.len(),
    ensures
        r == (bytes@.subrange(offset as int, offset + 4) == record_magic()),
{
    let r = bytes[offset] == 0x52 && bytes[offset + 1] == 0x45 && bytes[offset + 2] == 0x43 && bytes[offset
        + 3] == 0x31;
    proof {
        let w = bytes@.subrange(offset as int, offset + 4);
        if r {
            assert(w =~= record_magic());
        } else if w == record_magic() {
            assert(w[0] == bytes@[offset as int] && w[1] == bytes@[offset + 1]);
            assert(w[2] == bytes@[offset + 2] && w[3] == bytes@[offset + 3]);
        }
    }
    r
}

/// Reads the record that starts at `offset`.
pub fn read_record(bytes: &[u8], offset: usize) -> (r: Result<RecordRead, RecordingFormatError>)
    requires
        offset <= bytes@.len(),
    ensures
        r == spec_read_record(bytes@, offset as int),
{
    let rest = bytes.len() - offset;
    if rest == 0 {
        return Ok(RecordRead::End);
    }
    if rest < 4 {
        return Ok(RecordRead::TruncatedTail);
    }
    if !is_record_magic(bytes, offset) {
        return Err(RecordingFormatError::InvalidRecordMagic(offset as u64));
    }
    if rest < 20 {
        return Ok(RecordRead::TruncatedTail);
    }
    let h = offset + 4;
    let record_type = bytes[h];
    let flags = bytes[h + 1];
    let reserved = get_u16(bytes, h + 2);
    let len = get_u32(bytes, h + 4);
    let timestamp_ticks = get_u64(bytes, h + 8);
    proof {
        assert(bytes@.subrange(h + 2, h + 4) =~= bytes@.subrange(h + 2, h + 2 + 2));
    }
    if flags != 0 || reserved != 0 {
        return Err(RecordingFormatError::UnsupportedRecordFlags(offset as u64));
    }
    if len as usize > MAX_RECORD_PAYLOAD {
        return Err(RecordingFormatError::RecordPayloadTooLarge(offset as u64));
    }
    let len = len as usize;
    if rest < 20 + len + 4 {
        return Ok(RecordRead::TruncatedTail);
    }
    let checksum = get_u32(bytes, h + 16 + len);
    let body = crate::protocol::copy_range(bytes, h, h + 16 + len);
    if checksum != crc32c(body.as_slice()) {
        return Err(RecordingFormatError::RecordCrcMismatch(offset as u64));
    }
    Ok(RecordRead::Record { record_type, timestamp_ticks, payload_start: h + 16, payload_len: len, next: h + 16 + len + 4 })
}

/// A record that was written is read back whole, at the offset where it
/// was written, whatever precedes or follows it.
pub proof fn lemma_record_round_trip(
    prefix: Seq<u8>,
    record_type: u8,
    timestamp: u64,
    payload: Seq<u8>,
    suffix: Seq<u8>,
)
    requires
        payload.len() <= MAX_RECORD_PAYLOAD,
    ensures
        ({
            let s = prefix + enc_record(record_type, timestamp, payload) + suffix;
            spec_read_record(s, prefix.len() as int) == Ok::<RecordRead, RecordingFormatError>(
                RecordRead::Record {
                    record_type,
                    timestamp_ticks: timestamp,
                    payload_start: (prefix.len() + 20) as usize,
                    payload_len: payload.len() as usize,
                    next: (prefix.len() + 24 + payload.len()) as usize,
                },
            )
        }),
{
    let body = record_body(record_type, timestamp, payload);
    let s = prefix + enc_record(record_type, timestamp, payload) + suffix;
    let o = prefix.len() as int;
    let h = o + 4;
    let n = payload.len() as int;
    lemma_le16_roundtrip(0);
    lemma_le32_roundtrip(payload.len() as u32);
    lemma_le64_roundtrip(timestamp);
    lemma_le32_roundtrip(spec_crc32c(body));
    assert(s.subrange(o, o + 4) =~= record_magic());
    assert(s.subrange(h, h + 16 + n) =~= body);
    assert(s[h] == record_type);
    assert(s[h + 1] == 0);
    assert(s.subrange(h + 2, h + 4) =~= le16(0));
    assert(s.subrange(h + 4, h + 8) =~= le32(payload.len() as u32));
    assert(s.subrange(h + 8, h + 16) =~= le64(timestamp));
    assert(s.subrange(h + 16 + n, h + 16 + n + 4) =~= le32(spec_crc32c(body)));
}

// ---------------------------------------------------------------------------
// Gap records
// ---------------------------------------------------------------------------

pub open spec fn gap_reason_code(r: GapReason) -> u8 {
    match r {
        GapReason::SequenceLoss => 1,
        GapReason::SampleIndexLoss => 2,
        GapReason::HostBackpressure => 3,
        GapReason::DeviceReported => 4,
    }
}

pub open spec fn gap_reason_of(code: u8) -> Option<GapReason> {
    if code == 1 {
        Some(GapReason::SequenceLoss)
    } else if code == 2 {
        Some(GapReason::SampleIndexLoss)
    } else if code == 3 {
        Some(GapReason::HostBackpressure)
    } else if code == 4 {
        Some(GapReason::DeviceReported)
    } else {
        None
    }
}

/// The 17-byte payload of a gap record.
pub open spec fn enc_gap(g: LiveGap) -> Seq<u8> {
    le64(g.start_sample_index) + le64(g.missing_samples) + seq![gap_reason_code(g.reason)]
}

/// The gap a payload stands for, or why it stands for none.
pub open spec fn spec_decode_gap(s: Seq<u8>) -> Result<LiveGap, RecordingFormatError> {
    if s.len() != 17 {
        Err(RecordingFormatError::GapRecordLength)
    } else if from_le64(s.subrange(8, 16)) == 0 {
        Err(RecordingFormatError::ZeroMissingSamples)
    } else {
        match gap_reason_of(s[16]) {
            Some(reason) => Ok(
                LiveGap {
                    start_sample_index: from_le64(s.subrange(0, 8)),
                    missing_samples: from_le64(s.subrange(8, 16)),
                    reason,
                },
            ),
            None => Err(RecordingFormatError::UnknownGapReason(s[16])),
        }
    }
}

pub fn encode_gap(gap: LiveGap) -> (r: Vec<u8>)
    ensures
        r@ == enc_gap(gap),
{
    let mut out: Vec<u8> = Vec::new();
    put_u64(&mut out, gap.start_sample_index);
    put_u64(&mut out, gap.missing_samples);
    let code: u8 = match gap.reason {
        GapReason::SequenceLoss => 1,
        GapReason::SampleIndexLoss => 2,
        GapReason::HostBackpressure => 3,
        GapReason::DeviceReported => 4,
    };
    out.push(code);
    assert(out@ =~= enc_gap(gap));
    out
}

pub fn decode_gap(payload: &[u8]) -> (r: Result<LiveGap, RecordingFormatError>)
    ensures
        r == spec_decode_gap(payload@),
{
    if payload.len() != 17 {
        return Err(RecordingFormatError::GapRecordLength);
    }
    let start_sample_index = get_u64(payload, 0);
    let missing_samples = get_u64(payload, 8);
    if missing_samples == 0 {
        return Err(RecordingFormatError::ZeroMissingSamples);
    }
    let reason = match payload[16] {
        1 => GapReason::SequenceLoss,
        2 => GapReason::SampleIndexLoss,
        3 => GapReason::HostBackpressure,
        4 => GapReason::DeviceReported,
        value => return Err(RecordingFormatError::UnknownGapReason(value)),
    };
    Ok(LiveGap { start_sample_index, missing_samples, reason })
}

/// A gap with missing samples is read back from its payload, and a payload
/// that reads as a gap is that gap's payload.
pub proof fn lemma_gap_round_trip(g: LiveGap, s: Seq<u8>)
    ensures
        g.missing_samples != 0 ==> spec_decode_gap(enc_gap(g)) == Ok::<LiveGap, RecordingFormatError>(g),
        spec_decode_gap(s) == Ok::<LiveGap, RecordingFormatError>(g) ==> enc_gap(g) == s,
{
    let e = enc_gap(g);
    lemma_le64_roundtrip(g.start_sample_index);
    lemma_le64_roundtrip(g.missing_samples);
    assert(e.subrange(0, 8) =~= le64(g.start_sample_index));
    assert(e.subrange(8, 16) =~= le64(g.missing_samples));
    if spec_decode_gap(s) == Ok::<LiveGap, RecordingFormatError>(g) {
        lemma_le64_canonical(s.subrange(0, 8));
        lemma_le64_canonical(s.subrange(8, 16));
        assert(s =~= s.subrange(0, 8) + s.subrange(8, 16) + seq![s[16]]);
    }
}

// ---------------------------------------------------------------------------
// Trigger records
// ---------------------------------------------------------------------------

pub open spec fn trigger_mode_code(m: TriggerMode) -> u8 {
    match m {
        TriggerMode::Auto => 0,
        TriggerMode::Normal => 1,
        TriggerMode::Single => 2,
    }
}

pub open spec fn trigger_mode_of(code: u8) -> Option<TriggerMode> {
    if code == 0 {
        Some(TriggerMode::Auto)
    } else if code == 1 {
        Some(TriggerMode::Normal)
    } else if code == 2 {
        Some(TriggerMode::Single)
    } else {
        None
    }
}

pub open spec fn trigger_edge_code(e: TriggerEdge) -> u8 {
    match e {
        TriggerEdge::Rising => 0,
        TriggerEdge::Falling => 1,
        TriggerEdge::Either => 2,
    }
}

pub open spec fn trigger_edge_of(code: u8) -> Option<TriggerEdge> {
    if code == 0 {
        Some(TriggerEdge::Rising)
    } else if code == 1 {
        Some(TriggerEdge::Falling)
    } else if code == 2 {
        Some(TriggerEdge::Either)
    } else {
        None
    }
}

/// The 48-byte payload of a trigger record: version, mode, edge, the
/// auto-timeout flag, the source channel, two reserved bytes, the trigger
/// row, level and hysteresis bits, and the pre, post and timeout counts.
pub open spec fn enc_trigger(index: u64, c: TriggerConfig, auto_timeout: bool) -> Seq<u8> {
    seq![
        TRIGGER_RECORD_VERSION,
        trigger_mode_code(c.mode),
        trigger_edge_code(c.edge),
        if auto_timeout {
            1u8
        } else {
            0u8
        },
    ] + le16(c.source_channel) + le16(0) + le64(index) + le32(c.level_bits) + le32(c.hysteresis_bits) + le64(
        c.pre_samples as u64,
    ) + le64(c.post_samples as u64) + le64(c.auto_timeout_samples as u64)
}

/// The checks a capture passes before its trigger is recorded, and the
/// timestamp and payload of the record.
pub open spec fn spec_trigger_record_payload(
    c: crate::trigger::TriggerCaptureV,
    cfg: TriggerConfig,
) -> Result<(u64, Seq<u8>), RecordingFormatError> {
    if c.trigger_position >= c.sample_indices.len() {
        Err(RecordingFormatError::TriggerPositionOutOfRange)
    } else if c.trigger_position >= c.timestamps.len() {
        Err(RecordingFormatError::TriggerTimestampOutOfRange)
    } else if !c.channel_ids.contains(cfg.source_channel) {
        Err(RecordingFormatError::TriggerSourceAbsent)
    } else if c.auto_timeout && cfg.mode != TriggerMode::Auto {
        Err(RecordingFormatError::AutoTimeoutCaptureOutsideAutoMode)
    } else {
        Ok(
            (
                c.timestamps[c.trigger_position as int],
                enc_trigger(c.sample_indices[c.trigger_position as int], cfg, c.auto_timeout),
            ),
        )
    }
}

/// The timestamp and payload of the trigger record of a capture.
pub fn trigger_record_payload(capture: &TriggerCapture, config: &TriggerConfig) -> (r: Result<
    (u64, Vec<u8>),
    RecordingFormatError,
>)
    ensures
        match spec_trigger_record_payload(capture@, *config) {
            Ok(v) => r matches Ok(x) && x.0 == v.0 && x.1@ == v.1,
            Err(e) => r == Err::<(u64, Vec<u8>), RecordingFormatError>(e),
        },
{
    let p = capture.trigger_position;
    if p >= capture.sample_indices.len() {
        return Err(RecordingFormatError::TriggerPositionOutOfRange);
    }
    if p >= capture.timestamps.len() {
        return Err(RecordingFormatError::TriggerTimestampOutOfRange);
    }
    let trigger_index = capture.sample_indices[p];
    let timestamp = capture.timestamps[p];
    let mut found = false;
    let mut i: usize = 0;
    while i < capture.channel_ids.len()
        invariant
            0 <= i <= capture.channel_ids@.len(),
            found == exists|j: int| 0 <= j < i && capture.channel_ids@[j] == config.source_channel,
        decreases capture.channel_ids@.len() - i,
    {
        if capture.channel_ids[i] == config.source_channel {
            found = true;
        }
        i = i + 1;
    }
    if !found {
        return Err(RecordingFormatError::TriggerSourceAbsent);
    }
    if capture.auto_timeout && config.mode != TriggerMode::Auto {
        return Err(RecordingFormatError::AutoTimeoutCaptureOutsideAutoMode);
    }
    let mut out: Vec<u8> = Vec::new();
    out.push(TRIGGER_RECORD_VERSION);
    out.push(
        match config.mode {
            TriggerMode::Auto => 0u8,
            TriggerMode::Normal => 1u8,
            TriggerMode::Single => 2u8,
        },
    );
    out.push(
        match config.edge {
            TriggerEdge::Rising => 0u8,
            TriggerEdge::Falling => 1u8,
            TriggerEdge::Either => 2u8,
        },
    );
    out.push(if capture.auto_timeout {
        1u8
    } else {
        0u8
    });
    put_u16(&mut out, config.source_channel);
    put_u16(&mut out, 0);
    put_u64(&mut out, trigger_index);
    put_u32(&mut out, config.level_bits);
    put_u32(&mut out, config.hysteresis_bits);
    put_u64(&mut out, config.pre_samples as u64);
    put_u64(&mut out, config.post_samples as u64);
    put_u64(&mut out, config.auto_timeout_samples as u64);
    assert(out@ =~= enc_trigger(trigger_index, *config, capture.auto_timeout));
    Ok((timestamp, out))
}

/// The trigger a payload stands for, or why it stands for none.
pub open spec fn spec_decode_trigger(timestamp: u64, s: Seq<u8>) -> Result<TriggerRecord, RecordingFormatError> {
    if s.len() != 48 || s[0] != TRIGGER_RECORD_VERSION || s[3] > 1 || s[6] != 0 || s[7] != 0 {
        Err(RecordingFormatError::InvalidTriggerRecord)
    } else {
        match trigger_mode_of(s[1]) {
            None => Err(RecordingFormatError::UnknownTriggerMode(s[1])),
            Some(mode) => match trigger_edge_of(s[2]) {
                None => Err(RecordingFormatError::UnknownTriggerEdge(s[2])),
                Some(edge) => {
                    let pre = from_le64(s.subrange(24, 32));
                    let post = from_le64(s.subrange(32, 40));
                    let timeout = from_le64(s.subrange(40, 48));
                    if pre > usize::MAX {
                        Err(RecordingFormatError::PreSamplesTooLarge)
                    } else if post > usize::MAX {
                        Err(RecordingFormatError::PostSamplesTooLarge)
                    } else if timeout > usize::MAX {
                        Err(RecordingFormatError::AutoTimeoutTooLarge)
                    } else if s[3] != 0 && mode != TriggerMode::Auto {
                        Err(RecordingFormatError::AutoTimeoutRecordOutsideAutoMode)
                    } else {
                        Ok(
                            TriggerRecord {
                                timestamp_ticks: timestamp,
                                trigger_sample_index: from_le64(s.subrange(8, 16)),
                                config: TriggerConfig {
                                    mode,
                                    edge,
                                    source_channel: from_le16(s.subrange(4, 6)),
                                    level_bits: from_le32(s.subrange(16, 20)),
                                    hysteresis_bits: from_le32(s.subrange(20, 24)),
                                    pre_samples: pre as usize,
                                    post_samples: post as usize,
                                    auto_timeout_samples: timeout as usize,
                                },
                                auto_timeout: s[3] != 0,
                            },
                        )
                    }
                },
            },
        }
    }
}

pub fn decode_trigger_record(timestamp_ticks: u64, payload: &[u8]) -> (r: Result<TriggerRecord, RecordingFormatError>)
    ensures
        r == spec_decode_trigger(timestamp_ticks, payload@),
{
    if payload.len() != TRIGGER_RECORD_LEN || payload[0] != TRIGGER_RECORD_VERSION || payload[3] > 1
        || payload[6] != 0 || payload[7] != 0 {
        return Err(RecordingFormatError::InvalidTriggerRecord);
    }
    let mode = match payload[1] {
        0 => TriggerMode::Auto,
        1 => TriggerMode::Normal,
        2 => TriggerMode::Single,
        value => return Err(RecordingFormatError::UnknownTriggerMode(value)),
    };
    let edge = match payload[2] {
        0 => TriggerEdge::Rising,
        1 => TriggerEdge::Falling,
        2 => TriggerEdge::Either,
        value => return Err(RecordingFormatError::UnknownTriggerEdge(value)),
    };
    let pre = get_u64(payload, 24);
    let post = get_u64(payload, 32);
    let timeout = get_u64(payload, 40);
    if pre > usize::MAX as u64 {
        return Err(RecordingFormatError::PreSamplesTooLarge);
    }
    if post > usize::MAX as u64 {
        return Err(RecordingFormatError::PostSamplesTooLarge);
    }
    if timeout > usize::MAX as u64 {
        return Err(RecordingFormatError::AutoTimeoutTooLarge);
    }
    let auto_timeout = payload[3] != 0;
    if auto_timeout && mode != TriggerMode::Auto {
        return Err(RecordingFormatError::AutoTimeoutRecordOutsideAutoMode);
    }
    Ok(
        TriggerRecord {
            timestamp_ticks,
            trigger_sample_index: get_u64(payload, 8),
            config: TriggerConfig {
                mode,
                edge,
                source_channel: get_u16(payload, 4),
                level_bits: get_u32(payload, 16),
                hysteresis_bits: get_u32(payload, 20),
                pre_samples: pre as usize,
                post_samples: post as usize,
                auto_timeout_samples: timeout as usize,
            },
            auto_timeout,
        },
    )
}

/// A trigger record reads back as the trigger that was recorded, unless it
/// claims an auto timeout outside auto mode.
pub proof fn lemma_trigger_round_trip(timestamp: u64, index: u64, c: TriggerConfig, auto_timeout: bool)
    requires
        !(auto_timeout && c.mode != TriggerMode::Auto),
    ensures
        spec_decode_trigger(timestamp, enc_trigger(index, c, auto_timeout)) == Ok::<
            TriggerRecord,
            RecordingFormatError,
        >(TriggerRecord { timestamp_ticks: timestamp, trigger_sample_index: index, config: c, auto_timeout }),
{
    let e = enc_trigger(index, c, auto_timeout);
    lemma_le16_roundtrip(c.source_channel);
    lemma_le16_roundtrip(0);
    lemma_le64_roundtrip(index);
    lemma_le32_roundtrip(c.level_bits);
    lemma_le32_roundtrip(c.hysteresis_bits);
    lemma_le64_roundtrip(c.pre_samples as u64);
    lemma_le64_roundtrip(c.post_samples as u64);
    lemma_le64_roundtrip(c.auto_timeout_samples as u64);
    assert(e.subrange(4, 6) =~= le16(c.source_channel));
    assert(e.subrange(6, 8) =~= le16(0));
    assert(e[6] == le16(0)[0] && e[7] == le16(0)[1]);
    assert((0u16 & 0xff) as u8 == 0 && (0u16 >> 8u16) as u8 == 0) by (bit_vector);
    assert(e[6] == 0 && e[7] == 0);
    assert(e.len() == 48);
    assert(e[0] == TRIGGER_RECORD_VERSION && e[3] <= 1);
    assert(trigger_mode_of(e[1]) == Some(c.mode));
    assert(trigger_edge_of(e[2]) == Some(c.edge));
    assert((c.pre_samples as u64) as usize == c.pre_samples);
    assert((c.post_samples as u64) as usize == c.post_samples);
    assert((c.auto_timeout_samples as u64) as usize == c.auto_timeout_samples);
    assert(e.subrange(8, 16) =~= le64(index));
    assert(e.subrange(16, 20) =~= le32(c.level_bits));
    assert(e.subrange(20, 24) =~= le32(c.hysteresis_bits));
    assert(e.subrange(24, 32) =~= le64(c.pre_samples as u64));
    assert(e.subrange(32, 40) =~= le64(c.post_samples as u64));
    assert(e.subrange(40, 48) =~= le64(c.auto_timeout_samples as u64));
}

// ---------------------------------------------------------------------------
// Index records
// ---------------------------------------------------------------------------

/// What an index entry keeps of a sample record.
pub open spec fn stored_entry_of(r: SampleRecordIndex) -> StoredIndexEntry {
    StoredIndexEntry {
        first_sample_index: r.first_sample_index,
        timestamp_ticks: r.timestamp_ticks,
        payload_offset: r.payload_offset,
    }
}

pub open spec fn enc_entry(e: StoredIndexEntry) -> Seq<u8> {
    le64(e.first_sample_index) + le64(e.timestamp_ticks) + le64(e.payload_offset)
}

pub open spec fn enc_entries(s: Seq<SampleRecordIndex>) -> Seq<u8>
    decreases s.len(),
{
    if s.len() == 0 {
        Seq::empty()
    } else {
        enc_entries(s.drop_last()) + enc_entry(stored_entry_of(s.last()))
    }
}

/// The payload of the index record of these sample records: their count and,
/// for each, its first sample index, timestamp and payload offset.
pub open spec fn spec_encode_index(s: Seq<SampleRecordIndex>) -> Result<Seq<u8>, RecordingFormatError> {
    if s.len() * 24 + 4 > usize::MAX {
        Err(RecordingFormatError::IndexLengthOverflow)
    } else if s.len() > u32::MAX {
        Err(RecordingFormatError::IndexCountTooLarge)
    } else {
        Ok(le32(s.len() as u32) + enc_entries(s))
    }
}

proof fn lemma_enc_entries_len(s: Seq<SampleRecordIndex>)
    ensures
        enc_entries(s).len() == 24 * s.len(),
    decreases s.len(),
{
    if s.len() > 0 {
        lemma_enc_entries_len(s.drop_last());
        lemma_le64_roundtrip(s.last().first_sample_index);
        lemma_le64_roundtrip(s.last().timestamp_ticks);
        lemma_le64_roundtrip(s.last().payload_offset);
    }
}

pub fn encode_index(index: &[SampleRecordIndex]) -> (r: Result<Vec<u8>, RecordingFormatError>)
    ensures
        match spec_encode_index(index@) {
            Ok(b) => r matches Ok(x) && x@ == b,
            Err(e) => r == Err::<Vec<u8>, RecordingFormatError>(e),
        },
{
    let n = index.len();
    match n.checked_mul(24) {
        Some(x) => if x.checked_add(4).is_none() {
            return Err(RecordingFormatError::IndexLengthOverflow);
        },
        None => return Err(RecordingFormatError::IndexLengthOverflow),
    }
    if n > u32::MAX as usize {
        return Err(RecordingFormatError::IndexCountTooLarge);
    }
    let mut out: Vec<u8> = Vec::new();
    put_u32(&mut out, n as u32);
    let mut i: usize = 0;
    while i < n
        invariant
            n == index@.len(),
            0 <= i <= n,
            out@ == le32(n as u32) + enc_entries(index@.take(i as int)),
        decreases n - i,
    {
        let e = index[i];
        proof {
            assert(index@.take(i + 1).drop_last() =~= index@.take(i as int));
            assert(index@.take(i + 1).last() == e);
        }
        let ghost before = out@;
        put_u64(&mut out, e.first_sample_index);
        put_u64(&mut out, e.timestamp_ticks);
        put_u64(&mut out, e.payload_offset);
        assert(out@ =~= before + enc_entry(stored_entry_of(e)));
        i = i + 1;
    }
    assert(index@.take(n as int) =~= index@);
    Ok(out)
}

pub open spec fn entry_at(s: Seq<u8>, at: int) -> StoredIndexEntry {
    StoredIndexEntry {
        first_sample_index: from_le64(s.subrange(at, at + 8)),
        timestamp_ticks: from_le64(s.subrange(at + 8, at + 16)),
        payload_offset: from_le64(s.subrange(at + 16, at + 24)),
    }
}

/// The entries of an index payload, or why it holds none.
pub open spec fn spec_decode_index(s: Seq<u8>) -> Result<Seq<StoredIndexEntry>, RecordingFormatError> {
    if s.len() < 4 {
        Err(RecordingFormatError::TruncatedIndex)
    } else {
        let count = from_le32(s.subrange(0, 4));
        if count * 24 + 4 > usize::MAX {
            Err(RecordingFormatError::IndexLengthOverflow)
        } else if s.len() != count * 24 + 4 {
            Err(RecordingFormatError::IndexRecordLengthMismatch)
        } else {
            Ok(Seq::new(count as nat, |i: int| entry_at(s, 4 + 24 * i)))
        }
    }
}

pub fn decode_index(payload: &[u8]) -> (r: Result<Vec<StoredIndexEntry>, RecordingFormatError>)
    ensures
        match spec_decode_index(payload@) {
            Ok(v) => r matches Ok(x) && x@ == v,
            Err(e) => r == Err::<Vec<StoredIndexEntry>, RecordingFormatError>(e),
        },
{
    if payload.len() < 4 {
        return Err(RecordingFormatError::TruncatedIndex);
    }
    let count = get_u32(payload, 0) as usize;
    let expected = match count.checked_mul(24) {
        Some(x) => match x.checked_add(4) {
            Some(y) => y,
            None => return Err(RecordingFormatError::IndexLengthOverflow),
        },
        None => return Err(RecordingFormatError::IndexLengthOverflow),
    };
    if payload.len() != expected {
        return Err(RecordingFormatError::IndexRecordLengthMismatch);
    }
    let plen = payload.len();
    let mut entries: Vec<StoredIndexEntry> = Vec::new();
    let mut i: usize = 0;
    while i < count
        invariant
            plen == payload@.len(),
            payload@.len() == count * 24 + 4,
            0 <= i <= count,
            entries@.len() == i,
            forall|j: int| 0 <= j < i ==> entries@[j] == entry_at(payload@, 4 + 24 * j),
        decreases count - i,
    {
        assert(4 + 24 * i + 24 <= payload@.len()) by (nonlinear_arith)
            requires
                i < count,
                payload@.len() == count * 24 + 4,
        ;
        let at = 4 + 24 * i;
        entries.push(
            StoredIndexEntry {
                first_sample_index: get_u64(payload, at),
                timestamp_ticks: get_u64(payload, at + 8),
                payload_offset: get_u64(payload, at + 16),
            },
        );
        i = i + 1;
    }
    assert(entries@ =~= Seq::new(count as nat, |j: int| entry_at(payload@, 4 + 24 * j)));
    Ok(entries)
}

proof fn lemma_enc_entries_at(s: Seq<SampleRecordIndex>, j: int)
    requires
        0 <= j < s.len(),
    ensures
        enc_entries(s).len() == 24 * s.len(),
        entry_at(enc_entries(s), 24 * j) == stored_entry_of(s[j]),
    decreases s.len(),
{
    lemma_enc_entries_len(s);
    let t = s.drop_last();
    lemma_enc_entries_len(t);
    let w = enc_entries(s);
    let wt = enc_entries(t);
    let k = 24 * j;
    assert(w == wt + enc_entry(stored_entry_of(s.last())));
    if j < t.len() {
        lemma_enc_entries_at(t, j);
        assert(k + 24 <= wt.len()) by (nonlinear_arith)
            requires
                j < t.len(),
                k == 24 * j,
                wt.len() == 24 * t.len(),
        ;
        assert(w.subrange(k, k + 8) =~= wt.subrange(k, k + 8));
        assert(w.subrange(k + 8, k + 16) =~= wt.subrange(k + 8, k + 16));
        assert(w.subrange(k + 16, k + 24) =~= wt.subrange(k + 16, k + 24));
        assert(t[j] == s[j]);
    } else {
        let e = stored_entry_of(s.last());
        assert(k == wt.len());
        lemma_le64_roundtrip(e.first_sample_index);
        lemma_le64_roundtrip(e.timestamp_ticks);
        lemma_le64_roundtrip(e.payload_offset);
        assert(w.subrange(k, k + 8) =~= le64(e.first_sample_index));
        assert(w.subrange(k + 8, k + 16) =~= le64(e.timestamp_ticks));
        assert(w.subrange(k + 16, k + 24) =~= le64(e.payload_offset));
    }
}

/// The index written for some sample records reads back as exactly their
/// entries, in order.
pub proof fn lemma_index_round_trip(s: Seq<SampleRecordIndex>)
    requires
        spec_encode_index(s) is Ok,
    ensures
        spec_decode_index(spec_encode_index(s)->Ok_0) == Ok::<Seq<StoredIndexEntry>, RecordingFormatError>(
            s.map_values(|r: SampleRecordIndex| stored_entry_of(r)),
        ),
{
    let b = spec_encode_index(s)->Ok_0;
    lemma_le32_roundtrip(s.len() as u32);
    lemma_enc_entries_len(s);
    assert(b.subrange(0, 4) =~= le32(s.len() as u32));
    let decoded = Seq::new(s.len(), |i: int| entry_at(b, 4 + 24 * i));
    assert forall|j: int| 0 <= j < s.len() implies decoded[j] == stored_entry_of(s[j]) by {
        lemma_enc_entries_at(s, j);
        let w = enc_entries(s);
        assert(b.subrange(4 + 24 * j, 4 + 24 * j + 8) =~= w.subrange(24 * j, 24 * j + 8));
        assert(b.subrange(4 + 24 * j + 8, 4 + 24 * j + 16) =~= w.subrange(24 * j + 8, 24 * j + 16));
        assert(b.subrange(4 + 24 * j + 16, 4 + 24 * j + 24) =~= w.subrange(24 * j + 16, 24 * j + 24));
    }
    assert(decoded =~= s.map_values(|r: SampleRecordIndex| stored_entry_of(r)));
}

/// The stored index agrees with the sample records found in the file.
pub open spec fn index_matches(index: Seq<StoredIndexEntry>, records: Seq<SampleRecordIndex>) -> Result<
    (),
    RecordingFormatError,
> {
    if index.len() != records.len() {
        Err(RecordingFormatError::IndexCountMismatch)
    } else if exists|i: int| 0 <= i < index.len() && #[trigger] index[i] != stored_entry_of(records[i]) {
        Err(RecordingFormatError::IndexEntryMismatch)
    } else {
        Ok(())
    }
}

pub fn validate_index_matches_records(index: &[StoredIndexEntry], records: &[SampleRecordIndex]) -> (r: Result<
    (),
    RecordingFormatError,
>)
    ensures
        r == index_matches(index@, records@),
{
    if index.len() != records.len() {
        return Err(RecordingFormatError::IndexCountMismatch);
    }
    let mut i: usize = 0;
    while i < index.len()
        invariant
            index@.len() == records@.len(),
            0 <= i <= index@.len(),
            forall|j: int| 0 <= j < i ==> #[trigger] index@[j] == stored_entry_of(records@[j]),
        decreases index@.len() - i,
    {
        let e = index[i];
        let r = records[i];
        if e.first_sample_index != r.first_sample_index || e.timestamp_ticks != r.timestamp_ticks
            || e.payload_offset != r.payload_offset {
            assert(index@[i as int] != stored_entry_of(records@[i as int]));
            return Err(RecordingFormatError::IndexEntryMismatch);
        }
        i = i + 1;
    }
    Ok(())
}

impl SampleRecordIndex {
    /// Timestamp of the record's last sample.
    pub open spec fn spec_last_timestamp(self) -> Result<u64, RecordingFormatError> {
        let offset = self.sample_period_ticks * (if self.sample_count > 0 {
            self.sample_count - 1
        } else {
            0
        });
        if self.timestamp_ticks + offset > u64::MAX {
            Err(RecordingFormatError::TimestampOverflow)
        } else {
            Ok((self.timestamp_ticks + offset) as u64)
        }
    }

    pub fn last_timestamp_ticks(&self) -> (r: Result<u64, RecordingFormatError>)
        ensures
            r == self.spec_last_timestamp(),
    {
        let steps: u64 = if self.sample_count > 0 {
            (self.sample_count - 1) as u64
        } else {
            0
        };
        assert((self.sample_period_ticks as u64) * steps <= 0xffff_ffffu64 * 0xffffu64) by (nonlinear_arith)
            requires
                steps <= 0xffff,
        ;
        let offset = (self.sample_period_ticks as u64) * steps;
        match self.timestamp_ticks.checked_add(offset) {
            Some(t) => Ok(t),
            None => Err(RecordingFormatError::TimestampOverflow),
        }
    }
}

// ---------------------------------------------------------------------------
// Recording metadata
// ---------------------------------------------------------------------------

/// Why recording metadata is refused.
#[derive(Clone, Debug, PartialEq, Eq)]
pub enum RecordingMetadataError {
    TickRateZero,
    AcquisitionParametersZero,
    ChannelTable(ProtocolError),
    PresentationOutsideSelection,
    MaskSelectsNoChannel,
}

/// The words `message` gives for each refusal.
pub open spec fn recording_metadata_error_text(e: RecordingMetadataError) -> Seq<char> {
    match e {
        RecordingMetadataError::TickRateZero => "recording tick_hz must be greater than zero"@,
        RecordingMetadataError::AcquisitionParametersZero => "recording acquisition parameters must be non-zero"@,
        RecordingMetadataError::ChannelTable(e) => crate::protocol::protocol_error_text(e),
        RecordingMetadataError::PresentationOutsideSelection => "recording channel presentations must reference selected table channels"@,
        RecordingMetadataError::MaskSelectsNoChannel => "recording channel mask does not select a channel in the table"@,
    }
}

impl RecordingMetadataError {
    /// The refusal in words.
    pub fn message(&self) -> (r: String)
        ensures
            r@ == recording_metadata_error_text(*self),
    {
        match self {
            RecordingMetadataError::TickRateZero => "recording tick_hz must be greater than zero".to_string(),
            RecordingMetadataError::AcquisitionParametersZero => "recording acquisition parameters must be non-zero".to_string(),
            RecordingMetadataError::ChannelTable(e) => e.message(),
            RecordingMetadataError::PresentationOutsideSelection => "recording channel presentations must reference selected table channels".to_string(),
            RecordingMetadataError::MaskSelectsNoChannel => "recording channel mask does not select a channel in the table".to_string(),
        }
    }
}

/// What a recording says about the session it holds.
#[derive(Clone, Debug, PartialEq, Eq)]
pub struct RecordingMetadata {
    pub device_id: String,
    pub firmware_name: String,
    pub tick_hz: u64,
    pub channel_table: ChannelTable,
    pub sample_rate_hz: u32,
    pub batch_samples: u16,
    pub channel_mask: u64,
    pub client_version: String,
    /// The channels that carry a display presentation.
    pub presented_channels: Vec<u16>,
}

/// A presentation may only name a table channel the mask selects.
pub open spec fn presentation_ok(table: Seq<ChannelDescriptor>, mask: u64, id: u16) -> bool {
    lookup_channel(table, id) is Some && has_bit(mask, id as u64)
}

/// The mask selects at least one channel of the table.
pub open spec fn mask_selects_table_channel(table: Seq<ChannelDescriptor>, mask: u64) -> bool {
    exists|i: int| 0 <= i < table.len() && has_bit(mask, #[trigger] table[i].channel_id as u64)
}

pub open spec fn acquisition_set(m: RecordingMetadata) -> bool {
    m.sample_rate_hz != 0 && m.batch_samples != 0 && m.channel_mask != 0
}

pub open spec fn presentations_ok(m: RecordingMetadata) -> bool {
    forall|k: int|
        0 <= k < m.presented_channels@.len() ==> presentation_ok(
            m.channel_table.channels@,
            m.channel_mask,
            #[trigger] m.presented_channels@[k],
        )
}

/// The metadata a recording can be written with and read back under.
pub open spec fn recording_metadata_valid(m: RecordingMetadata) -> bool {
    &&& m.tick_hz != 0
    &&& acquisition_set(m)
    &&& channel_table_valid(m.channel_table.channels@)
    &&& presentations_ok(m)
    &&& mask_selects_table_channel(m.channel_table.channels@, m.channel_mask)
}

impl RecordingMetadata {
    /// Checks, in order: the tick rate, the acquisition parameters, the
    /// channel table, the presentations, and that the mask selects a table
    /// channel.
    pub fn validate(&self) -> (r: Result<(), RecordingMetadataError>)
        ensures
            r is Ok <==> recording_metadata_valid(*self),
            self.tick_hz == 0 ==> r == Err::<(), RecordingMetadataError>(RecordingMetadataError::TickRateZero),
            self.tick_hz != 0 && !acquisition_set(*self) ==> r == Err::<(), RecordingMetadataError>(
                RecordingMetadataError::AcquisitionParametersZero,
            ),
            self.tick_hz != 0 && acquisition_set(*self) && !channel_table_valid(self.channel_table.channels@)
                ==> (r matches Err(RecordingMetadataError::ChannelTable(e)) && e is InvalidPayload),
            self.tick_hz != 0 && acquisition_set(*self) && channel_table_valid(self.channel_table.channels@)
                && !presentations_ok(*self) ==> r == Err::<(), RecordingMetadataError>(
                RecordingMetadataError::PresentationOutsideSelection,
            ),
            self.tick_hz != 0 && acquisition_set(*self) && channel_table_valid(self.channel_table.channels@)
                && presentations_ok(*self) && !mask_selects_table_channel(
                self.channel_table.channels@,
                self.channel_mask,
            ) ==> r == Err::<(), RecordingMetadataError>(RecordingMetadataError::MaskSelectsNoChannel),
    {
        if self.tick_hz == 0 {
            return Err(RecordingMetadataError::TickRateZero);
        }
        if self.sample_rate_hz == 0 || self.batch_samples == 0 || self.channel_mask == 0 {
            return Err(RecordingMetadataError::AcquisitionParametersZero);
        }
        match self.channel_table.validate() {
            Ok(()) => {},
            Err(e) => {
                return Err(RecordingMetadataError::ChannelTable(e));
            },
        }
        let table = &self.channel_table.channels;
        let mask = self.channel_mask;
        let mut k: usize = 0;
        while k < self.presented_channels.len()
            invariant
                k <= self.presented_channels@.len(),
                self.tick_hz != 0,
                acquisition_set(*self),
                channel_table_valid(table@),
                table@ == self.channel_table.channels@,
                mask == self.channel_mask,
                forall|a: int|
                    0 <= a < k ==> presentation_ok(table@, mask, #[trigger] self.presented_channels@[a]),
            decreases self.presented_channels.len() - k,
        {
            let id = self.presented_channels[k];
            match self.channel_table.channel(id) {
                None => {
                    return Err(RecordingMetadataError::PresentationOutsideSelection);
                },
                Some(c) => {
                    proof {
                        lemma_lookup_channel(table@, id);
                        let i = choose|i: int| 0 <= i < table@.len() && table@[i] == *c;
                        assert(table@[i].channel_id == id);
                        lemma_test_bit(mask, id as u64);
                    }
                    if mask & (1u64 << (id as u64)) == 0 {
                        return Err(RecordingMetadataError::PresentationOutsideSelection);
                    }
                },
            }
            k = k + 1;
        }
        assert(presentations_ok(*self));
        let mut i: usize = 0;
        while i < table.len()
            invariant
                i <= table@.len(),
                self.tick_hz != 0,
                acquisition_set(*self),
                presentations_ok(*self),
                channel_table_valid(table@),
                table@ == self.channel_table.channels@,
                mask == self.channel_mask,
                forall|a: int| 0 <= a < i ==> !has_bit(mask, #[trigger] table@[a].channel_id as u64),
            decreases table.len() - i,
        {
            let id = table[i].channel_id;
            proof {
                lemma_test_bit(mask, id as u64);
            }
            if mask & (1u64 << (id as u64)) != 0 {
                assert(has_bit(mask, table@[i as int].channel_id as u64));
                return Ok(());
            }
            i = i + 1;
        }
        Err(RecordingMetadataError::MaskSelectsNoChannel)
    }
}

/// Counts of what a recorder has written.
#[derive(Clone, Copy, Debug, PartialEq, Eq, Structural)]
pub struct RecordingStats {
    pub written_records: u64,
    pub sample_frames: u64,
    pub gap_records: u64,
    pub trigger_records: u64,
}

impl Default for RecordingStats {
    fn default() -> (r: Self)
        ensures
            r == (RecordingStats { written_records: 0, sample_frames: 0, gap_records: 0, trigger_records: 0 }),
    {
        RecordingStats { written_records: 0, sample_frames: 0, gap_records: 0, trigger_records: 0 }
    }
}

// ---------------------------------------------------------------------------
// The file header
// ---------------------------------------------------------------------------

pub const FILE_HEADER_LEN: usize = 32;

pub const FILE_VERSION: u16 = 1;

pub const MAX_METADATA_LEN: usize = 1024 * 1024;

/// `SCOPEV1` and a zero byte.
pub open spec fn file_magic() -> Seq<u8> {
    seq![0x53u8, 0x43u8, 0x4fu8, 0x50u8, 0x45u8, 0x56u8, 0x31u8, 0x00u8]
}

/// The 32-byte file header: magic, version, header length, the length of
/// the metadata that follows, the creation time and two zero words.
pub open spec fn enc_file_header(metadata_len: u32, created_unix_ns: u64) -> Seq<u8> {
    file_magic() + le16(FILE_VERSION) + le16(FILE_HEADER_LEN as u16) + le32(metadata_len) + le64(
        created_unix_ns,
    ) + le32(0) + le32(0)
}

/// What the first bytes of a file say of it: the metadata length, or why
/// they are no `.scope` header.
pub open spec fn spec_read_file_header(b: Seq<u8>) -> Result<usize, RecordingFormatError> {
    if b.len() < FILE_HEADER_LEN {
        Err(RecordingFormatError::TruncatedFileHeader)
    } else if b.subrange(0, 8) != file_magic() {
        Err(RecordingFormatError::InvalidFileMagic)
    } else if from_le16(b.subrange(8, 10)) != FILE_VERSION || from_le16(b.subrange(10, 12))
        != FILE_HEADER_LEN || from_le32(b.subrange(24, 28)) != 0 || from_le32(b.subrange(28, 32))
        != 0 {
        Err(RecordingFormatError::UnsupportedFileHeader)
    } else if from_le32(b.subrange(12, 16)) > MAX_METADATA_LEN {
        Err(RecordingFormatError::MetadataTooLarge(from_le32(b.subrange(12, 16)) as usize))
    } else {
        Ok(from_le32(b.subrange(12, 16)) as usize)
    }
}

/// The header of a recording whose metadata is `metadata_len` bytes long;
/// refused above the metadata limit.
pub fn encode_file_header(metadata_len: usize, created_unix_ns: u64) -> (r: Result<
    Vec<u8>,
    RecordingFormatError,
>)
    ensures
        metadata_len > MAX_METADATA_LEN ==> r == Err::<Vec<u8>, RecordingFormatError>(
            RecordingFormatError::MetadataTooLarge(metadata_len),
        ),
        metadata_len <= MAX_METADATA_LEN ==> (r matches Ok(v) && v@ == enc_file_header(
            metadata_len as u32,
            created_unix_ns,
        )),
{
    if metadata_len > MAX_METADATA_LEN {
        return Err(RecordingFormatError::MetadataTooLarge(metadata_len));
    }
    let mut out: Vec<u8> = Vec::new();
    out.push(0x53u8);
    out.push(0x43u8);
    out.push(0x4fu8);
    out.push(0x50u8);
    out.push(0x45u8);
    out.push(0x56u8);
    out.push(0x31u8);
    out.push(0x00u8);
    assert(out@ =~= file_magic());
    put_u16(&mut out, FILE_VERSION);
    put_u16(&mut out, FILE_HEADER_LEN as u16);
    put_u32(&mut out, metadata_len as u32);
    put_u64(&mut out, created_unix_ns);
    put_u32(&mut out, 0);
    put_u32(&mut out, 0);
    Ok(out)
}

/// Reads the header at the start of a recording's bytes: the length of
/// the metadata that follows it.
pub fn read_file_header(bytes: &[u8]) -> (r: Result<usize, RecordingFormatError>)
    ensures
        r == spec_read_file_header(bytes@),
{
    if bytes.len() < FILE_HEADER_LEN {
        return Err(RecordingFormatError::TruncatedFileHeader);
    }
    if !(bytes[0] == 0x53u8 && bytes[1] == 0x43u8 && bytes[2] == 0x4fu8 && bytes[3] == 0x50u8
        && bytes[4] == 0x45u8 && bytes[5] == 0x56u8 && bytes[6] == 0x31u8 && bytes[7] == 0x00u8) {
        proof {
            if bytes@.subrange(0, 8) == file_magic() {
                assert(bytes@.subrange(0, 8)[0] == bytes@[0]);
                assert(bytes@.subrange(0, 8)[1] == bytes@[1]);
                assert(bytes@.subrange(0, 8)[2] == bytes@[2]);
                assert(bytes@.subrange(0, 8)[3] == bytes@[3]);
                assert(bytes@.subrange(0, 8)[4] == bytes@[4]);
                assert(bytes@.subrange(0, 8)[5] == bytes@[5]);
                assert(bytes@.subrange(0, 8)[6] == bytes@[6]);
                assert(bytes@.subrange(0, 8)[7] == bytes@[7]);
            }
        }
        return Err(RecordingFormatError::InvalidFileMagic);
    }
    assert(bytes@.subrange(0, 8) =~= file_magic());
    let version = get_u16(bytes, 8);
    let header_len = get_u16(bytes, 10);
    let flags = get_u32(bytes, 24);
    let reserved = get_u32(bytes, 28);
    if version != FILE_VERSION || header_len != FILE_HEADER_LEN as u16 || flags != 0 || reserved != 0 {
        return Err(RecordingFormatError::UnsupportedFileHeader);
    }
    let metadata_len = get_u32(bytes, 12) as usize;
    if metadata_len > MAX_METADATA_LEN {
        return Err(RecordingFormatError::MetadataTooLarge(metadata_len));
    }
    Ok(metadata_len)
}

/// A written header reads back: the metadata length it was written with,
/// whatever follows it.
pub proof fn lemma_file_header_roundtrip(metadata_len: u32, created_unix_ns: u64, rest: Seq<u8>)
    requires
        metadata_len <= MAX_METADATA_LEN,
    ensures
        spec_read_file_header(enc_file_header(metadata_len, created_unix_ns) + rest) == Ok::<
            usize,
            RecordingFormatError,
        >(metadata_len as usize),
{
    let h = enc_file_header(metadata_len, created_unix_ns);
    let b = h + rest;
    lemma_le16_roundtrip(FILE_VERSION);
    lemma_le16_roundtrip(FILE_HEADER_LEN as u16);
    lemma_le32_roundtrip(metadata_len);
    lemma_le32_roundtrip(0);
    lemma_le64_roundtrip(created_unix_ns);
    assert(h.len() == 32);
    assert(b.subrange(0, 8) =~= file_magic());
    assert(b.subrange(8, 10) =~= le16(FILE_VERSION));
    assert(b.subrange(10, 12) =~= le16(FILE_HEADER_LEN as u16));
    assert(b.subrange(12, 16) =~= le32(metadata_len));
    assert(b.subrange(24, 28) =~= le32(0));
    assert(b.subrange(28, 32) =~= le32(0));
}

} // verus!
