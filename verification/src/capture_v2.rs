//! DSP-side capture control messages of SCP1 V2: arming a triggered capture,
//! manual trigger and cancel, status reports, and the begin/end records that
//! bracket an upload.  Each fixed-size record has a byte grammar, a verified
//! encoder and decoder, and the two laws of every record grammar.
//!
//! Trigger levels travel as IEEE-754 single-precision values; the library
//! carries them as their raw bit patterns, which is exactly what the wire
//! holds.

use vstd::prelude::*;

use crate::protocol::{invalid_error, ProtocolError};
use crate::protocol_v2::MAX_CAPTURE_ROWS;
use crate::reader::PayloadReader;
use crate::wire::{
    from_le16, from_le32, from_le64, le16, le32, le64, lemma_le16_canonical, lemma_le16_roundtrip,
    lemma_le32_canonical, lemma_le32_roundtrip, lemma_le64_canonical, lemma_le64_roundtrip,
    put_u16, put_u32, put_u64,
};

verus! {

// ---------------------------------------------------------------------------
// Enumerations
// ---------------------------------------------------------------------------

#[derive(Clone, Copy, Debug, PartialEq, Eq, Structural)]
pub enum CaptureTriggerKind {
    Manual,
    Edge,
    FaultFlag,
}

impl CaptureTriggerKind {
    pub open spec fn spec_code(self) -> u8 {
        match self {
            CaptureTriggerKind::Manual => 0,
            CaptureTriggerKind::Edge => 1,
            CaptureTriggerKind::FaultFlag => 2,
        }
    }

    pub open spec fn spec_from_code(b: u8) -> Option<CaptureTriggerKind> {
        if b == 0 {
            Some(CaptureTriggerKind::Manual)
        } else if b == 1 {
            Some(CaptureTriggerKind::Edge)
        } else if b == 2 {
            Some(CaptureTriggerKind::FaultFlag)
        } else {
            None
        }
    }

    pub fn code(self) -> (r: u8)
        ensures
            r == self.spec_code(),
    {
        match self {
            CaptureTriggerKind::Manual => 0,
            CaptureTriggerKind::Edge => 1,
            CaptureTriggerKind::FaultFlag => 2,
        }
    }

    pub fn from_code(value: u8) -> (r: Result<CaptureTriggerKind, ProtocolError>)
        ensures
            match Self::spec_from_code(value) {
                Some(d) => r == Ok::<CaptureTriggerKind, ProtocolError>(d),
                None => r matches Err(e) && e is InvalidPayload,
            },
    {
        match value {
            0 => Ok(CaptureTriggerKind::Manual),
            1 => Ok(CaptureTriggerKind::Edge),
            2 => Ok(CaptureTriggerKind::FaultFlag),
            _ => Err(invalid_error("unknown capture trigger kind")),
        }
    }
}

#[derive(Clone, Copy, Debug, PartialEq, Eq, Structural)]
pub enum CaptureEdge {
    Rising,
    Falling,
    Either,
}

impl CaptureEdge {
    pub open spec fn spec_code(self) -> u8 {
        match self {
            CaptureEdge::Rising => 0,
            CaptureEdge::Falling => 1,
            CaptureEdge::Either => 2,
        }
    }

    pub open spec fn spec_from_code(b: u8) -> Option<CaptureEdge> {
        if b == 0 {
            Some(CaptureEdge::Rising)
        } else if b == 1 {
            Some(CaptureEdge::Falling)
        } else if b == 2 {
            Some(CaptureEdge::Either)
        } else {
            None
        }
    }

    pub fn code(self) -> (r: u8)
        ensures
            r == self.spec_code(),
    {
        match self {
            CaptureEdge::Rising => 0,
            CaptureEdge::Falling => 1,
            CaptureEdge::Either => 2,
        }
    }

    pub fn from_code(value: u8) -> (r: Result<CaptureEdge, ProtocolError>)
        ensures
            match Self::spec_from_code(value) {
                Some(d) => r == Ok::<CaptureEdge, ProtocolError>(d),
                None => r matches Err(e) && e is InvalidPayload,
            },
    {
        match value {
            0 => Ok(CaptureEdge::Rising),
            1 => Ok(CaptureEdge::Falling),
            2 => Ok(CaptureEdge::Either),
            _ => Err(invalid_error("unknown capture edge")),
        }
    }
}

#[derive(Clone, Copy, Debug, PartialEq, Eq, Structural)]
pub enum CaptureState {
    Idle,
    Armed,
    Triggered,
    PostCapture,
    Complete,
    Uploading,
    Cancelled,
    Timeout,
    BufferOverrun,
    InvalidConfig,
    DeviceReset,
}

impl CaptureState {
    pub open spec fn spec_code(self) -> u8 {
        match self {
            CaptureState::Idle => 0,
            CaptureState::Armed => 1,
            CaptureState::Triggered => 2,
            CaptureState::PostCapture => 3,
            CaptureState::Complete => 4,
            CaptureState::Uploading => 5,
            CaptureState::Cancelled => 6,
            CaptureState::Timeout => 7,
            CaptureState::BufferOverrun => 8,
            CaptureState::InvalidConfig => 9,
            CaptureState::DeviceReset => 10,
        }
    }

    pub open spec fn spec_from_code(b: u8) -> Option<CaptureState> {
        if b == 0 {
            Some(CaptureState::Idle)
        } else if b == 1 {
            Some(CaptureState::Armed)
        } else if b == 2 {
            Some(CaptureState::Triggered)
        } else if b == 3 {
            Some(CaptureState::PostCapture)
        } else if b == 4 {
            Some(CaptureState::Complete)
        } else if b == 5 {
            Some(CaptureState::Uploading)
        } else if b == 6 {
            Some(CaptureState::Cancelled)
        } else if b == 7 {
            Some(CaptureState::Timeout)
        } else if b == 8 {
            Some(CaptureState::BufferOverrun)
        } else if b == 9 {
            Some(CaptureState::InvalidConfig)
        } else if b == 10 {
            Some(CaptureState::DeviceReset)
        } else {
            None
        }
    }

    pub fn code(self) -> (r: u8)
        ensures
            r == self.spec_code(),
    {
        match self {
            CaptureState::Idle => 0,
            CaptureState::Armed => 1,
            CaptureState::Triggered => 2,
            CaptureState::PostCapture => 3,
            CaptureState::Complete => 4,
            CaptureState::Uploading => 5,
            CaptureState::Cancelled => 6,
            CaptureState::Timeout => 7,
            CaptureState::BufferOverrun => 8,
            CaptureState::InvalidConfig => 9,
            CaptureState::DeviceReset => 10,
        }
    }

    pub fn from_code(value: u8) -> (r: Result<CaptureState, ProtocolError>)
        ensures
            match Self::spec_from_code(value) {
                Some(d) => r == Ok::<CaptureState, ProtocolError>(d),
                None => r matches Err(e) && e is InvalidPayload,
            },
    {
        match value {
            0 => Ok(CaptureState::Idle),
            1 => Ok(CaptureState::Armed),
            2 => Ok(CaptureState::Triggered),
            3 => Ok(CaptureState::PostCapture),
            4 => Ok(CaptureState::Complete),
            5 => Ok(CaptureState::Uploading),
            6 => Ok(CaptureState::Cancelled),
            7 => Ok(CaptureState::Timeout),
            8 => Ok(CaptureState::BufferOverrun),
            9 => Ok(CaptureState::InvalidConfig),
            10 => Ok(CaptureState::DeviceReset),
            _ => Err(invalid_error("unknown capture state")),
        }
    }
}

// ---------------------------------------------------------------------------
// Records
// ---------------------------------------------------------------------------

/// DSP-side trigger definition. `channel_id` is used for analog triggers and
/// `flag_mask` / `flag_value` for hardware-flag triggers.  `level_bits` and
/// `hysteresis_bits` are IEEE-754 single-precision bit patterns.
#[derive(Clone, Copy, Debug, PartialEq, Eq, Structural)]
pub struct CaptureTrigger {
    pub kind: CaptureTriggerKind,
    pub channel_id: u16,
    pub level_bits: u32,
    pub edge: CaptureEdge,
    pub hysteresis_bits: u32,
    pub flag_mask: u32,
    pub flag_value: u32,
}

#[derive(Clone, Copy, Debug, PartialEq, Eq, Structural)]
pub struct ArmCapture {
    pub capture_id: u32,
    pub stream_id: u16,
    pub pretrigger_rows: u32,
    pub posttrigger_rows: u32,
    pub timeout_samples: u32,
    pub trigger: CaptureTrigger,
}

#[derive(Clone, Copy, Debug, PartialEq, Eq, Structural)]
pub struct ManualTrigger {
    pub capture_id: u32,
}

#[derive(Clone, Copy, Debug, PartialEq, Eq, Structural)]
pub struct CancelCapture {
    pub capture_id: u32,
}

#[derive(Clone, Copy, Debug, PartialEq, Eq, Structural)]
pub struct CaptureStatus {
    pub capture_id: u32,
    pub state: CaptureState,
    pub captured_rows: u32,
    pub dropped_rows: u32,
}

#[derive(Clone, Copy, Debug, PartialEq, Eq, Structural)]
pub struct CaptureBegin {
    pub capture_id: u32,
    pub stream_id: u16,
    pub row_count: u32,
    pub trigger_row_seq: u64,
}

#[derive(Clone, Copy, Debug, PartialEq, Eq, Structural)]
pub struct CaptureEnd {
    pub capture_id: u32,
    pub state: CaptureState,
    pub uploaded_rows: u32,
    pub dropped_rows: u32,
    pub total_blocks: u32,
    pub total_samples: u32,
    pub integrity_summary: u32,
}

// ---------------------------------------------------------------------------
// ARM_CAPTURE validation
// ---------------------------------------------------------------------------

/// The single-precision value with these bits is finite (not an infinity or
/// a NaN): its exponent field is not all ones.
pub open spec fn f32_bits_finite(bits: u32) -> bool {
    bits & 0x7f80_0000 != 0x7f80_0000
}

/// The single-precision value with these bits compares below `0.0`: the sign
/// bit is set and the magnitude is not zero (`-0.0` is not below `0.0`).
pub open spec fn f32_bits_below_zero(bits: u32) -> bool {
    bits > 0x8000_0000
}

/// Total captured rows: pretrigger, the trigger row itself, and posttrigger.
pub open spec fn capture_row_total(c: ArmCapture) -> int {
    c.pretrigger_rows + c.posttrigger_rows + 1
}

pub open spec fn arm_capture_ok(c: ArmCapture) -> bool {
    &&& c.capture_id != 0
    &&& capture_row_total(c) <= MAX_CAPTURE_ROWS
    &&& f32_bits_finite(c.trigger.level_bits)
    &&& f32_bits_finite(c.trigger.hysteresis_bits)
    &&& !(f32_bits_below_zero(c.trigger.hysteresis_bits) && f32_bits_finite(c.trigger.hysteresis_bits))
    &&& !(c.trigger.kind == CaptureTriggerKind::FaultFlag && c.trigger.flag_mask == 0)
}

/// Checks an ARM_CAPTURE request.  A row total that does not fit in `u32`
/// is a `LengthOverflow`; every other refusal is an `InvalidPayload`.
pub fn validate_arm_capture(capture: &ArmCapture) -> (r: Result<(), ProtocolError>)
    ensures
        r is Ok <==> arm_capture_ok(*capture),
        r matches Err(e) ==> (e is LengthOverflow <==> (capture.capture_id != 0 && capture_row_total(
            *capture,
        ) > u32::MAX)),
        r matches Err(e) ==> (e is LengthOverflow || e is InvalidPayload),
{
    if capture.capture_id == 0 {
        return Err(invalid_error("capture id must be non-zero"));
    }
    let row_count = match capture.pretrigger_rows.checked_add(capture.posttrigger_rows) {
        Some(sum) => match sum.checked_add(1) {
            Some(total) => total,
            None => return Err(ProtocolError::LengthOverflow),
        },
        None => return Err(ProtocolError::LengthOverflow),
    };
    if row_count > MAX_CAPTURE_ROWS {
        return Err(invalid_error("capture row count exceeds the maximum"));
    }
    let level = capture.trigger.level_bits;
    let hysteresis = capture.trigger.hysteresis_bits;
    if level & 0x7f80_0000 == 0x7f80_0000 || hysteresis & 0x7f80_0000 == 0x7f80_0000 {
        return Err(invalid_error("capture trigger level and hysteresis must be finite"));
    }
    if hysteresis > 0x8000_0000 {
        return Err(invalid_error("capture trigger hysteresis must be non-negative"));
    }
    if capture.trigger.kind == CaptureTriggerKind::FaultFlag && capture.trigger.flag_mask == 0 {
        return Err(invalid_error("hardware capture trigger flag mask must be non-zero"));
    }
    Ok(())
}

// ---------------------------------------------------------------------------
// Byte grammars of the fixed-size records
// ---------------------------------------------------------------------------

/// ARM_CAPTURE: 40 bytes, with a zero reserved half-word after the stream id.
pub open spec fn enc_arm(c: ArmCapture) -> Seq<u8> {
    le32(c.capture_id) + le16(c.stream_id) + le16(0) + le32(c.pretrigger_rows) + le32(
        c.posttrigger_rows,
    ) + le32(c.timeout_samples) + seq![c.trigger.kind.spec_code(), c.trigger.edge.spec_code()]
        + le16(c.trigger.channel_id) + le32(c.trigger.level_bits) + le32(c.trigger.hysteresis_bits)
        + le32(c.trigger.flag_mask) + le32(c.trigger.flag_value)
}

pub open spec fn parse_arm(s: Seq<u8>, p: int) -> Option<(ArmCapture, int)> {
    if p < 0 || p + 40 > s.len() {
        None
    } else {
        let kind = CaptureTriggerKind::spec_from_code(s[p + 20]);
        let edge = CaptureEdge::spec_from_code(s[p + 21]);
        if from_le16(s.subrange(p + 6, p + 8)) != 0 || kind is None || edge is None {
            None
        } else {
            let c = ArmCapture {
                capture_id: from_le32(s.subrange(p, p + 4)),
                stream_id: from_le16(s.subrange(p + 4, p + 6)),
                pretrigger_rows: from_le32(s.subrange(p + 8, p + 12)),
                posttrigger_rows: from_le32(s.subrange(p + 12, p + 16)),
                timeout_samples: from_le32(s.subrange(p + 16, p + 20)),
                trigger: CaptureTrigger {
                    kind: kind->Some_0,
                    channel_id: from_le16(s.subrange(p + 22, p + 24)),
                    level_bits: from_le32(s.subrange(p + 24, p + 28)),
                    edge: edge->Some_0,
                    hysteresis_bits: from_le32(s.subrange(p + 28, p + 32)),
                    flag_mask: from_le32(s.subrange(p + 32, p + 36)),
                    flag_value: from_le32(s.subrange(p + 36, p + 40)),
                },
            };
            if arm_capture_ok(c) {
                Some((c, p + 40))
            } else {
                None
            }
        }
    }
}

/// MANUAL_TRIGGER and CANCEL_CAPTURE: the capture id alone.
pub open spec fn parse_capture_id(s: Seq<u8>, p: int) -> Option<(u32, int)> {
    if p < 0 || p + 4 > s.len() {
        None
    } else {
        Some((from_le32(s.subrange(p, p + 4)), p + 4))
    }
}

/// CAPTURE_STATUS: 16 bytes, three zero bytes after the state.
pub open spec fn enc_status(c: CaptureStatus) -> Seq<u8> {
    le32(c.capture_id) + seq![c.state.spec_code(), 0u8, 0u8, 0u8] + le32(c.captured_rows) + le32(
        c.dropped_rows,
    )
}

pub open spec fn parse_status(s: Seq<u8>, p: int) -> Option<(CaptureStatus, int)> {
    if p < 0 || p + 16 > s.len() {
        None
    } else {
        let state = CaptureState::spec_from_code(s[p + 4]);
        if state is None || s[p + 5] != 0 || s[p + 6] != 0 || s[p + 7] != 0 {
            None
        } else {
            Some(
                (
                    CaptureStatus {
                        capture_id: from_le32(s.subrange(p, p + 4)),
                        state: state->Some_0,
                        captured_rows: from_le32(s.subrange(p + 8, p + 12)),
                        dropped_rows: from_le32(s.subrange(p + 12, p + 16)),
                    },
                    p + 16,
                ),
            )
        }
    }
}

/// CAPTURE_BEGIN: 20 bytes, a zero reserved half-word after the stream id.
pub open spec fn enc_begin(c: CaptureBegin) -> Seq<u8> {
    le32(c.capture_id) + le16(c.stream_id) + le16(0) + le32(c.row_count) + le64(c.trigger_row_seq)
}

/// A begin record announces between one row and the capture limit.
pub open spec fn begin_ok(c: CaptureBegin) -> bool {
    1 <= c.row_count <= MAX_CAPTURE_ROWS
}

pub open spec fn parse_begin(s: Seq<u8>, p: int) -> Option<(CaptureBegin, int)> {
    if p < 0 || p + 20 > s.len() {
        None
    } else {
        let c = CaptureBegin {
            capture_id: from_le32(s.subrange(p, p + 4)),
            stream_id: from_le16(s.subrange(p + 4, p + 6)),
            row_count: from_le32(s.subrange(p + 8, p + 12)),
            trigger_row_seq: from_le64(s.subrange(p + 12, p + 20)),
        };
        if from_le16(s.subrange(p + 6, p + 8)) != 0 || !begin_ok(c) {
            None
        } else {
            Some((c, p + 20))
        }
    }
}

/// CAPTURE_END: 28 bytes, three zero bytes after the state.
pub open spec fn enc_end(c: CaptureEnd) -> Seq<u8> {
    le32(c.capture_id) + seq![c.state.spec_code(), 0u8, 0u8, 0u8] + le32(c.uploaded_rows) + le32(
        c.dropped_rows,
    ) + le32(c.total_blocks) + le32(c.total_samples) + le32(c.integrity_summary)
}

pub open spec fn parse_end(s: Seq<u8>, p: int) -> Option<(CaptureEnd, int)> {
    if p < 0 || p + 28 > s.len() {
        None
    } else {
        let state = CaptureState::spec_from_code(s[p + 4]);
        if state is None || s[p + 5] != 0 || s[p + 6] != 0 || s[p + 7] != 0 {
            None
        } else {
            Some(
                (
                    CaptureEnd {
                        capture_id: from_le32(s.subrange(p, p + 4)),
                        state: state->Some_0,
                        uploaded_rows: from_le32(s.subrange(p + 8, p + 12)),
                        dropped_rows: from_le32(s.subrange(p + 12, p + 16)),
                        total_blocks: from_le32(s.subrange(p + 16, p + 20)),
                        total_samples: from_le32(s.subrange(p + 20, p + 24)),
                        integrity_summary: from_le32(s.subrange(p + 24, p + 28)),
                    },
                    p + 28,
                ),
            )
        }
    }
}

// ---------------------------------------------------------------------------
// Field extraction helpers for the record laws
// ---------------------------------------------------------------------------

proof fn lemma_field16(s: Seq<u8>, p: int, w: Seq<u8>, a: int, x: u16)
    requires
        0 <= p,
        p + w.len() <= s.len(),
        s.subrange(p, p + w.len()) == w,
        0 <= a,
        a + 2 <= w.len(),
        w.subrange(a, a + 2) == le16(x),
    ensures
        from_le16(s.subrange(p + a, p + a + 2)) == x,
{
    lemma_le16_roundtrip(x);
    assert(s.subrange(p + a, p + a + 2) =~= w.subrange(a, a + 2));
}

proof fn lemma_field32(s: Seq<u8>, p: int, w: Seq<u8>, a: int, x: u32)
    requires
        0 <= p,
        p + w.len() <= s.len(),
        s.subrange(p, p + w.len()) == w,
        0 <= a,
        a + 4 <= w.len(),
        w.subrange(a, a + 4) == le32(x),
    ensures
        from_le32(s.subrange(p + a, p + a + 4)) == x,
{
    lemma_le32_roundtrip(x);
    assert(s.subrange(p + a, p + a + 4) =~= w.subrange(a, a + 4));
}

proof fn lemma_field64(s: Seq<u8>, p: int, w: Seq<u8>, a: int, x: u64)
    requires
        0 <= p,
        p + w.len() <= s.len(),
        s.subrange(p, p + w.len()) == w,
        0 <= a,
        a + 8 <= w.len(),
        w.subrange(a, a + 8) == le64(x),
    ensures
        from_le64(s.subrange(p + a, p + a + 8)) == x,
{
    lemma_le64_roundtrip(x);
    assert(s.subrange(p + a, p + a + 8) =~= w.subrange(a, a + 8));
}

// ---------------------------------------------------------------------------
// Record laws
// ---------------------------------------------------------------------------

/// Law: a valid ARM_CAPTURE record parses back from its encoding.
pub proof fn lemma_arm_roundtrip(s: Seq<u8>, p: int, c: ArmCapture)
    requires
        arm_capture_ok(c),
        0 <= p,
        p + 40 <= s.len(),
        s.subrange(p, p + 40) == enc_arm(c),
    ensures
        enc_arm(c).len() == 40,
        parse_arm(s, p) == Some((c, p + 40)),
{
    let w = enc_arm(c);
    lemma_le16_roundtrip(0);
    lemma_le32_roundtrip(c.capture_id);
    lemma_le16_roundtrip(c.stream_id);
    lemma_le32_roundtrip(c.pretrigger_rows);
    lemma_le32_roundtrip(c.posttrigger_rows);
    lemma_le32_roundtrip(c.timeout_samples);
    lemma_le16_roundtrip(c.trigger.channel_id);
    lemma_le32_roundtrip(c.trigger.level_bits);
    lemma_le32_roundtrip(c.trigger.hysteresis_bits);
    lemma_le32_roundtrip(c.trigger.flag_mask);
    lemma_le32_roundtrip(c.trigger.flag_value);
    assert(w.len() == 40);
    assert(w.subrange(0, 4) =~= le32(c.capture_id));
    assert(w.subrange(4, 6) =~= le16(c.stream_id));
    assert(w.subrange(6, 8) =~= le16(0));
    assert(w.subrange(8, 12) =~= le32(c.pretrigger_rows));
    assert(w.subrange(12, 16) =~= le32(c.posttrigger_rows));
    assert(w.subrange(16, 20) =~= le32(c.timeout_samples));
    assert(w.subrange(22, 24) =~= le16(c.trigger.channel_id));
    assert(w.subrange(24, 28) =~= le32(c.trigger.level_bits));
    assert(w.subrange(28, 32) =~= le32(c.trigger.hysteresis_bits));
    assert(w.subrange(32, 36) =~= le32(c.trigger.flag_mask));
    assert(w.subrange(36, 40) =~= le32(c.trigger.flag_value));
    lemma_field32(s, p, w, 0, c.capture_id);
    lemma_field16(s, p, w, 4, c.stream_id);
    lemma_field16(s, p, w, 6, 0);
    lemma_field32(s, p, w, 8, c.pretrigger_rows);
    lemma_field32(s, p, w, 12, c.posttrigger_rows);
    lemma_field32(s, p, w, 16, c.timeout_samples);
    lemma_field16(s, p, w, 22, c.trigger.channel_id);
    lemma_field32(s, p, w, 24, c.trigger.level_bits);
    lemma_field32(s, p, w, 28, c.trigger.hysteresis_bits);
    lemma_field32(s, p, w, 32, c.trigger.flag_mask);
    lemma_field32(s, p, w, 36, c.trigger.flag_value);
    assert(s[p + 20] == w[20]);
    assert(s[p + 21] == w[21]);
    assert(CaptureTriggerKind::spec_from_code(s[p + 20]) == Some(c.trigger.kind));
    assert(CaptureEdge::spec_from_code(s[p + 21]) == Some(c.trigger.edge));
}

/// Law: whatever the ARM_CAPTURE grammar accepts is the encoding of its
/// result.
pub proof fn lemma_arm_canonical(s: Seq<u8>, p: int)
    ensures
        match parse_arm(s, p) {
            Some((c, q)) => q == p + 40 && s.subrange(p, q) == enc_arm(c),
            None => true,
        },
{
    if let Some((c, q)) = parse_arm(s, p) {
        lemma_le32_canonical(s.subrange(p, p + 4));
        lemma_le16_canonical(s.subrange(p + 4, p + 6));
        lemma_le16_canonical(s.subrange(p + 6, p + 8));
        lemma_le32_canonical(s.subrange(p + 8, p + 12));
        lemma_le32_canonical(s.subrange(p + 12, p + 16));
        lemma_le32_canonical(s.subrange(p + 16, p + 20));
        lemma_le16_canonical(s.subrange(p + 22, p + 24));
        lemma_le32_canonical(s.subrange(p + 24, p + 28));
        lemma_le32_canonical(s.subrange(p + 28, p + 32));
        lemma_le32_canonical(s.subrange(p + 32, p + 36));
        lemma_le32_canonical(s.subrange(p + 36, p + 40));
        assert(le16(0) =~= s.subrange(p + 6, p + 8));
        assert(s.subrange(p, q) =~= s.subrange(p, p + 4) + s.subrange(p + 4, p + 6) + s.subrange(
            p + 6,
            p + 8,
        ) + s.subrange(p + 8, p + 12) + s.subrange(p + 12, p + 16) + s.subrange(p + 16, p + 20)
            + seq![s[p + 20], s[p + 21]] + s.subrange(p + 22, p + 24) + s.subrange(p + 24, p + 28)
            + s.subrange(p + 28, p + 32) + s.subrange(p + 32, p + 36) + s.subrange(p + 36, p + 40));
    }
}

/// Law: a capture id parses back from its encoding.
pub proof fn lemma_capture_id_roundtrip(s: Seq<u8>, p: int, id: u32)
    requires
        0 <= p,
        p + 4 <= s.len(),
        s.subrange(p, p + 4) == le32(id),
    ensures
        parse_capture_id(s, p) == Some((id, p + 4)),
{
    lemma_le32_roundtrip(id);
}

/// Law: whatever the capture-id grammar accepts is the encoding of its
/// result.
pub proof fn lemma_capture_id_canonical(s: Seq<u8>, p: int)
    ensures
        match parse_capture_id(s, p) {
            Some((id, q)) => q == p + 4 && s.subrange(p, q) == le32(id),
            None => true,
        },
{
    if p >= 0 && p + 4 <= s.len() {
        lemma_le32_canonical(s.subrange(p, p + 4));
    }
}

/// Law: a CAPTURE_STATUS record parses back from its encoding.
pub proof fn lemma_status_roundtrip(s: Seq<u8>, p: int, c: CaptureStatus)
    requires
        0 <= p,
        p + 16 <= s.len(),
        s.subrange(p, p + 16) == enc_status(c),
    ensures
        enc_status(c).len() == 16,
        parse_status(s, p) == Some((c, p + 16)),
{
    let w = enc_status(c);
    lemma_le32_roundtrip(c.capture_id);
    lemma_le32_roundtrip(c.captured_rows);
    lemma_le32_roundtrip(c.dropped_rows);
    assert(w.subrange(0, 4) =~= le32(c.capture_id));
    assert(w.subrange(8, 12) =~= le32(c.captured_rows));
    assert(w.subrange(12, 16) =~= le32(c.dropped_rows));
    lemma_field32(s, p, w, 0, c.capture_id);
    lemma_field32(s, p, w, 8, c.captured_rows);
    lemma_field32(s, p, w, 12, c.dropped_rows);
    assert(s[p + 4] == w[4]);
    assert(s[p + 5] == w[5]);
    assert(s[p + 6] == w[6]);
    assert(s[p + 7] == w[7]);
    assert(CaptureState::spec_from_code(s[p + 4]) == Some(c.state));
}

/// Law: whatever the CAPTURE_STATUS grammar accepts is the encoding of its
/// result.
pub proof fn lemma_status_canonical(s: Seq<u8>, p: int)
    ensures
        match parse_status(s, p) {
            Some((c, q)) => q == p + 16 && s.subrange(p, q) == enc_status(c),
            None => true,
        },
{
    if let Some((c, q)) = parse_status(s, p) {
        lemma_le32_canonical(s.subrange(p, p + 4));
        lemma_le32_canonical(s.subrange(p + 8, p + 12));
        lemma_le32_canonical(s.subrange(p + 12, p + 16));
        assert(s.subrange(p, q) =~= s.subrange(p, p + 4) + seq![s[p + 4], s[p + 5], s[p + 6], s[p + 7]]
            + s.subrange(p + 8, p + 12) + s.subrange(p + 12, p + 16));
    }
}

/// Law: a CAPTURE_BEGIN record with an allowed row count parses back from
/// its encoding.
pub proof fn lemma_begin_roundtrip(s: Seq<u8>, p: int, c: CaptureBegin)
    requires
        begin_ok(c),
        0 <= p,
        p + 20 <= s.len(),
        s.subrange(p, p + 20) == enc_begin(c),
    ensures
        enc_begin(c).len() == 20,
        parse_begin(s, p) == Some((c, p + 20)),
{
    let w = enc_begin(c);
    lemma_le32_roundtrip(c.capture_id);
    lemma_le16_roundtrip(c.stream_id);
    lemma_le16_roundtrip(0);
    lemma_le32_roundtrip(c.row_count);
    lemma_le64_roundtrip(c.trigger_row_seq);
    assert(w.subrange(0, 4) =~= le32(c.capture_id));
    assert(w.subrange(4, 6) =~= le16(c.stream_id));
    assert(w.subrange(6, 8) =~= le16(0));
    assert(w.subrange(8, 12) =~= le32(c.row_count));
    assert(w.subrange(12, 20) =~= le64(c.trigger_row_seq));
    lemma_field32(s, p, w, 0, c.capture_id);
    lemma_field16(s, p, w, 4, c.stream_id);
    lemma_field16(s, p, w, 6, 0);
    lemma_field32(s, p, w, 8, c.row_count);
    lemma_field64(s, p, w, 12, c.trigger_row_seq);
}

/// Law: whatever the CAPTURE_BEGIN grammar accepts is the encoding of its
/// result.
pub proof fn lemma_begin_canonical(s: Seq<u8>, p: int)
    ensures
        match parse_begin(s, p) {
            Some((c, q)) => q == p + 20 && s.subrange(p, q) == enc_begin(c),
            None => true,
        },
{
    if let Some((c, q)) = parse_begin(s, p) {
        lemma_le32_canonical(s.subrange(p, p + 4));
        lemma_le16_canonical(s.subrange(p + 4, p + 6));
        lemma_le16_canonical(s.subrange(p + 6, p + 8));
        lemma_le32_canonical(s.subrange(p + 8, p + 12));
        lemma_le64_canonical(s.subrange(p + 12, p + 20));
        assert(le16(0) =~= s.subrange(p + 6, p + 8));
        assert(s.subrange(p, q) =~= s.subrange(p, p + 4) + s.subrange(p + 4, p + 6) + s.subrange(
            p + 6,
            p + 8,
        ) + s.subrange(p + 8, p + 12) + s.subrange(p + 12, p + 20));
    }
}

/// Law: a CAPTURE_END record parses back from its encoding.
pub proof fn lemma_end_roundtrip(s: Seq<u8>, p: int, c: CaptureEnd)
    requires
        0 <= p,
        p + 28 <= s.len(),
        s.subrange(p, p + 28) == enc_end(c),
    ensures
        enc_end(c).len() == 28,
        parse_end(s, p) == Some((c, p + 28)),
{
    let w = enc_end(c);
    lemma_le32_roundtrip(c.capture_id);
    lemma_le32_roundtrip(c.uploaded_rows);
    lemma_le32_roundtrip(c.dropped_rows);
    lemma_le32_roundtrip(c.total_blocks);
    lemma_le32_roundtrip(c.total_samples);
    lemma_le32_roundtrip(c.integrity_summary);
    assert(w.subrange(0, 4) =~= le32(c.capture_id));
    assert(w.subrange(8, 12) =~= le32(c.uploaded_rows));
    assert(w.subrange(12, 16) =~= le32(c.dropped_rows));
    assert(w.subrange(16, 20) =~= le32(c.total_blocks));
    assert(w.subrange(20, 24) =~= le32(c.total_samples));
    assert(w.subrange(24, 28) =~= le32(c.integrity_summary));
    lemma_field32(s, p, w, 0, c.capture_id);
    lemma_field32(s, p, w, 8, c.uploaded_rows);
    lemma_field32(s, p, w, 12, c.dropped_rows);
    lemma_field32(s, p, w, 16, c.total_blocks);
    lemma_field32(s, p, w, 20, c.total_samples);
    lemma_field32(s, p, w, 24, c.integrity_summary);
    assert(s[p + 4] == w[4]);
    assert(s[p + 5] == w[5]);
    assert(s[p + 6] == w[6]);
    assert(s[p + 7] == w[7]);
    assert(CaptureState::spec_from_code(s[p + 4]) == Some(c.state));
}

/// Law: whatever the CAPTURE_END grammar accepts is the encoding of its
/// result.
pub proof fn lemma_end_canonical(s: Seq<u8>, p: int)
    ensures
        match parse_end(s, p) {
            Some((c, q)) => q == p + 28 && s.subrange(p, q) == enc_end(c),
            None => true,
        },
{
    if let Some((c, q)) = parse_end(s, p) {
        lemma_le32_canonical(s.subrange(p, p + 4));
        lemma_le32_canonical(s.subrange(p + 8, p + 12));
        lemma_le32_canonical(s.subrange(p + 12, p + 16));
        lemma_le32_canonical(s.subrange(p + 16, p + 20));
        lemma_le32_canonical(s.subrange(p + 20, p + 24));
        lemma_le32_canonical(s.subrange(p + 24, p + 28));
        assert(s.subrange(p, q) =~= s.subrange(p, p + 4) + seq![s[p + 4], s[p + 5], s[p + 6], s[p + 7]]
            + s.subrange(p + 8, p + 12) + s.subrange(p + 12, p + 16) + s.subrange(p + 16, p + 20)
            + s.subrange(p + 20, p + 24) + s.subrange(p + 24, p + 28));
    }
}

// ---------------------------------------------------------------------------
// Encoders and decoders
// ---------------------------------------------------------------------------

pub fn encode_arm_capture(capture: &ArmCapture, bytes: &mut Vec<u8>) -> (r: Result<(), ProtocolError>)
    ensures
        r is Ok <==> arm_capture_ok(*capture),
        r is Ok ==> final(bytes)@ == old(bytes)@ + enc_arm(*capture),
        r is Err ==> final(bytes)@ == old(bytes)@,
        r matches Err(e) ==> (e is LengthOverflow <==> (capture.capture_id != 0 && capture_row_total(
            *capture,
        ) > u32::MAX)),
{
    validate_arm_capture(capture)?;
    let ghost start = bytes@;
    put_u32(bytes, capture.capture_id);
    put_u16(bytes, capture.stream_id);
    put_u16(bytes, 0);
    put_u32(bytes, capture.pretrigger_rows);
    put_u32(bytes, capture.posttrigger_rows);
    put_u32(bytes, capture.timeout_samples);
    bytes.push(capture.trigger.kind.code());
    bytes.push(capture.trigger.edge.code());
    put_u16(bytes, capture.trigger.channel_id);
    put_u32(bytes, capture.trigger.level_bits);
    put_u32(bytes, capture.trigger.hysteresis_bits);
    put_u32(bytes, capture.trigger.flag_mask);
    put_u32(bytes, capture.trigger.flag_value);
    assert(bytes@ =~= start + enc_arm(*capture));
    Ok(())
}

pub fn decode_arm_capture(reader: &mut PayloadReader) -> (r: Result<ArmCapture, ProtocolError>)
    requires
        old(reader).wf(),
    ensures
        final(reader).wf(),
        final(reader).data() == old(reader).data(),
        match parse_arm(old(reader).data(), old(reader).pos()) {
            Some((c, q)) => r == Ok::<ArmCapture, ProtocolError>(c) && final(reader).pos() == q,
            None => r is Err,
        },
{
    let capture_id = reader.u32()?;
    let stream_id = reader.u16()?;
    let reserved = reader.u16()?;
    if reserved != 0 {
        return Err(invalid_error("ARM_CAPTURE reserved field must be zero"));
    }
    let pretrigger_rows = reader.u32()?;
    let posttrigger_rows = reader.u32()?;
    let timeout_samples = reader.u32()?;
    let kind = CaptureTriggerKind::from_code(reader.u8()?)?;
    let edge = CaptureEdge::from_code(reader.u8()?)?;
    let channel_id = reader.u16()?;
    let level_bits = reader.u32()?;
    let hysteresis_bits = reader.u32()?;
    let flag_mask = reader.u32()?;
    let flag_value = reader.u32()?;
    let capture = ArmCapture {
        capture_id,
        stream_id,
        pretrigger_rows,
        posttrigger_rows,
        timeout_samples,
        trigger: CaptureTrigger {
            kind,
            channel_id,
            level_bits,
            edge,
            hysteresis_bits,
            flag_mask,
            flag_value,
        },
    };
    validate_arm_capture(&capture)?;
    Ok(capture)
}

pub fn decode_capture_id(reader: &mut PayloadReader) -> (r: Result<u32, ProtocolError>)
    requires
        old(reader).wf(),
    ensures
        final(reader).wf(),
        final(reader).data() == old(reader).data(),
        match parse_capture_id(old(reader).data(), old(reader).pos()) {
            Some((c, q)) => r == Ok::<u32, ProtocolError>(c) && final(reader).pos() == q,
            None => r is Err,
        },
{
    reader.u32()
}

pub fn encode_capture_status(status: &CaptureStatus, bytes: &mut Vec<u8>)
    ensures
        final(bytes)@ == old(bytes)@ + enc_status(*status),
{
    let ghost start = bytes@;
    put_u32(bytes, status.capture_id);
    bytes.push(status.state.code());
    bytes.push(0);
    bytes.push(0);
    bytes.push(0);
    put_u32(bytes, status.captured_rows);
    put_u32(bytes, status.dropped_rows);
    assert(bytes@ =~= start + enc_status(*status));
}

pub fn decode_capture_status(reader: &mut PayloadReader) -> (r: Result<CaptureStatus, ProtocolError>)
    requires
        old(reader).wf(),
    ensures
        final(reader).wf(),
        final(reader).data() == old(reader).data(),
        match parse_status(old(reader).data(), old(reader).pos()) {
            Some((c, q)) => r == Ok::<CaptureStatus, ProtocolError>(c) && final(reader).pos() == q,
            None => r is Err,
        },
{
    let ghost s = reader.data();
    let ghost p = reader.pos();
    let capture_id = reader.u32()?;
    let state = CaptureState::from_code(reader.u8()?)?;
    let reserved = reader.bytes(3)?;
    if reserved[0] != 0 || reserved[1] != 0 || reserved[2] != 0 {
        return Err(invalid_error("CAPTURE_STATUS reserved bytes must be zero"));
    }
    assert(reserved@[0] == s[p + 5] && reserved@[1] == s[p + 6] && reserved@[2] == s[p + 7]);
    let captured_rows = reader.u32()?;
    let dropped_rows = reader.u32()?;
    Ok(CaptureStatus { capture_id, state, captured_rows, dropped_rows })
}

pub fn encode_capture_begin(begin: &CaptureBegin, bytes: &mut Vec<u8>)
    ensures
        final(bytes)@ == old(bytes)@ + enc_begin(*begin),
{
    let ghost start = bytes@;
    put_u32(bytes, begin.capture_id);
    put_u16(bytes, begin.stream_id);
    put_u16(bytes, 0);
    put_u32(bytes, begin.row_count);
    put_u64(bytes, begin.trigger_row_seq);
    assert(bytes@ =~= start + enc_begin(*begin));
}

pub fn decode_capture_begin(reader: &mut PayloadReader) -> (r: Result<CaptureBegin, ProtocolError>)
    requires
        old(reader).wf(),
    ensures
        final(reader).wf(),
        final(reader).data() == old(reader).data(),
        match parse_begin(old(reader).data(), old(reader).pos()) {
            Some((c, q)) => r == Ok::<CaptureBegin, ProtocolError>(c) && final(reader).pos() == q,
            None => r is Err,
        },
{
    let capture_id = reader.u32()?;
    let stream_id = reader.u16()?;
    let reserved = reader.u16()?;
    if reserved != 0 {
        return Err(invalid_error("CAPTURE_BEGIN reserved field must be zero"));
    }
    let row_count = reader.u32()?;
    if row_count == 0 || row_count > MAX_CAPTURE_ROWS {
        return Err(invalid_error("capture row count is outside the allowed range"));
    }
    let trigger_row_seq = reader.u64()?;
    Ok(CaptureBegin { capture_id, stream_id, row_count, trigger_row_seq })
}

pub fn encode_capture_end(end: &CaptureEnd, bytes: &mut Vec<u8>)
    ensures
        final(bytes)@ == old(bytes)@ + enc_end(*end),
{
    let ghost start = bytes@;
    put_u32(bytes, end.capture_id);
    bytes.push(end.state.code());
    bytes.push(0);
    bytes.push(0);
    bytes.push(0);
    put_u32(bytes, end.uploaded_rows);
    put_u32(bytes, end.dropped_rows);
    put_u32(bytes, end.total_blocks);
    put_u32(bytes, end.total_samples);
    put_u32(bytes, end.integrity_summary);
    assert(bytes@ =~= start + enc_end(*end));
}

pub fn decode_capture_end(reader: &mut PayloadReader) -> (r: Result<CaptureEnd, ProtocolError>)
    requires
        old(reader).wf(),
    ensures
        final(reader).wf(),
        final(reader).data() == old(reader).data(),
        match parse_end(old(reader).data(), old(reader).pos()) {
            Some((c, q)) => r == Ok::<CaptureEnd, ProtocolError>(c) && final(reader).pos() == q,
            None => r is Err,
        },
{
    let ghost s = reader.data();
    let ghost p = reader.pos();
    let capture_id = reader.u32()?;
    let state = CaptureState::from_code(reader.u8()?)?;
    let reserved = reader.bytes(3)?;
    if reserved[0] != 0 || reserved[1] != 0 || reserved[2] != 0 {
        return Err(invalid_error("CAPTURE_END reserved bytes must be zero"));
    }
    assert(reserved@[0] == s[p + 5] && reserved@[1] == s[p + 6] && reserved@[2] == s[p + 7]);
    let uploaded_rows = reader.u32()?;
    let dropped_rows = reader.u32()?;
    let total_blocks = reader.u32()?;
    let total_samples = reader.u32()?;
    let integrity_summary = reader.u32()?;
    Ok(
        CaptureEnd {
            capture_id,
            state,
            uploaded_rows,
            dropped_rows,
            total_blocks,
            total_samples,
            integrity_summary,
        },
    )
}

} // verus!
