//! SCP1 V2 stream semantics: fixed-rate sampling domains, the stream table
//! that binds every channel to exactly one stream, and causal relations
//! between CPU and CLA pipelines.

use vstd::prelude::*;

use crate::protocol::{
    channel_table_valid, invalid_error, lookup_channel, spec_byte_width, ChannelDescriptor,
    ChannelTable, ProtocolError, MAX_BATCH_SAMPLES, MAX_CHANNEL_COUNT, MAX_PAYLOAD_LEN,
};
use crate::snapshot::{
    SnapshotMeta, ADC_SAMPLE_VALID, APPLIED_SEQUENCE_VALID, CLA_RESULT_VALID, FROZEN_ROW, SNAPSHOT_KNOWN_FLAGS,
    SOURCE_SEQUENCE_VALID,
};

pub use crate::capture_v2::{
    ArmCapture, CancelCapture, CaptureBegin, CaptureEdge, CaptureEnd, CaptureState, CaptureStatus, CaptureTrigger,
    CaptureTriggerKind, ManualTrigger,
};
pub use crate::messages_v2::{capture_integrity_summary, CaptureData, MessageV2, StreamSampleBatch};

verus! {

/// Advertised in the HELLO / HELLO_ACK capability bitfield.
pub const CAPABILITY_V2_STREAMS: u32 = 8;

pub const MSG_STREAM_TABLE: u8 = 0x30;

pub const MSG_CONFIGURE_STREAM: u8 = 0x31;

/// Message number of the first-revision CONFIGURE_STREAM.
pub const MSG_CONFIGURE_STREAM_R1: u8 = 0x31;

pub const MSG_SAMPLE_BATCH_V2: u8 = 0x32;

/// Compatibility name retained for the initial V2 foundation.
pub const MSG_STREAM_SAMPLE_BATCH: u8 = 0x32;

pub const MSG_ARM_CAPTURE: u8 = 0x40;

pub const MSG_MANUAL_TRIGGER: u8 = 0x41;

pub const MSG_CANCEL_CAPTURE: u8 = 0x42;

pub const MSG_CAPTURE_STATUS: u8 = 0x43;

pub const MSG_CAPTURE_BEGIN: u8 = 0x44;

pub const MSG_CAPTURE_DATA: u8 = 0x45;

pub const MSG_CAPTURE_END: u8 = 0x46;

pub const MAX_STREAM_COUNT: usize = 64;

pub const MAX_CAUSAL_RELATION_COUNT: usize = 64;

pub const MAX_CAPTURE_ROWS: u32 = 1048576;

/// Capture limits are protocol constants: malformed or hostile uploads are
/// refused before their advertised amount of memory is allocated.
pub const MAX_CAPTURE_BLOCKS: u32 = 4096;

pub const MAX_CAPTURE_BLOCK_ROWS: u16 = 4096;

pub const MAX_CAPTURE_PAYLOAD_BYTES: usize = 67108864;

// ---------------------------------------------------------------------------
// Enumerations with frozen wire codes
// ---------------------------------------------------------------------------

#[derive(Clone, Copy, Debug, PartialEq, Eq, Structural)]
pub enum SampleDomain {
    Fast32k,
    Control8k,
    Slow1k,
}

#[derive(Clone, Copy, Debug, PartialEq, Eq, Structural)]
pub enum CapturePhase {
    AfterClaComplete,
    ControlCycleEnd,
    LogicTaskEnd,
}

/// DSP execution unit responsible for a V2 channel.
#[derive(Clone, Copy, Debug, PartialEq, Eq, Structural)]
pub enum SignalOwner {
    Cpu1,
    Cpu1Cla1,
    Cpu2,
}

#[derive(Clone, Copy, Debug, PartialEq, Eq, Structural)]
pub enum SignalRole {
    PhysicalSample,
    ControlInput,
    ControlOutput,
    Command,
    AppliedCommand,
    State,
    Fault,
    Diagnostic,
    Metadata,
}

impl SampleDomain {
    pub open spec fn spec_rate(self) -> u32 {
        match self {
            SampleDomain::Fast32k => 32000,
            SampleDomain::Control8k => 8000,
            SampleDomain::Slow1k => 1000,
        }
    }

    pub open spec fn spec_phase(self) -> CapturePhase {
        match self {
            SampleDomain::Fast32k => CapturePhase::AfterClaComplete,
            SampleDomain::Control8k => CapturePhase::ControlCycleEnd,
            SampleDomain::Slow1k => CapturePhase::LogicTaskEnd,
        }
    }

    pub open spec fn spec_code(self) -> u8 {
        match self {
            SampleDomain::Fast32k => 0,
            SampleDomain::Control8k => 1,
            SampleDomain::Slow1k => 2,
        }
    }

    pub open spec fn spec_from_code(b: u8) -> Option<SampleDomain> {
        if b == 0 {
            Some(SampleDomain::Fast32k)
        } else if b == 1 {
            Some(SampleDomain::Control8k)
        } else if b == 2 {
            Some(SampleDomain::Slow1k)
        } else {
            None
        }
    }

    /// The frozen sampling rate of the domain.
    pub fn fixed_sample_rate_hz(self) -> (r: u32)
        ensures
            r == self.spec_rate(),
    {
        match self {
            SampleDomain::Fast32k => 32000,
            SampleDomain::Control8k => 8000,
            SampleDomain::Slow1k => 1000,
        }
    }

    /// The frozen capture phase of the domain.
    pub fn fixed_capture_phase(self) -> (r: CapturePhase)
        ensures
            r == self.spec_phase(),
    {
        match self {
            SampleDomain::Fast32k => CapturePhase::AfterClaComplete,
            SampleDomain::Control8k => CapturePhase::ControlCycleEnd,
            SampleDomain::Slow1k => CapturePhase::LogicTaskEnd,
        }
    }

    pub fn code(self) -> (r: u8)
        ensures
            r == self.spec_code(),
    {
        match self {
            SampleDomain::Fast32k => 0,
            SampleDomain::Control8k => 1,
            SampleDomain::Slow1k => 2,
        }
    }

    pub fn from_code(value: u8) -> (r: Result<SampleDomain, ProtocolError>)
        ensures
            match Self::spec_from_code(value) {
                Some(d) => r == Ok::<SampleDomain, ProtocolError>(d),
                None => r matches Err(e) && e is InvalidPayload,
            },
    {
        match value {
            0 => Ok(SampleDomain::Fast32k),
            1 => Ok(SampleDomain::Control8k),
            2 => Ok(SampleDomain::Slow1k),
            _ => Err(invalid_error("unknown sample domain")),
        }
    }
}

impl CapturePhase {
    pub open spec fn spec_code(self) -> u8 {
        match self {
            CapturePhase::AfterClaComplete => 0,
            CapturePhase::ControlCycleEnd => 1,
            CapturePhase::LogicTaskEnd => 2,
        }
    }

    pub open spec fn spec_from_code(b: u8) -> Option<CapturePhase> {
        if b == 0 {
            Some(CapturePhase::AfterClaComplete)
        } else if b == 1 {
            Some(CapturePhase::ControlCycleEnd)
        } else if b == 2 {
            Some(CapturePhase::LogicTaskEnd)
        } else {
            None
        }
    }

    pub fn code(self) -> (r: u8)
        ensures
            r == self.spec_code(),
    {
        match self {
            CapturePhase::AfterClaComplete => 0,
            CapturePhase::ControlCycleEnd => 1,
            CapturePhase::LogicTaskEnd => 2,
        }
    }

    pub fn from_code(value: u8) -> (r: Result<CapturePhase, ProtocolError>)
        ensures
            match Self::spec_from_code(value) {
                Some(d) => r == Ok::<CapturePhase, ProtocolError>(d),
                None => r matches Err(e) && e is InvalidPayload,
            },
    {
        match value {
            0 => Ok(CapturePhase::AfterClaComplete),
            1 => Ok(CapturePhase::ControlCycleEnd),
            2 => Ok(CapturePhase::LogicTaskEnd),
            _ => Err(invalid_error("unknown capture phase")),
        }
    }
}

impl SignalOwner {
    pub open spec fn spec_code(self) -> u8 {
        match self {
            SignalOwner::Cpu1 => 0,
            SignalOwner::Cpu1Cla1 => 1,
            SignalOwner::Cpu2 => 2,
        }
    }

    pub open spec fn spec_from_code(b: u8) -> Option<SignalOwner> {
        if b == 0 {
            Some(SignalOwner::Cpu1)
        } else if b == 1 {
            Some(SignalOwner::Cpu1Cla1)
        } else if b == 2 {
            Some(SignalOwner::Cpu2)
        } else {
            None
        }
    }

    pub fn code(self) -> (r: u8)
        ensures
            r == self.spec_code(),
    {
        match self {
            SignalOwner::Cpu1 => 0,
            SignalOwner::Cpu1Cla1 => 1,
            SignalOwner::Cpu2 => 2,
        }
    }

    pub fn from_code(value: u8) -> (r: Result<SignalOwner, ProtocolError>)
        ensures
            match Self::spec_from_code(value) {
                Some(d) => r == Ok::<SignalOwner, ProtocolError>(d),
                None => r matches Err(e) && e is InvalidPayload,
            },
    {
        match value {
            0 => Ok(SignalOwner::Cpu1),
            1 => Ok(SignalOwner::Cpu1Cla1),
            2 => Ok(SignalOwner::Cpu2),
            _ => Err(invalid_error("unknown signal owner")),
        }
    }
}

impl SignalRole {
    pub open spec fn spec_code(self) -> u8 {
        match self {
            SignalRole::PhysicalSample => 0,
            SignalRole::ControlInput => 1,
            SignalRole::ControlOutput => 2,
            SignalRole::Command => 3,
            SignalRole::AppliedCommand => 4,
            SignalRole::State => 5,
            SignalRole::Fault => 6,
            SignalRole::Diagnostic => 7,
            SignalRole::Metadata => 8,
        }
    }

    pub open spec fn spec_from_code(b: u8) -> Option<SignalRole> {
        if b == 0 {
            Some(SignalRole::PhysicalSample)
        } else if b == 1 {
            Some(SignalRole::ControlInput)
        } else if b == 2 {
            Some(SignalRole::ControlOutput)
        } else if b == 3 {
            Some(SignalRole::Command)
        } else if b == 4 {
            Some(SignalRole::AppliedCommand)
        } else if b == 5 {
            Some(SignalRole::State)
        } else if b == 6 {
            Some(SignalRole::Fault)
        } else if b == 7 {
            Some(SignalRole::Diagnostic)
        } else if b == 8 {
            Some(SignalRole::Metadata)
        } else {
            None
        }
    }

    pub fn code(self) -> (r: u8)
        ensures
            r == self.spec_code(),
    {
        match self {
            SignalRole::PhysicalSample => 0,
            SignalRole::ControlInput => 1,
            SignalRole::ControlOutput => 2,
            SignalRole::Command => 3,
            SignalRole::AppliedCommand => 4,
            SignalRole::State => 5,
            SignalRole::Fault => 6,
            SignalRole::Diagnostic => 7,
            SignalRole::Metadata => 8,
        }
    }

    pub fn from_code(value: u8) -> (r: Result<SignalRole, ProtocolError>)
        ensures
            match Self::spec_from_code(value) {
                Some(d) => r == Ok::<SignalRole, ProtocolError>(d),
                None => r matches Err(e) && e is InvalidPayload,
            },
    {
        match value {
            0 => Ok(SignalRole::PhysicalSample),
            1 => Ok(SignalRole::ControlInput),
            2 => Ok(SignalRole::ControlOutput),
            3 => Ok(SignalRole::Command),
            4 => Ok(SignalRole::AppliedCommand),
            5 => Ok(SignalRole::State),
            6 => Ok(SignalRole::Fault),
            7 => Ok(SignalRole::Diagnostic),
            8 => Ok(SignalRole::Metadata),
            _ => Err(invalid_error("unknown signal role")),
        }
    }
}

// ---------------------------------------------------------------------------
// Stream table
// ---------------------------------------------------------------------------

/// One stream has exactly one sampling domain, frequency, and capture phase.
#[derive(Clone, Debug, PartialEq, Eq)]
pub struct StreamDescriptor {
    pub stream_id: u16,
    pub domain: SampleDomain,
    pub capture_phase: CapturePhase,
    pub sample_rate_hz: u32,
    /// Non-zero logical control-cycle namespace used to correlate causal indices.
    pub consistency_group: u16,
    pub channel_ids: Vec<u16>,
}

pub struct StreamDescriptorV {
    pub stream_id: u16,
    pub domain: SampleDomain,
    pub capture_phase: CapturePhase,
    pub sample_rate_hz: u32,
    pub consistency_group: u16,
    pub channel_ids: Seq<u16>,
}

impl View for StreamDescriptor {
    type V = StreamDescriptorV;

    open spec fn view(&self) -> StreamDescriptorV {
        StreamDescriptorV {
            stream_id: self.stream_id,
            domain: self.domain,
            capture_phase: self.capture_phase,
            sample_rate_hz: self.sample_rate_hz,
            consistency_group: self.consistency_group,
            channel_ids: self.channel_ids@,
        }
    }
}

/// Binds every real-time channel to one, and only one, V2 stream.
#[derive(Clone, Copy, Debug, PartialEq, Eq, Structural)]
pub struct StreamChannelBinding {
    pub channel_id: u16,
    pub stream_id: u16,
    pub owner: SignalOwner,
    pub role: SignalRole,
}

/// Declares a CPU/CLA causal pipeline in one consistency group.  Offsets use
/// the logical control-cycle index: `(0, 1)` means a result uses input cycle N
/// and CPU1 applies that result in cycle N+1.
#[derive(Clone, Copy, Debug, PartialEq, Eq, Structural)]
pub struct CausalRelation {
    pub input_stream_id: u16,
    pub result_stream_id: u16,
    pub application_stream_id: u16,
    pub result_input_offset: i16,
    pub application_result_offset: i16,
}

#[derive(Clone, Debug, PartialEq, Eq)]
pub struct StreamTable {
    pub revision: u32,
    pub streams: Vec<StreamDescriptor>,
    pub bindings: Vec<StreamChannelBinding>,
    pub causal_relations: Vec<CausalRelation>,
}

pub struct StreamTableV {
    pub revision: u32,
    pub streams: Seq<StreamDescriptorV>,
    pub bindings: Seq<StreamChannelBinding>,
    pub causal_relations: Seq<CausalRelation>,
}

pub open spec fn stream_views(s: Seq<StreamDescriptor>) -> Seq<StreamDescriptorV> {
    s.map_values(|d: StreamDescriptor| d@)
}

impl View for StreamTable {
    type V = StreamTableV;

    open spec fn view(&self) -> StreamTableV {
        StreamTableV {
            revision: self.revision,
            streams: stream_views(self.streams@),
            bindings: self.bindings@,
            causal_relations: self.causal_relations@,
        }
    }
}

/// First stream with id `id`.
pub open spec fn lookup_stream(s: Seq<StreamDescriptorV>, id: u16) -> Option<StreamDescriptorV>
    decreases s.len(),
{
    if s.len() == 0 {
        None
    } else if s[0].stream_id == id {
        Some(s[0])
    } else {
        lookup_stream(s.drop_first(), id)
    }
}

/// First binding of channel `id`.
pub open spec fn lookup_binding(s: Seq<StreamChannelBinding>, id: u16) -> Option<
    StreamChannelBinding,
>
    decreases s.len(),
{
    if s.len() == 0 {
        None
    } else if s[0].channel_id == id {
        Some(s[0])
    } else {
        lookup_binding(s.drop_first(), id)
    }
}

pub proof fn lemma_lookup_stream(s: Seq<StreamDescriptorV>, id: u16)
    ensures
        lookup_stream(s, id) is Some <==> exists|i: int| 0 <= i < s.len() && s[i].stream_id == id,
        lookup_stream(s, id) matches Some(d) ==> d.stream_id == id && exists|i: int|
            0 <= i < s.len() && s[i] == d,
    decreases s.len(),
{
    if s.len() > 0 {
        lemma_lookup_stream(s.drop_first(), id);
        if s[0].stream_id != id {
            if exists|i: int| 0 <= i < s.len() && s[i].stream_id == id {
                let i = choose|i: int| 0 <= i < s.len() && s[i].stream_id == id;
                assert(s.drop_first()[i - 1].stream_id == id);
            }
            if lookup_stream(s, id) is Some {
                let d = lookup_stream(s, id)->Some_0;
                let k = choose|k: int| 0 <= k < s.drop_first().len() && s.drop_first()[k] == d;
                assert(s[k + 1] == d);
            }
        }
    }
}

pub proof fn lemma_lookup_binding(s: Seq<StreamChannelBinding>, id: u16)
    ensures
        lookup_binding(s, id) is Some <==> exists|i: int|
            0 <= i < s.len() && s[i].channel_id == id,
        lookup_binding(s, id) matches Some(b) ==> b.channel_id == id && s.contains(b),
    decreases s.len(),
{
    if s.len() > 0 {
        lemma_lookup_binding(s.drop_first(), id);
        if s[0].channel_id != id {
            if exists|i: int| 0 <= i < s.len() && s[i].channel_id == id {
                let i = choose|i: int| 0 <= i < s.len() && s[i].channel_id == id;
                assert(s.drop_first()[i - 1].channel_id == id);
            }
            if lookup_binding(s, id) is Some {
                let b = lookup_binding(s, id)->Some_0;
                let k = choose|k: int| 0 <= k < s.drop_first().len() && s.drop_first()[k] == b;
                assert(s[k + 1] == b);
            }
        } else {
            assert(s.contains(s[0]));
        }
    }
}

/// A well-formed stream descriptor.
pub open spec fn descriptor_ok(d: StreamDescriptorV) -> bool {
    &&& d.stream_id != 0
    &&& d.consistency_group != 0
    &&& d.sample_rate_hz == d.domain.spec_rate()
    &&& d.capture_phase == d.domain.spec_phase()
    &&& d.channel_ids.len() >= 1
    &&& forall|k: int| 0 <= k < d.channel_ids.len() ==> (d.channel_ids[k] as int) < MAX_CHANNEL_COUNT
    &&& forall|k: int, l: int| 0 <= k < l < d.channel_ids.len() ==> d.channel_ids[k] != d.channel_ids[l]
}

/// Descriptors are individually well formed, ids are distinct, and no
/// channel appears in two descriptors.
pub open spec fn streams_ok(s: Seq<StreamDescriptorV>) -> bool {
    &&& forall|i: int| 0 <= i < s.len() ==> descriptor_ok(#[trigger] s[i])
    &&& forall|i: int, j: int| 0 <= i < j < s.len() ==> s[i].stream_id != s[j].stream_id
    &&& forall|i: int, j: int, c: u16|
        0 <= i < j < s.len() && (#[trigger] s[i].channel_ids.contains(c)) ==> !(
        #[trigger] s[j].channel_ids.contains(c))
}

/// Every binding names a distinct in-range channel and an existing stream.
pub open spec fn bindings_ok(s: Seq<StreamDescriptorV>, b: Seq<StreamChannelBinding>) -> bool {
    &&& forall|i: int| 0 <= i < b.len() ==> (#[trigger] b[i].channel_id as int) < MAX_CHANNEL_COUNT
    &&& forall|i: int, j: int| 0 <= i < j < b.len() ==> b[i].channel_id != b[j].channel_id
    &&& forall|i: int| 0 <= i < b.len() ==> (#[trigger] lookup_stream(s, b[i].stream_id)) is Some
}

/// The channels a binding list assigns to stream `id`.
pub open spec fn bound_to(b: Seq<StreamChannelBinding>, id: u16, c: u16) -> bool {
    exists|m: int| 0 <= m < b.len() && b[m].stream_id == id && b[m].channel_id == c
}

/// Each descriptor lists exactly the channels bound to it.
pub open spec fn binding_sets_ok(s: Seq<StreamDescriptorV>, b: Seq<StreamChannelBinding>) -> bool {
    forall|i: int, c: u16|
        0 <= i < s.len() ==> ((#[trigger] s[i].channel_ids.contains(c)) <==> #[trigger] bound_to(
            b,
            s[i].stream_id,
            c,
        ))
}

/// One causal relation references three existing streams of one consistency
/// group, with a result stream distinct from the input and application.
pub open spec fn relation_ok(s: Seq<StreamDescriptorV>, r: CausalRelation) -> bool {
    &&& lookup_stream(s, r.input_stream_id) is Some
    &&& lookup_stream(s, r.result_stream_id) is Some
    &&& lookup_stream(s, r.application_stream_id) is Some
    &&& r.input_stream_id != r.result_stream_id
    &&& r.result_stream_id != r.application_stream_id
    &&& lookup_stream(s, r.input_stream_id)->Some_0.consistency_group == lookup_stream(
        s,
        r.result_stream_id,
    )->Some_0.consistency_group
    &&& lookup_stream(s, r.result_stream_id)->Some_0.consistency_group == lookup_stream(
        s,
        r.application_stream_id,
    )->Some_0.consistency_group
}

/// Relations are individually valid and each result stream is defined by
/// at most one relation (which also rules out duplicate relations).
pub open spec fn relations_ok(s: Seq<StreamDescriptorV>, r: Seq<CausalRelation>) -> bool {
    &&& forall|i: int| 0 <= i < r.len() ==> relation_ok(s, #[trigger] r[i])
    &&& forall|i: int, j: int| 0 <= i < j < r.len() ==> r[i].result_stream_id != r[j].result_stream_id
}

/// The stream tables `StreamTable::validate` accepts.
pub open spec fn stream_table_valid(t: StreamTableV) -> bool {
    &&& 1 <= t.streams.len() <= MAX_STREAM_COUNT
    &&& 1 <= t.bindings.len() <= MAX_CHANNEL_COUNT
    &&& t.causal_relations.len() <= MAX_CAUSAL_RELATION_COUNT
    &&& streams_ok(t.streams)
    &&& bindings_ok(t.streams, t.bindings)
    &&& binding_sets_ok(t.streams, t.bindings)
    &&& relations_ok(t.streams, t.causal_relations)
}

/// Bit `c` of a channel mask.
pub open spec fn has_bit(m: u64, c: u64) -> bool {
    (m >> c) & 1 == 1
}

pub proof fn lemma_set_bit(m: u64, c: u64, d: u64)
    requires
        c < 64,
        d < 64,
    ensures
        has_bit(m | (1u64 << c), d) == (d == c || has_bit(m, d)),
{
    assert(((m | (1u64 << c)) >> d) & 1 == 1 <==> (d == c || (m >> d) & 1 == 1)) by (bit_vector)
        requires
            c < 64,
            d < 64,
    ;
}

pub proof fn lemma_no_bits(d: u64)
    requires
        d < 64,
    ensures
        !has_bit(0, d),
{
    assert((0u64 >> d) & 1 != 1) by (bit_vector);
}

pub proof fn lemma_test_bit(m: u64, c: u64)
    requires
        c < 64,
    ensures
        (m & (1u64 << c) != 0) == has_bit(m, c),
{
    assert((m & (1u64 << c) != 0) == ((m >> c) & 1 == 1)) by (bit_vector)
        requires
            c < 64,
    ;
}

/// Checks `minimum <= value <= maximum`.
pub fn validate_count(value: usize, minimum: usize, maximum: usize, label: &str) -> (r: Result<
    (),
    ProtocolError,
>)
    ensures
        r is Ok <==> minimum <= value <= maximum,
        r matches Err(e) ==> e is InvalidPayload,
{
    if value < minimum || value > maximum {
        return Err(invalid_error(label));
    }
    Ok(())
}

pub(crate) fn contains_u16(v: &Vec<u16>, x: u16) -> (r: bool)
    ensures
        r == v@.contains(x),
{
    let mut i: usize = 0;
    while i < v.len()
        invariant
            i <= v@.len(),
            forall|k: int| 0 <= k < i ==> v@[k] != x,
        decreases v.len() - i,
    {
        if v[i] == x {
            return true;
        }
        i = i + 1;
    }
    false
}

/// Mask of the channels in `ids` (all of which are below 64).
fn channel_mask_of(ids: &Vec<u16>) -> (m: u64)
    requires
        forall|k: int| 0 <= k < ids@.len() ==> (ids@[k] as int) < 64,
    ensures
        forall|d: u64| d < 64 ==> (has_bit(m, d) <==> ids@.contains(d as u16)),
{
    let mut m: u64 = 0;
    let mut k: usize = 0;
    proof {
        assert forall|d: u64| d < 64 implies !has_bit(m, d) by {
            lemma_no_bits(d);
        }
    }
    while k < ids.len()
        invariant
            k <= ids@.len(),
            forall|k2: int| 0 <= k2 < ids@.len() ==> (ids@[k2] as int) < 64,
            forall|d: u64| d < 64 ==> (has_bit(m, d) <==> ids@.subrange(0, k as int).contains(
                d as u16,
            )),
        decreases ids.len() - k,
    {
        let c = ids[k];
        let ghost old_m = m;
        m = m | (1u64 << c);
        proof {
            assert forall|d: u64| d < 64 implies (has_bit(m, d) <==> ids@.subrange(
                0,
                k + 1,
            ).contains(d as u16)) by {
                lemma_set_bit(old_m, c as u64, d);
                let sub = ids@.subrange(0, k as int);
                let sub1 = ids@.subrange(0, k + 1);
                assert(sub1 =~= sub.push(c));
                if sub1.contains(d as u16) {
                    let w = choose|w: int| 0 <= w < sub1.len() && sub1[w] == d as u16;
                    if w < k {
                        assert(sub[w] == d as u16);
                    }
                }
                if sub.contains(d as u16) {
                    let w = choose|w: int| 0 <= w < sub.len() && sub[w] == d as u16;
                    assert(sub1[w] == d as u16);
                }
                if d == c as u64 {
                    assert(sub1[k as int] == d as u16);
                }
            }
        }
        k = k + 1;
    }
    assert(ids@.subrange(0, ids@.len() as int) =~= ids@);
    m
}

impl StreamTable {
    /// The first stream with id `stream_id`.
    pub fn stream(&self, stream_id: u16) -> (r: Option<&StreamDescriptor>)
        ensures
            match lookup_stream(self@.streams, stream_id) {
                Some(d) => r matches Some(x) && x@ == d,
                None => r is None,
            },
    {
        let mut i: usize = 0;
        assert(self@.streams.subrange(0, self@.streams.len() as int) =~= self@.streams);
        while i < self.streams.len()
            invariant
                i <= self.streams@.len(),
                self@.streams.len() == self.streams@.len(),
                lookup_stream(self@.streams, stream_id) == lookup_stream(
                    self@.streams.subrange(i as int, self@.streams.len() as int),
                    stream_id,
                ),
            decreases self.streams.len() - i,
        {
            let ghost rest = self@.streams.subrange(i as int, self@.streams.len() as int);
            assert(rest[0] == self.streams@[i as int]@);
            if self.streams[i].stream_id == stream_id {
                return Some(&self.streams[i]);
            }
            assert(rest.drop_first() =~= self@.streams.subrange(
                i + 1,
                self@.streams.len() as int,
            ));
            i = i + 1;
        }
        None
    }

    /// The first binding of channel `channel_id`.
    pub fn binding(&self, channel_id: u16) -> (r: Option<&StreamChannelBinding>)
        ensures
            match lookup_binding(self.bindings@, channel_id) {
                Some(b) => r == Some(&b),
                None => r is None,
            },
    {
        let mut i: usize = 0;
        assert(self.bindings@.subrange(0, self.bindings@.len() as int) =~= self.bindings@);
        while i < self.bindings.len()
            invariant
                i <= self.bindings@.len(),
                lookup_binding(self.bindings@, channel_id) == lookup_binding(
                    self.bindings@.subrange(i as int, self.bindings@.len() as int),
                    channel_id,
                ),
            decreases self.bindings.len() - i,
        {
            let ghost rest = self.bindings@.subrange(i as int, self.bindings@.len() as int);
            if self.bindings[i].channel_id == channel_id {
                return Some(&self.bindings[i]);
            }
            assert(rest.drop_first() =~= self.bindings@.subrange(
                i + 1,
                self.bindings@.len() as int,
            ));
            i = i + 1;
        }
        None
    }

    fn validate_streams(&self) -> (r: Result<(), ProtocolError>)
        ensures
            r is Ok <==> streams_ok(self@.streams),
            r matches Err(e) ==> e is InvalidPayload,
    {
        let ghost s = self@.streams;
        let n = self.streams.len();
        let mut all: u64 = 0;
        let mut i: usize = 0;
        proof {
            assert forall|d: u64| d < 64 implies !has_bit(all, d) by {
                lemma_no_bits(d);
            }
        }
        while i < n
            invariant
                n == self.streams@.len(),
                s == self@.streams,
                s.len() == n,
                i <= n,
                forall|a: int| 0 <= a < i ==> descriptor_ok(#[trigger] s[a]),
                forall|a: int, b: int| 0 <= a < b < i ==> s[a].stream_id != s[b].stream_id,
                forall|a: int, b: int, c: u16|
                    0 <= a < b < i && (#[trigger] s[a].channel_ids.contains(c)) ==> !(
                    #[trigger] s[b].channel_ids.contains(c)),
                forall|d: u64|
                    d < 64 ==> (has_bit(all, d) <==> exists|a: int|
                        0 <= a < i && (#[trigger] s[a].channel_ids.contains(d as u16))),
            decreases n - i,
        {
            let stream = &self.streams[i];
            assert(s[i as int] == stream@);
            if stream.stream_id == 0 {
                return Err(invalid_error("stream id must be non-zero"));
            }
            let mut j: usize = 0;
            while j < i
                invariant
                    n == self.streams@.len(),
                    s == self@.streams,
                    j <= i < n,
                    stream@ == s[i as int],
                    forall|b: int| 0 <= b < j ==> s[b].stream_id != stream.stream_id,
                decreases i - j,
            {
                assert(s[j as int] == self.streams@[j as int]@);
                if self.streams[j].stream_id == stream.stream_id {
                    return Err(invalid_error("duplicate stream id"));
                }
                j = j + 1;
            }
            if stream.consistency_group == 0 {
                return Err(invalid_error("stream must declare a non-zero consistency group"));
            }
            if stream.sample_rate_hz != stream.domain.fixed_sample_rate_hz() {
                return Err(invalid_error("stream rate does not match its sampling domain"));
            }
            if stream.capture_phase != stream.domain.fixed_capture_phase() {
                return Err(invalid_error("stream capture phase does not match its sampling domain"));
            }
            if stream.channel_ids.len() == 0 {
                return Err(invalid_error("stream has no channel ids"));
            }
            let ids = &stream.channel_ids;
            let mut local: u64 = 0;
            let mut k: usize = 0;
            let ghost all0 = all;
            proof {
                assert forall|d: u64| d < 64 implies !has_bit(local, d) by {
                    lemma_no_bits(d);
                }
            }
            while k < ids.len()
                invariant
                    n == self.streams@.len(),
                    s == self@.streams,
                    i < n,
                    stream@ == s[i as int],
                    ids@ == s[i as int].channel_ids,
                    k <= ids@.len(),
                    forall|a: int| 0 <= a < k ==> (ids@[a] as int) < MAX_CHANNEL_COUNT,
                    forall|a: int, b: int| 0 <= a < b < k ==> ids@[a] != ids@[b],
                    forall|a: int, c: u16|
                        0 <= a < i && (#[trigger] s[a].channel_ids.contains(c))
                            && ids@.subrange(0, k as int).contains(c) ==> false,
                    forall|d: u64|
                        d < 64 ==> (has_bit(local, d) <==> ids@.subrange(0, k as int).contains(
                            d as u16,
                        )),
                    forall|d: u64|
                        d < 64 ==> (has_bit(all0, d) <==> exists|a: int|
                            0 <= a < i && (#[trigger] s[a].channel_ids.contains(d as u16))),
                    forall|d: u64|
                        d < 64 ==> (has_bit(all, d) <==> (has_bit(all0, d)
                            || ids@.subrange(0, k as int).contains(d as u16))),
                decreases ids.len() - k,
            {
                let c = ids[k];
                let ghost sub = ids@.subrange(0, k as int);
                let ghost sub1 = ids@.subrange(0, k + 1);
                assert(sub1 =~= sub.push(c));
                if c as usize >= MAX_CHANNEL_COUNT {
                    return Err(invalid_error("stream channel id is out of range"));
                }
                proof {
                    lemma_test_bit(local, c as u64);
                    lemma_test_bit(all, c as u64);
                }
                if local & (1u64 << c) != 0 {
                    proof {
                        let w = choose|w: int| 0 <= w < sub.len() && sub[w] == c;
                        assert(ids@[w] == ids@[k as int]);
                    }
                    return Err(invalid_error("stream repeats a channel"));
                }
                if all & (1u64 << c) != 0 {
                    proof {
                        assert(!sub.contains(c));
                        let a = choose|a: int|
                            0 <= a < i && (#[trigger] s[a].channel_ids.contains(c as u64 as u16));
                        assert(s[i as int].channel_ids[k as int] == c);
                        assert(s[i as int].channel_ids.contains(c));
                    }
                    return Err(invalid_error("channel appears in more than one stream descriptor"));
                }
                let ghost old_local = local;
                let ghost old_all = all;
                local = local | (1u64 << c);
                all = all | (1u64 << c);
                proof {
                    assert forall|a: int| 0 <= a < k + 1 implies (ids@[a] as int) < MAX_CHANNEL_COUNT by {}
                    assert forall|a: int, b: int| 0 <= a < b < k + 1 implies ids@[a] != ids@[b] by {
                        if b == k {
                            assert(sub[a] == ids@[a]);
                            assert(sub.contains(ids@[a]));
                            lemma_test_bit(old_local, ids@[a] as u64);
                        }
                    }
                    assert forall|a: int, c2: u16|
                        0 <= a < i && (#[trigger] s[a].channel_ids.contains(c2)) && sub1.contains(c2)
                    implies false by {
                        let w = choose|w: int| 0 <= w < sub1.len() && sub1[w] == c2;
                        if w < k {
                            assert(sub[w] == c2);
                            assert(sub.contains(c2));
                        } else {
                            assert(c2 == c);
                            assert(has_bit(all0, c as u64)) by {
                                assert(s[a].channel_ids.contains(c as u64 as u16));
                            }
                        }
                    }
                    assert forall|d: u64| d < 64 implies (has_bit(local, d) <==> sub1.contains(d as u16)) by {
                        lemma_set_bit(old_local, c as u64, d);
                        if sub1.contains(d as u16) {
                            let w = choose|w: int| 0 <= w < sub1.len() && sub1[w] == d as u16;
                            if w < k {
                                assert(sub[w] == d as u16);
                            }
                        }
                        if sub.contains(d as u16) {
                            let w = choose|w: int| 0 <= w < sub.len() && sub[w] == d as u16;
                            assert(sub1[w] == d as u16);
                        }
                        if d == c as u64 {
                            assert(sub1[k as int] == d as u16);
                        }
                    }
                    assert forall|d: u64| d < 64 implies (has_bit(all, d) <==> (has_bit(all0, d)
                        || sub1.contains(d as u16))) by {
                        lemma_set_bit(old_all, c as u64, d);
                        if sub1.contains(d as u16) {
                            let w = choose|w: int| 0 <= w < sub1.len() && sub1[w] == d as u16;
                            if w < k {
                                assert(sub[w] == d as u16);
                            }
                        }
                        if sub.contains(d as u16) {
                            let w = choose|w: int| 0 <= w < sub.len() && sub[w] == d as u16;
                            assert(sub1[w] == d as u16);
                        }
                        if d == c as u64 {
                            assert(sub1[k as int] == d as u16);
                        }
                    }
                }
                k = k + 1;
            }
            proof {
                assert(ids@.subrange(0, ids@.len() as int) =~= ids@);
                assert(descriptor_ok(s[i as int]));
                assert forall|a: int, b: int, c: u16|
                    0 <= a < b < i + 1 && (#[trigger] s[a].channel_ids.contains(c)) implies !(
                    #[trigger] s[b].channel_ids.contains(c)) by {
                    if b == i {
                        if s[b].channel_ids.contains(c) {
                            assert(ids@.subrange(0, k as int).contains(c));
                        }
                    }
                }
                assert forall|d: u64| d < 64 implies (has_bit(all, d) <==> exists|a: int|
                    0 <= a < i + 1 && (#[trigger] s[a].channel_ids.contains(d as u16))) by {
                    if has_bit(all, d) {
                        if !has_bit(all0, d) {
                            assert(s[i as int].channel_ids.contains(d as u16));
                        }
                    }
                    if exists|a: int| 0 <= a < i + 1 && (#[trigger] s[a].channel_ids.contains(d as u16)) {
                        let a = choose|a: int| 0 <= a < i + 1 && (#[trigger] s[a].channel_ids.contains(d as u16));
                        if a < i {
                            assert(has_bit(all0, d));
                        } else {
                            assert(ids@.subrange(0, k as int).contains(d as u16));
                        }
                    }
                }
            }
            i = i + 1;
        }
        Ok(())
    }

    fn validate_bindings(&self) -> (r: Result<(), ProtocolError>)
        ensures
            r is Ok <==> bindings_ok(self@.streams, self@.bindings),
            r matches Err(e) ==> e is InvalidPayload,
    {
        let ghost b = self@.bindings;
        let n = self.bindings.len();
        let mut seen: u64 = 0;
        let mut i: usize = 0;
        proof {
            assert forall|d: u64| d < 64 implies !has_bit(seen, d) by {
                lemma_no_bits(d);
            }
        }
        while i < n
            invariant
                n == b.len(),
                b == self@.bindings,
                i <= n,
                forall|a: int| 0 <= a < i ==> (#[trigger] b[a].channel_id as int) < MAX_CHANNEL_COUNT,
                forall|a: int, c: int| 0 <= a < c < i ==> b[a].channel_id != b[c].channel_id,
                forall|a: int| 0 <= a < i ==> (#[trigger] lookup_stream(self@.streams, b[a].stream_id)) is Some,
                forall|d: u64|
                    d < 64 ==> (has_bit(seen, d) <==> exists|a: int|
                        0 <= a < i && (#[trigger] b[a].channel_id) as u64 == d),
            decreases n - i,
        {
            let binding = self.bindings[i];
            if binding.channel_id as usize >= MAX_CHANNEL_COUNT {
                return Err(invalid_error("stream binding channel id is out of range"));
            }
            proof {
                lemma_test_bit(seen, binding.channel_id as u64);
            }
            if seen & (1u64 << binding.channel_id) != 0 {
                proof {
                    let a = choose|a: int|
                        0 <= a < i && (#[trigger] b[a].channel_id) as u64 == binding.channel_id as u64;
                    assert(b[a].channel_id == b[i as int].channel_id);
                }
                return Err(invalid_error("channel is bound to more than one stream"));
            }
            if self.stream(binding.stream_id).is_none() {
                return Err(invalid_error("binding references an unknown stream"));
            }
            let ghost old_seen = seen;
            seen = seen | (1u64 << binding.channel_id);
            proof {
                assert forall|a: int, c: int| 0 <= a < c < i + 1 implies b[a].channel_id
                    != b[c].channel_id by {
                    if c == i {
                        if b[a].channel_id == b[c].channel_id {
                            assert(has_bit(old_seen, b[a].channel_id as u64));
                        }
                    }
                }
                assert forall|d: u64| d < 64 implies (has_bit(seen, d) <==> exists|a: int|
                    0 <= a < i + 1 && (#[trigger] b[a].channel_id) as u64 == d) by {
                    lemma_set_bit(old_seen, binding.channel_id as u64, d);
                    if d == binding.channel_id as u64 {
                        assert(b[i as int].channel_id as u64 == d);
                    }
                    if exists|a: int| 0 <= a < i + 1 && (#[trigger] b[a].channel_id) as u64 == d {
                        let a = choose|a: int| 0 <= a < i + 1 && (#[trigger] b[a].channel_id) as u64 == d;
                        if a < i {
                            assert(has_bit(old_seen, d));
                        }
                    }
                }
            }
            i = i + 1;
        }
        Ok(())
    }

    fn has_binding(&self, stream_id: u16, channel_id: u16) -> (r: bool)
        ensures
            r == bound_to(self.bindings@, stream_id, channel_id),
    {
        let mut m: usize = 0;
        while m < self.bindings.len()
            invariant
                m <= self.bindings@.len(),
                forall|a: int|
                    0 <= a < m ==> !(self.bindings@[a].stream_id == stream_id
                        && self.bindings@[a].channel_id == channel_id),
            decreases self.bindings.len() - m,
        {
            if self.bindings[m].stream_id == stream_id && self.bindings[m].channel_id == channel_id {
                return true;
            }
            m = m + 1;
        }
        false
    }

    fn validate_binding_sets(&self) -> (r: Result<(), ProtocolError>)
        ensures
            r is Ok <==> binding_sets_ok(self@.streams, self@.bindings),
            r matches Err(e) ==> e is InvalidPayload,
    {
        let ghost s = self@.streams;
        let ghost b = self@.bindings;
        let n = self.streams.len();
        let mut i: usize = 0;
        while i < n
            invariant
                n == s.len(),
                s == self@.streams,
                b == self@.bindings,
                i <= n,
                forall|a: int, c: u16|
                    0 <= a < i ==> ((#[trigger] s[a].channel_ids.contains(c)) <==> #[trigger] bound_to(
                        b,
                        s[a].stream_id,
                        c,
                    )),
            decreases n - i,
        {
            let stream = &self.streams[i];
            assert(s[i as int] == stream@);
            let mut k: usize = 0;
            while k < stream.channel_ids.len()
                invariant
                    s == self@.streams,
                    b == self@.bindings,
                    i < n == s.len(),
                    s[i as int] == stream@,
                    k <= stream.channel_ids@.len(),
                    forall|a: int| 0 <= a < k ==> bound_to(b, stream.stream_id, stream.channel_ids@[a]),
                decreases stream.channel_ids.len() - k,
            {
                if !self.has_binding(stream.stream_id, stream.channel_ids[k]) {
                    proof {
                        let c = stream.channel_ids@[k as int];
                        assert(s[i as int].channel_ids[k as int] == c);
                        assert(s[i as int].channel_ids.contains(c));
                        assert(!bound_to(b, s[i as int].stream_id, c));
                    }
                    return Err(invalid_error("stream channel ids and bindings disagree"));
                }
                k = k + 1;
            }
            let mut m: usize = 0;
            while m < self.bindings.len()
                invariant
                    s == self@.streams,
                    b == self@.bindings,
                    i < n == s.len(),
                    s[i as int] == stream@,
                    m <= b.len(),
                    forall|a: int|
                        0 <= a < m && b[a].stream_id == stream.stream_id ==> stream.channel_ids@.contains(
                            b[a].channel_id,
                        ),
                decreases self.bindings.len() - m,
            {
                if self.bindings[m].stream_id == stream.stream_id && !contains_u16(
                    &stream.channel_ids,
                    self.bindings[m].channel_id,
                ) {
                    proof {
                        let c = b[m as int].channel_id;
                        assert(bound_to(b, s[i as int].stream_id, c));
                        assert(!s[i as int].channel_ids.contains(c));
                    }
                    return Err(invalid_error("stream channel ids and bindings disagree"));
                }
                m = m + 1;
            }
            proof {
                assert forall|c: u16| (#[trigger] s[i as int].channel_ids.contains(c)) <==> #[trigger] bound_to(
                    b,
                    s[i as int].stream_id,
                    c,
                ) by {
                    if s[i as int].channel_ids.contains(c) {
                        let w = choose|w: int| 0 <= w < s[i as int].channel_ids.len() && s[i as int].channel_ids[w] == c;
                        assert(bound_to(b, stream.stream_id, stream.channel_ids@[w]));
                    }
                    if bound_to(b, s[i as int].stream_id, c) {
                        let w = choose|w: int| 0 <= w < b.len() && b[w].stream_id == s[i as int].stream_id && b[w].channel_id == c;
                        assert(stream.channel_ids@.contains(b[w].channel_id));
                    }
                }
            }
            i = i + 1;
        }
        Ok(())
    }

    fn validate_relations(&self) -> (r: Result<(), ProtocolError>)
        ensures
            r is Ok <==> relations_ok(self@.streams, self@.causal_relations),
            r matches Err(e) ==> e is InvalidPayload,
    {
        let ghost s = self@.streams;
        let ghost rs = self@.causal_relations;
        let n = self.causal_relations.len();
        let mut i: usize = 0;
        while i < n
            invariant
                n == rs.len(),
                s == self@.streams,
                rs == self@.causal_relations,
                i <= n,
                forall|a: int| 0 <= a < i ==> relation_ok(s, #[trigger] rs[a]),
                forall|a: int, c: int|
                    0 <= a < c < i ==> rs[a].result_stream_id != rs[c].result_stream_id,
            decreases n - i,
        {
            let relation = self.causal_relations[i];
            let input = match self.stream(relation.input_stream_id) {
                Some(d) => d,
                None => {
                    return Err(invalid_error("causal relation references an unknown input stream"));
                },
            };
            let result = match self.stream(relation.result_stream_id) {
                Some(d) => d,
                None => {
                    return Err(invalid_error("causal relation references an unknown result stream"));
                },
            };
            let application = match self.stream(relation.application_stream_id) {
                Some(d) => d,
                None => {
                    return Err(
                        invalid_error("causal relation references an unknown application stream"),
                    );
                },
            };
            if relation.input_stream_id == relation.result_stream_id || relation.result_stream_id
                == relation.application_stream_id {
                return Err(
                    invalid_error(
                        "causal result stream must be distinct from input and application streams",
                    ),
                );
            }
            if input.consistency_group != result.consistency_group || result.consistency_group
                != application.consistency_group {
                return Err(invalid_error("causal relation streams must share one consistency group"));
            }
            let mut j: usize = 0;
            while j < i
                invariant
                    rs == self@.causal_relations,
                    j <= i < n == rs.len(),
                    relation == rs[i as int],
                    forall|a: int| 0 <= a < j ==> rs[a].result_stream_id != relation.result_stream_id,
                decreases i - j,
            {
                if self.causal_relations[j].result_stream_id == relation.result_stream_id {
                    return Err(invalid_error("result stream has more than one causal relation"));
                }
                j = j + 1;
            }
            i = i + 1;
        }
        Ok(())
    }

    /// Accepts exactly the tables of `stream_table_valid`.
    pub fn validate(&self) -> (r: Result<(), ProtocolError>)
        ensures
            r is Ok <==> stream_table_valid(self@),
            r matches Err(e) ==> e is InvalidPayload,
    {
        validate_count(self.streams.len(), 1, MAX_STREAM_COUNT, "stream descriptor count")?;
        validate_count(self.bindings.len(), 1, MAX_CHANNEL_COUNT, "stream channel binding count")?;
        validate_count(
            self.causal_relations.len(),
            0,
            MAX_CAUSAL_RELATION_COUNT,
            "causal relation count",
        )?;
        self.validate_streams()?;
        self.validate_bindings()?;
        self.validate_binding_sets()?;
        self.validate_relations()?;
        Ok(())
    }
}


/// The stream table is valid, the channel table is valid, and every binding
/// names a channel of the channel table.
pub open spec fn valid_against_channels(t: StreamTableV, ch: Seq<ChannelDescriptor>) -> bool {
    &&& stream_table_valid(t)
    &&& channel_table_valid(ch)
    &&& forall|i: int| 0 <= i < t.bindings.len() ==> (#[trigger] lookup_channel(ch, t.bindings[i].channel_id)) is Some
}

impl StreamTable {
    pub fn validate_against_channels(&self, channels: &ChannelTable) -> (r: Result<(), ProtocolError>)
        ensures
            r is Ok <==> valid_against_channels(self@, channels.channels@),
            r matches Err(e) ==> e is InvalidPayload,
    {
        self.validate()?;
        channels.validate()?;
        let mut i: usize = 0;
        while i < self.bindings.len()
            invariant
                i <= self.bindings@.len(),
                forall|a: int| 0 <= a < i ==> (#[trigger] lookup_channel(channels.channels@, self.bindings@[a].channel_id)) is Some,
            decreases self.bindings.len() - i,
        {
            if channels.channel(self.bindings[i].channel_id).is_none() {
                return Err(invalid_error("stream binding references an unknown channel"));
            }
            i = i + 1;
        }
        Ok(())
    }
}

/// The exact fixed period of a stream on a device clock of `tick_hz`.
pub open spec fn sample_period_ok(tick_hz: u64, rate: u32, period: u32) -> bool {
    &&& tick_hz != 0
    &&& rate != 0
    &&& tick_hz % (rate as u64) == 0
    &&& tick_hz / (rate as u64) <= u32::MAX
    &&& period as u64 == tick_hz / (rate as u64)
}

/// Validates the exact tick period advertised by a fixed-rate V2 stream: the
/// device clock must divide exactly by the stream rate, so that timestamps
/// never accumulate rounding drift.
pub fn validate_stream_sample_period(
    tick_hz: u64,
    descriptor: &StreamDescriptor,
    sample_period_ticks: u32,
) -> (r: Result<(), ProtocolError>)
    ensures
        r is Ok <==> sample_period_ok(tick_hz, descriptor.sample_rate_hz, sample_period_ticks),
        r matches Err(e) ==> e is InvalidPayload,
{
    if tick_hz == 0 {
        return Err(invalid_error("HELLO_ACK tick_hz must be non-zero for SCP1 V2 streams"));
    }
    let rate = descriptor.sample_rate_hz as u64;
    if rate == 0 || tick_hz % rate != 0 {
        return Err(invalid_error("tick_hz is not exactly divisible by the stream rate"));
    }
    let expected = tick_hz / rate;
    assert(expected != 0) by (nonlinear_arith)
        requires
            tick_hz % rate == 0,
            tick_hz != 0,
            rate != 0,
            expected == tick_hz / rate,
    ;
    if expected == 0 || expected > u32::MAX as u64 {
        return Err(invalid_error("fixed stream sample period is outside the wire range"));
    }
    if sample_period_ticks as u64 != expected {
        return Err(invalid_error("stream sample period does not match the fixed period"));
    }
    Ok(())
}

/// V2 stream configuration.  The stream descriptor fixes the rate; the
/// selected channels must all belong to `stream_id`.
#[derive(Clone, Copy, Debug, PartialEq, Eq, Structural)]
pub struct ConfigureStream {
    pub stream_id: u16,
    pub batch_samples: u16,
    pub channel_mask: u64,
}

pub open spec fn configure_shape_ok(c: ConfigureStream) -> bool {
    1 <= c.batch_samples <= MAX_BATCH_SAMPLES && c.channel_mask != 0
}

pub fn validate_configure_stream_shape(configure: &ConfigureStream) -> (r: Result<(), ProtocolError>)
    ensures
        r is Ok <==> configure_shape_ok(*configure),
        r matches Err(e) ==> e is InvalidPayload,
{
    validate_count(configure.batch_samples as usize, 1, MAX_BATCH_SAMPLES, "stream batch samples")?;
    if configure.channel_mask == 0 {
        return Err(invalid_error("stream channel mask must select at least one channel"));
    }
    Ok(())
}

/// The channels of `ch` whose mask bit is set, in table order.
pub open spec fn selected(ch: Seq<ChannelDescriptor>, mask: u64) -> Seq<ChannelDescriptor>
    decreases ch.len(),
{
    if ch.len() == 0 {
        Seq::empty()
    } else if has_bit(mask, ch.last().channel_id as u64) {
        selected(ch.drop_last(), mask).push(ch.last())
    } else {
        selected(ch.drop_last(), mask)
    }
}

/// Total wire width of one row of the given channels.
pub open spec fn row_width(ch: Seq<ChannelDescriptor>) -> int
    decreases ch.len(),
{
    if ch.len() == 0 {
        0
    } else {
        row_width(ch.drop_last()) + spec_byte_width(ch.last().wire_format)
    }
}

pub proof fn lemma_selected_len(ch: Seq<ChannelDescriptor>, mask: u64)
    ensures
        selected(ch, mask).len() <= ch.len(),
        forall|i: int| 0 <= i < selected(ch, mask).len() ==> ch.contains(#[trigger] selected(ch, mask)[i]),
    decreases ch.len(),
{
    if ch.len() > 0 {
        lemma_selected_len(ch.drop_last(), mask);
        let sub = selected(ch.drop_last(), mask);
        assert forall|i: int| 0 <= i < selected(ch, mask).len() implies ch.contains(#[trigger] selected(ch, mask)[i]) by {
            if i < sub.len() {
                assert(selected(ch, mask)[i] == sub[i]);
                assert(ch.drop_last().contains(sub[i]));
                let w = choose|w: int| 0 <= w < ch.drop_last().len() && ch.drop_last()[w] == sub[i];
                assert(ch[w] == sub[i]);
            } else {
                assert(selected(ch, mask)[i] == ch.last());
                assert(ch[ch.len() - 1] == ch.last());
            }
        }
    }
}

pub proof fn lemma_row_width_bound(ch: Seq<ChannelDescriptor>)
    ensures
        0 <= row_width(ch) <= 4 * ch.len(),
    decreases ch.len(),
{
    if ch.len() > 0 {
        lemma_row_width_bound(ch.drop_last());
    }
}

/// Payload bytes of one configured SAMPLE_BATCH_V2.
pub open spec fn configured_payload_len(batch: int, sel: Seq<ChannelDescriptor>) -> int {
    26 + 2 * sel.len() + batch * row_width(sel) + batch * 36
}

/// Everything `validate_configure_stream_for_device` checks.
pub open spec fn configure_for_device_ok(
    c: ConfigureStream,
    t: StreamTableV,
    ch: Seq<ChannelDescriptor>,
    max_batch_samples: u16,
    max_payload: u32,
) -> bool {
    let sel = selected(ch, c.channel_mask);
    &&& configure_shape_ok(c)
    &&& valid_against_channels(t, ch)
    &&& 1 <= max_batch_samples <= MAX_BATCH_SAMPLES
    &&& c.batch_samples <= max_batch_samples
    &&& lookup_stream(t.streams, c.stream_id) is Some
    &&& sel.len() >= 1
    &&& forall|i: int|
        0 <= i < sel.len() ==> ((#[trigger] lookup_binding(t.bindings, sel[i].channel_id)) matches Some(
            b,
        ) && b.stream_id == c.stream_id)
    &&& forall|d: u64|
        d < 64 && has_bit(c.channel_mask, d) ==> exists|i: int|
            0 <= i < ch.len() && (#[trigger] ch[i].channel_id) as u64 == d
    &&& 1 <= max_payload <= MAX_PAYLOAD_LEN
    &&& configured_payload_len(c.batch_samples as int, sel) <= max_payload
}

/// Channels of `channels` selected by `mask`, in table order.
pub(crate) fn select_channels(channels: &ChannelTable, mask: u64) -> (r: Vec<&ChannelDescriptor>)
    requires
        channel_table_valid(channels.channels@),
    ensures
        r@.map_values(|d: &ChannelDescriptor| *d) == selected(channels.channels@, mask),
{
    let ghost ch = channels.channels@;
    let mut out: Vec<&ChannelDescriptor> = Vec::new();
    let mut i: usize = 0;
    while i < channels.channels.len()
        invariant
            ch == channels.channels@,
            channel_table_valid(ch),
            i <= ch.len(),
            out@.map_values(|d: &ChannelDescriptor| *d) == selected(ch.subrange(0, i as int), mask),
        decreases channels.channels.len() - i,
    {
        let d = &channels.channels[i];
        proof {
            lemma_test_bit(mask, d.channel_id as u64);
            assert(ch.subrange(0, i + 1).drop_last() =~= ch.subrange(0, i as int));
            assert(ch.subrange(0, i + 1).last() == ch[i as int]);
        }
        if mask & (1u64 << d.channel_id) != 0 {
            let ghost before = out@;
            out.push(d);
            assert(out@.map_values(|d: &ChannelDescriptor| *d) =~= before.map_values(
                |d: &ChannelDescriptor| *d,
            ).push(*d));
        }
        i = i + 1;
    }
    assert(ch.subrange(0, ch.len() as int) =~= ch);
    out
}

/// Whether the first of the selected channels from `i` on that does not
/// belong to stream `sid` has no binding (`Some(true)`) or belongs to
/// another stream (`Some(false)`); `None` when all of them belong to it.
pub open spec fn first_binding_fault(t: StreamTableV, sel: Seq<ChannelDescriptor>, sid: u16, i: int) -> Option<bool>
    decreases sel.len() - i,
{
    if i < 0 || i >= sel.len() {
        None
    } else {
        match lookup_binding(t.bindings, sel[i].channel_id) {
            None => Some(true),
            Some(b) => if b.stream_id != sid {
                Some(false)
            } else {
                first_binding_fault(t, sel, sid, i + 1)
            },
        }
    }
}

/// Validates a V2 stream configuration against the negotiated tables and
/// device limits; a mask mixing channels of different streams is refused.
pub fn validate_configure_stream_for_device(
    configure: &ConfigureStream,
    streams: &StreamTable,
    channels: &ChannelTable,
    max_batch_samples: u16,
    max_payload: u32,
) -> (r: Result<(), ProtocolError>)
    ensures
        r is Ok <==> configure_for_device_ok(
            *configure,
            streams@,
            channels.channels@,
            max_batch_samples,
            max_payload,
        ),
        r matches Err(e) ==> e is InvalidPayload,
        ({
            let ch = channels.channels@;
            let sel = selected(ch, configure.channel_mask);
            configure_shape_ok(*configure) && valid_against_channels(streams@, ch) && 1 <= max_batch_samples
                <= MAX_BATCH_SAMPLES && configure.batch_samples <= max_batch_samples && lookup_stream(
                streams@.streams,
                configure.stream_id,
            ) is Some && sel.len() >= 1 && first_binding_fault(streams@, sel, configure.stream_id, 0) == Some(false)
                ==> (r matches Err(ProtocolError::InvalidPayload(m)) && m@
                == "channel belongs to stream other than the configured stream"@)
        }),
{
    let ghost ch = channels.channels@;
    validate_configure_stream_shape(configure)?;
    streams.validate_against_channels(channels)?;
    if max_batch_samples == 0 || max_batch_samples as usize > MAX_BATCH_SAMPLES {
        return Err(invalid_error("device maximum batch samples is outside 1..=4096"));
    }
    if configure.batch_samples > max_batch_samples {
        return Err(invalid_error("batch samples exceeds the device maximum"));
    }
    let stream = match streams.stream(configure.stream_id) {
        Some(s) => s,
        None => {
            return Err(invalid_error("unknown configured stream"));
        },
    };
    proof {
        lemma_lookup_stream(streams@.streams, configure.stream_id);
    }
    let sel = select_channels(channels, configure.channel_mask);
    let ghost selv = selected(ch, configure.channel_mask);
    assert(sel@.len() == selv.len());
    if sel.len() == 0 {
        return Err(invalid_error("channel mask selects no device channels"));
    }
    let mut i: usize = 0;
    while i < sel.len()
        invariant
            sel@.map_values(|d: &ChannelDescriptor| *d) == selv,
            selv == selected(ch, configure.channel_mask),
            ch == channels.channels@,
            stream.stream_id == configure.stream_id,
            i <= sel@.len(),
            forall|a: int|
                0 <= a < i ==> ((#[trigger] lookup_binding(streams@.bindings, selv[a].channel_id)) matches Some(
                    b,
                ) && b.stream_id == configure.stream_id),
            first_binding_fault(streams@, selv, configure.stream_id, 0) == first_binding_fault(
                streams@,
                selv,
                configure.stream_id,
                i as int,
            ),
        decreases sel.len() - i,
    {
        assert(selv[i as int] == *sel@[i as int]);
        let binding = match streams.binding(sel[i].channel_id) {
            Some(b) => b,
            None => {
                proof {
                    let ok = configure_for_device_ok(*configure, streams@, channels.channels@, max_batch_samples, max_payload);
                    if ok {
                        let sl = selected(channels.channels@, configure.channel_mask);
                        assert(sl == selv);
                        assert((lookup_binding(streams@.bindings, sl[i as int].channel_id)) is Some);
                    }
                }
                return Err(invalid_error("channel has no stream binding"));
            },
        };
        if binding.stream_id != stream.stream_id {
            proof {
                let ok = configure_for_device_ok(*configure, streams@, channels.channels@, max_batch_samples, max_payload);
                if ok {
                    let sl = selected(channels.channels@, configure.channel_mask);
                    assert(sl == selv);
                    assert(lookup_binding(streams@.bindings, sl[i as int].channel_id) == Some(*binding));
                }
            }
            return Err(invalid_error("channel belongs to stream other than the configured stream"));
        }
        i = i + 1;
    }
    assert(first_binding_fault(streams@, selv, configure.stream_id, i as int) is None);
    let mut d: u64 = 0;
    while d < 64
        invariant
            first_binding_fault(streams@, selected(ch, configure.channel_mask), configure.stream_id, 0) is None,
            selv == selected(ch, configure.channel_mask),
            d <= 64,
            ch == channels.channels@,
            forall|e: u64|
                e < d && has_bit(configure.channel_mask, e) ==> exists|k: int|
                    0 <= k < ch.len() && (#[trigger] ch[k].channel_id) as u64 == e,
        decreases 64 - d,
    {
        proof {
            lemma_test_bit(configure.channel_mask, d);
        }
        if configure.channel_mask & (1u64 << d) != 0 {
            if channels.channel(d as u16).is_none() {
                proof {
                    crate::protocol::lemma_lookup_channel(ch, d as u16);
                    assert forall|k: int| 0 <= k < ch.len() implies (#[trigger] ch[k].channel_id) as u64 != d by {
                        if (ch[k].channel_id) as u64 == d {
                            assert(ch[k].channel_id == d as u16);
                        }
                    }
                }
                return Err(invalid_error("channel mask selects unknown device channels"));
            }
            proof {
                crate::protocol::lemma_lookup_channel(ch, d as u16);
                let k = choose|k: int| 0 <= k < ch.len() && ch[k].channel_id == d as u16;
                assert((ch[k].channel_id) as u64 == d);
            }
        }
        d = d + 1;
    }
    if max_payload == 0 || max_payload as usize > MAX_PAYLOAD_LEN {
        return Err(invalid_error("maximum payload is outside 1..=1048576"));
    }
    let mut width: usize = 0;
    let mut k: usize = 0;
    proof {
        lemma_selected_len(ch, configure.channel_mask);
    }
    while k < sel.len()
        invariant
            sel@.map_values(|d: &ChannelDescriptor| *d) == selv,
            sel@.len() <= 64,
            k <= sel@.len(),
            width == row_width(selv.subrange(0, k as int)),
            width <= 4 * k,
        decreases sel.len() - k,
    {
        proof {
            assert(selv.subrange(0, k + 1).drop_last() =~= selv.subrange(0, k as int));
            assert(selv[k as int] == *sel@[k as int]);
        }
        width = width + sel[k].wire_format.byte_width();
        k = k + 1;
    }
    assert(selv.subrange(0, selv.len() as int) =~= selv);
    let batch = configure.batch_samples as usize;
    assert(batch <= 4096);
    assert(width <= 256);
    assert(batch * width <= 4096 * 256) by (nonlinear_arith)
        requires
            batch <= 4096,
            width <= 256,
    ;
    let payload_len = 26 + sel.len() * 2 + batch * width + batch * 36;
    if payload_len > max_payload as usize {
        return Err(invalid_error("configured stream payload exceeds the negotiated maximum"));
    }
    Ok(())
}

// ---------------------------------------------------------------------------
// Causal alignment
// ---------------------------------------------------------------------------

/// A logical causal relationship, not a physical simultaneity claim.
#[derive(Clone, Copy, Debug, PartialEq, Eq, Structural)]
pub enum CausalAlignment {
    SameShot,
    PreviousShot,
    FutureShot,
    Invalid,
    Mismatch,
}

pub open spec fn spec_causal_alignment(
    row_seq: u64,
    related_seq: u64,
    valid_flags: u32,
    required_valid_flag: u32,
) -> CausalAlignment {
    if valid_flags & required_valid_flag == 0 {
        CausalAlignment::Invalid
    } else if related_seq == row_seq {
        CausalAlignment::SameShot
    } else if related_seq + 1 == row_seq {
        CausalAlignment::PreviousShot
    } else if related_seq > row_seq {
        CausalAlignment::FutureShot
    } else {
        CausalAlignment::Mismatch
    }
}

pub fn causal_alignment(row_seq: u64, related_seq: u64, valid_flags: u32, required_valid_flag: u32) -> (r:
    CausalAlignment)
    ensures
        r == spec_causal_alignment(row_seq, related_seq, valid_flags, required_valid_flag),
{
    if valid_flags & required_valid_flag == 0 {
        return CausalAlignment::Invalid;
    }
    if related_seq == row_seq {
        CausalAlignment::SameShot
    } else if related_seq < u64::MAX && related_seq + 1 == row_seq {
        CausalAlignment::PreviousShot
    } else if related_seq > row_seq {
        CausalAlignment::FutureShot
    } else {
        CausalAlignment::Mismatch
    }
}

pub open spec fn spec_chinese_label(a: CausalAlignment) -> Seq<char> {
    match a {
        CausalAlignment::SameShot => "同拍"@,
        CausalAlignment::PreviousShot => "上一拍"@,
        CausalAlignment::FutureShot => "序号不匹配"@,
        CausalAlignment::Mismatch => "序号不匹配"@,
        CausalAlignment::Invalid => "无效"@,
    }
}

impl CausalAlignment {
    /// Stable UI wording for a causal relationship; it never claims that two
    /// CPU domains were physically simultaneous.
    pub fn chinese_label(self) -> (r: &'static str)
        ensures
            r@ == spec_chinese_label(self),
    {
        match self {
            CausalAlignment::SameShot => "同拍",
            CausalAlignment::PreviousShot => "上一拍",
            CausalAlignment::FutureShot => "序号不匹配",
            CausalAlignment::Mismatch => "序号不匹配",
            CausalAlignment::Invalid => "无效",
        }
    }
}

impl SnapshotMeta {
    /// Relationship of the source sequence to this row's logical cycle.
    pub fn source_alignment(&self) -> (r: CausalAlignment)
        ensures
            r == spec_causal_alignment(
                self.logical_cycle_sequence,
                self.source_sequence,
                self.valid_flags,
                SOURCE_SEQUENCE_VALID,
            ),
    {
        causal_alignment(
            self.logical_cycle_sequence,
            self.source_sequence,
            self.valid_flags,
            SOURCE_SEQUENCE_VALID,
        )
    }

    /// Relationship of the applied sequence to this row's logical cycle.
    pub fn applied_alignment(&self) -> (r: CausalAlignment)
        ensures
            r == spec_causal_alignment(
                self.logical_cycle_sequence,
                self.applied_sequence,
                self.valid_flags,
                APPLIED_SEQUENCE_VALID,
            ),
    {
        causal_alignment(
            self.logical_cycle_sequence,
            self.applied_sequence,
            self.valid_flags,
            APPLIED_SEQUENCE_VALID,
        )
    }
}

pub const VALID_FLAG_CLA_COMPLETE: u32 = CLA_RESULT_VALID;

pub const VALID_FLAG_ADC_VALID: u32 = ADC_SAMPLE_VALID;

pub const VALID_FLAG_DATA_FROZEN: u32 = FROZEN_ROW;

pub const VALID_FLAG_SOURCE_VALID: u32 = SOURCE_SEQUENCE_VALID;

pub const VALID_FLAG_APPLIED_VALID: u32 = APPLIED_SEQUENCE_VALID;

pub const VALID_FLAG_KNOWN_MASK: u32 = SNAPSHOT_KNOWN_FLAGS;

/// Metadata of one row of a stream batch.
pub type StreamRowMetadata = SnapshotMeta;

/// A real-time channel's base descriptor with the stream semantics that its
/// binding gives it.
#[derive(Clone, Debug, PartialEq, Eq)]
pub struct ChannelDescriptorV2 {
    pub base: ChannelDescriptor,
    pub owner: SignalOwner,
    pub domain: SampleDomain,
    pub capture_phase: CapturePhase,
    pub consistency_group: u16,
    pub role: SignalRole,
}

/// `d` describes the channel of binding `b`: its base descriptor from the
/// channel table, owner and role from the binding, and the domain, phase and
/// group of the bound stream.
pub open spec fn descriptor_v2_of(d: ChannelDescriptorV2, t: StreamTableV, ch: Seq<ChannelDescriptor>, b: StreamChannelBinding) -> bool {
    &&& lookup_channel(ch, b.channel_id) == Some(d.base)
    &&& d.owner == b.owner
    &&& d.role == b.role
    &&& lookup_stream(t.streams, b.stream_id) matches Some(s) && d.domain == s.domain && d.capture_phase
        == s.capture_phase && d.consistency_group == s.consistency_group
}

fn copy_channel_descriptor(c: &ChannelDescriptor) -> (r: ChannelDescriptor)
    ensures
        r == *c,
{
    ChannelDescriptor {
        channel_id: c.channel_id,
        kind: c.kind,
        wire_format: c.wire_format,
        scale_bits: c.scale_bits,
        offset_bits: c.offset_bits,
        unit: c.unit.clone(),
        name: c.name.clone(),
    }
}

impl StreamTable {
    /// The descriptors of the bound channels, in binding order, once the
    /// table is valid against the channel table.
    pub fn channel_descriptors_v2(&self, channels: &ChannelTable) -> (r: Result<Vec<ChannelDescriptorV2>, ProtocolError>)
        ensures
            r is Ok <==> valid_against_channels(self@, channels.channels@),
            r matches Err(e) ==> e is InvalidPayload,
            r matches Ok(v) ==> v@.len() == self@.bindings.len() && forall|i: int|
                0 <= i < v@.len() ==> descriptor_v2_of(#[trigger] v@[i], self@, channels.channels@, self@.bindings[i]),
    {
        self.validate_against_channels(channels)?;
        let mut out: Vec<ChannelDescriptorV2> = Vec::new();
        let mut i: usize = 0;
        while i < self.bindings.len()
            invariant
                valid_against_channels(self@, channels.channels@),
                i <= self.bindings@.len(),
                out@.len() == i,
                forall|j: int|
                    0 <= j < i ==> descriptor_v2_of(#[trigger] out@[j], self@, channels.channels@, self@.bindings[j]),
            decreases self.bindings.len() - i,
        {
            let b = self.bindings[i];
            assert(lookup_channel(channels.channels@, self@.bindings[i as int].channel_id) is Some);
            assert(lookup_stream(self@.streams, self@.bindings[i as int].stream_id) is Some);
            let base = match channels.channel(b.channel_id) {
                Some(c) => copy_channel_descriptor(c),
                None => {
                    assert(false);
                    return Err(invalid_error("stream binding references an unknown channel"));
                },
            };
            let stream = match self.stream(b.stream_id) {
                Some(s) => s,
                None => {
                    assert(false);
                    return Err(invalid_error("stream binding references an unknown stream"));
                },
            };
            out.push(
                ChannelDescriptorV2 {
                    base,
                    owner: b.owner,
                    domain: stream.domain,
                    capture_phase: stream.capture_phase,
                    consistency_group: stream.consistency_group,
                    role: b.role,
                },
            );
            i = i + 1;
        }
        Ok(out)
    }
}

} // verus!
