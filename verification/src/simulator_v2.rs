//! The second-revision simulator's own tables, the rows and samples it
//! sends, and the messages of a simulated capture upload.

use vstd::prelude::*;

use crate::capture_v2::{ArmCapture, CaptureBegin, CaptureEnd, CaptureState, CaptureStatus};
use crate::messages_v2::{
    blocks_encodable, capture_integrity_summary, data_views, enc_batch_head, enc_message, message_encodable,
    sort_by_index, summary_input, CaptureData, CaptureDataV, MessageV2, MessageV2V, StreamSampleBatch,
    StreamSampleBatchV,
};
use crate::protocol::{
    channel_table_valid, lookup_channel, spec_crc32c, ChannelDescriptor, ChannelKind, ChannelTable, Frame,
    ProtocolError, WireFormat, MAX_PAYLOAD_LEN, PROTOCOL_VERSION_V2,
};
use crate::protocol_v2::{MAX_CAPTURE_PAYLOAD_BYTES, MSG_STREAM_SAMPLE_BATCH};
use crate::simulator::{spec_row_meta, v2_row_meta, V2Preset, V2_SIMULATOR_TICK_HZ};
use crate::snapshot::SnapshotMeta;
use crate::wire::{le16, le32, put_u16, put_u32};
use crate::protocol_v2::{
    bound_to, has_bit, lemma_test_bit, lookup_stream, stream_table_valid, CapturePhase, ConfigureStream, SampleDomain, SignalOwner, SignalRole, StreamChannelBinding,
    StreamDescriptor, StreamDescriptorV, StreamTable, StreamTableV,
};

use vstd::arithmetic::power2::{
    lemma2_to64, lemma_pow2_adds, lemma_pow2_strictly_increases, lemma_pow2_subtracts,
    lemma_pow2_unfold, pow2,
};

verus! {

// ---------------------------------------------------------------------------
// Single-precision encoding of sample values
// ---------------------------------------------------------------------------

/// Index of the highest set bit of `v` (0 for 0 and 1).
pub open spec fn top_bit(v: nat) -> nat
    decreases v,
{
    if v < 2 {
        0
    } else {
        1 + top_bit(v / 2)
    }
}

/// The IEEE-754 single-precision bit pattern of the non-negative integer
/// `v`: the 24 leading bits of `v`, rounded to nearest with ties to even,
/// under the biased exponent of its highest bit.
pub open spec fn f32_bits_of_nat(v: nat) -> int {
    if v == 0 {
        0
    } else {
        let e = top_bit(v);
        if e <= 23 {
            (e + 127) * pow2(23) + (v * pow2((23 - e) as nat) - pow2(23))
        } else {
            let s = (e - 23) as nat;
            let q = v / pow2(s);
            let r = v % pow2(s);
            let h = pow2((s - 1) as nat);
            let q2 = if r > h || (r == h && q % 2 == 1) {
                q + 1
            } else {
                q
            };
            (e + 127) * pow2(23) + (q2 - pow2(23))
        }
    }
}

proof fn lemma_top_bit(v: nat, e: nat)
    requires
        pow2(e) <= v < pow2(e + 1),
    ensures
        top_bit(v) == e,
    decreases e,
{
    lemma_pow2_unfold(e + 1);
    if e == 0 {
        lemma2_to64();
    } else {
        lemma_pow2_unfold(e);
        lemma_top_bit(v / 2, (e - 1) as nat);
    }
}

/// The single-precision bit pattern of `v`, as `v as f32` gives it.
pub fn f32_bits_of_u31(v: u32) -> (r: u32)
    requires
        v < 0x8000_0000,
    ensures
        r == f32_bits_of_nat(v as nat),
{
    if v == 0 {
        return 0;
    }
    proof {
        lemma2_to64();
    }
    let mut e: u32 = 0;
    let mut p: u32 = 1;
    while p <= v / 2
        invariant
            1 <= p <= v < 0x8000_0000,
            p == pow2(e as nat),
            e <= 30,
        decreases v - p,
    {
        proof {
            lemma_pow2_unfold((e + 1) as nat);
            lemma2_to64();
            if e >= 30 {
                if e > 30 {
                    lemma_pow2_strictly_increases(30, e as nat);
                }
                assert(false);
            }
        }
        p = p * 2;
        e = e + 1;
    }
    proof {
        lemma_pow2_unfold((e + 1) as nat);
        lemma_top_bit(v as nat, e as nat);
    }
    if e <= 23 {
        let k: u32 = 0x80_0000 / p;
        proof {
            lemma_pow2_subtracts(e as nat, 23);
            lemma_pow2_adds(e as nat, (23 - e) as nat);
            assert(p * k == 0x80_0000);
            assert(v * k < 0x100_0000 && v * k >= 0x80_0000) by (nonlinear_arith)
                requires
                    p <= v < 2 * p,
                    p * k == 0x80_0000,
            ;
        }
        (e + 127) * 0x80_0000 + (v * k - 0x80_0000)
    } else {
        let d: u32 = p / 0x80_0000;
        proof {
            lemma_pow2_subtracts(23, e as nat);
            lemma_pow2_adds(23, (e - 23) as nat);
            lemma_pow2_unfold((e - 23) as nat);
            assert(d * 0x80_0000 == p);
        }
        let q = v / d;
        let r = v % d;
        let h = d / 2;
        proof {
            assert(q < 0x100_0000 && q >= 0x80_0000) by (nonlinear_arith)
                requires
                    p <= v < 2 * p,
                    d * 0x80_0000 == p,
                    d > 0,
                    q == v / d,
            ;
        }
        let q2 = if r > h || (r == h && q % 2 == 1) {
            q + 1
        } else {
            q
        };
        (e + 127) * 0x80_0000 + q2 - 0x80_0000
    }
}

// ---------------------------------------------------------------------------
// The simulator's tables
// ---------------------------------------------------------------------------

/// Bit pattern of the `f32` scale 0.001.
pub const MILLI_SCALE_BITS: u32 = 0x3A83_126F;

/// Bit pattern of the `f32` scale 1.0.
pub const UNIT_SCALE_BITS: u32 = 0x3F80_0000;

/// Name of channel `i` of the simulator's second-revision table.
pub open spec fn v2_channel_name(i: int) -> &'static str {
    if i == 0 {
        "ADC current"
    } else if i == 1 {
        "CLA input"
    } else if i == 2 {
        "CLA result"
    } else if i == 3 {
        "CLA completed sequence"
    } else if i == 4 {
        "Current reference"
    } else if i == 5 {
        "Control output"
    } else if i == 6 {
        "Command sequence"
    } else if i == 7 {
        "Applied sequence"
    } else if i == 8 {
        "Run state"
    } else if i == 9 {
        "Fault flags"
    } else {
        "Logic tick"
    }
}

pub open spec fn v2_channel_unit(i: int) -> &'static str {
    if i == 0 {
        "A"
    } else if i == 1 {
        "A"
    } else if i == 2 {
        "A"
    } else if i == 3 {
        "count"
    } else if i == 4 {
        "A"
    } else if i == 5 {
        "V"
    } else if i == 6 {
        "count"
    } else if i == 7 {
        "count"
    } else if i == 8 {
        ""
    } else if i == 9 {
        "bits"
    } else {
        "count"
    }
}

pub open spec fn v2_channel_format(i: int) -> WireFormat {
    if i == 0 {
        WireFormat::I16
    } else if i == 1 {
        WireFormat::I16
    } else if i == 2 {
        WireFormat::I16
    } else if i == 3 {
        WireFormat::I32
    } else if i == 4 {
        WireFormat::I16
    } else if i == 5 {
        WireFormat::I16
    } else if i == 6 {
        WireFormat::I32
    } else if i == 7 {
        WireFormat::I32
    } else if i == 8 {
        WireFormat::U8
    } else if i == 9 {
        WireFormat::I32
    } else {
        WireFormat::I32
    }
}

pub open spec fn v2_channel_scale_bits(i: int) -> u32 {
    if i == 0 {
        MILLI_SCALE_BITS
    } else if i == 1 {
        MILLI_SCALE_BITS
    } else if i == 2 {
        MILLI_SCALE_BITS
    } else if i == 3 {
        UNIT_SCALE_BITS
    } else if i == 4 {
        MILLI_SCALE_BITS
    } else if i == 5 {
        MILLI_SCALE_BITS
    } else if i == 6 {
        UNIT_SCALE_BITS
    } else if i == 7 {
        UNIT_SCALE_BITS
    } else if i == 8 {
        UNIT_SCALE_BITS
    } else if i == 9 {
        UNIT_SCALE_BITS
    } else {
        UNIT_SCALE_BITS
    }
}

/// Channel `i` of the second-revision table: analog, offset 0, with the
/// listed name, unit, format and scale.
pub open spec fn is_v2_channel(c: ChannelDescriptor, i: int) -> bool {
    &&& c.channel_id == i
    &&& c.kind == ChannelKind::Analog
    &&& c.wire_format == v2_channel_format(i)
    &&& c.scale_bits == v2_channel_scale_bits(i)
    &&& c.offset_bits == 0
    &&& c.name@ == v2_channel_name(i)@
    &&& c.unit@ == v2_channel_unit(i)@
}

/// The simulator's second-revision channel table: revision 2, channels
/// 0..=10 in order.
pub open spec fn is_v2_channel_table(t: ChannelTable) -> bool {
    &&& t.revision == 2
    &&& t.channels@.len() == 11
    &&& forall|i: int| 0 <= i < 11 ==> is_v2_channel(#[trigger] t.channels@[i], i)
}

fn descriptor(channel_id: u16, name: &str, unit: &str, wire_format: WireFormat, scale_bits: u32) -> (d:
    ChannelDescriptor)
    ensures
        d.channel_id == channel_id,
        d.kind == ChannelKind::Analog,
        d.wire_format == wire_format,
        d.scale_bits == scale_bits,
        d.offset_bits == 0,
        d.name@ == name@,
        d.unit@ == unit@,
{
    ChannelDescriptor {
        channel_id,
        kind: ChannelKind::Analog,
        wire_format,
        scale_bits,
        offset_bits: 0,
        unit: unit.to_owned(),
        name: name.to_owned(),
    }
}

/// The channel table the second-revision simulator announces.
pub fn v2_channel_table() -> (t: ChannelTable)
    ensures
        is_v2_channel_table(t),
        channel_table_valid(t.channels@),
{
    let mut channels: Vec<ChannelDescriptor> = Vec::new();
    channels.push(descriptor(0, "ADC current", "A", WireFormat::I16, MILLI_SCALE_BITS));
    channels.push(descriptor(1, "CLA input", "A", WireFormat::I16, MILLI_SCALE_BITS));
    channels.push(descriptor(2, "CLA result", "A", WireFormat::I16, MILLI_SCALE_BITS));
    channels.push(descriptor(3, "CLA completed sequence", "count", WireFormat::I32, UNIT_SCALE_BITS));
    channels.push(descriptor(4, "Current reference", "A", WireFormat::I16, MILLI_SCALE_BITS));
    channels.push(descriptor(5, "Control output", "V", WireFormat::I16, MILLI_SCALE_BITS));
    channels.push(descriptor(6, "Command sequence", "count", WireFormat::I32, UNIT_SCALE_BITS));
    channels.push(descriptor(7, "Applied sequence", "count", WireFormat::I32, UNIT_SCALE_BITS));
    channels.push(descriptor(8, "Run state", "", WireFormat::U8, UNIT_SCALE_BITS));
    channels.push(descriptor(9, "Fault flags", "bits", WireFormat::I32, UNIT_SCALE_BITS));
    channels.push(descriptor(10, "Logic tick", "count", WireFormat::I32, UNIT_SCALE_BITS));
    let t = ChannelTable { revision: 2, channels };
    assert forall|i: int| 0 <= i < 11 implies is_v2_channel(#[trigger] t.channels@[i], i) by {
        assert(0 <= i < 11);
    }
    t
}

/// The binding of channel `c` in the simulator's stream table.
pub open spec fn v2_binding(c: u16) -> StreamChannelBinding {
    if c == 0 {
        StreamChannelBinding { channel_id: 0, stream_id: 1, owner: SignalOwner::Cpu1, role: SignalRole::PhysicalSample }
    } else if c == 1 {
        StreamChannelBinding { channel_id: 1, stream_id: 1, owner: SignalOwner::Cpu1Cla1, role: SignalRole::ControlInput }
    } else if c == 2 {
        StreamChannelBinding { channel_id: 2, stream_id: 1, owner: SignalOwner::Cpu1Cla1, role: SignalRole::ControlOutput }
    } else if c == 3 {
        StreamChannelBinding { channel_id: 3, stream_id: 1, owner: SignalOwner::Cpu1Cla1, role: SignalRole::Metadata }
    } else if c == 4 {
        StreamChannelBinding { channel_id: 4, stream_id: 2, owner: SignalOwner::Cpu1, role: SignalRole::ControlInput }
    } else if c == 5 {
        StreamChannelBinding { channel_id: 5, stream_id: 2, owner: SignalOwner::Cpu1, role: SignalRole::ControlOutput }
    } else if c == 6 {
        StreamChannelBinding { channel_id: 6, stream_id: 2, owner: SignalOwner::Cpu1, role: SignalRole::Command }
    } else if c == 7 {
        StreamChannelBinding { channel_id: 7, stream_id: 2, owner: SignalOwner::Cpu1, role: SignalRole::AppliedCommand }
    } else if c == 8 {
        StreamChannelBinding { channel_id: 8, stream_id: 3, owner: SignalOwner::Cpu2, role: SignalRole::State }
    } else if c == 9 {
        StreamChannelBinding { channel_id: 9, stream_id: 3, owner: SignalOwner::Cpu2, role: SignalRole::Fault }
    } else {
        StreamChannelBinding { channel_id: 10, stream_id: 3, owner: SignalOwner::Cpu2, role: SignalRole::Metadata }
    }
}

/// The simulator's second-revision stream table: a fast, a control and a
/// slow stream in group 1, owning channels 0..=3, 4..=7 and 8..=10.
pub open spec fn spec_v2_stream_table() -> StreamTableV {
    StreamTableV {
        revision: 2,
        streams: seq![
            StreamDescriptorV {
                stream_id: 1,
                domain: SampleDomain::Fast32k,
                capture_phase: CapturePhase::AfterClaComplete,
                sample_rate_hz: 32_000,
                consistency_group: 1,
                channel_ids: seq![0u16, 1, 2, 3],
            },
            StreamDescriptorV {
                stream_id: 2,
                domain: SampleDomain::Control8k,
                capture_phase: CapturePhase::ControlCycleEnd,
                sample_rate_hz: 8_000,
                consistency_group: 1,
                channel_ids: seq![4u16, 5, 6, 7],
            },
            StreamDescriptorV {
                stream_id: 3,
                domain: SampleDomain::Slow1k,
                capture_phase: CapturePhase::LogicTaskEnd,
                sample_rate_hz: 1_000,
                consistency_group: 1,
                channel_ids: seq![8u16, 9, 10],
            },
        ],
        bindings: Seq::new(11, |c: int| v2_binding(c as u16)),
        causal_relations: Seq::empty(),
    }
}

/// The stream table the second-revision simulator announces.
pub fn v2_stream_table() -> (t: StreamTable)
    ensures
        t@ == spec_v2_stream_table(),
{
    let streams = vec![
        StreamDescriptor {
            stream_id: 1,
            domain: SampleDomain::Fast32k,
            capture_phase: CapturePhase::AfterClaComplete,
            sample_rate_hz: 32_000,
            consistency_group: 1,
            channel_ids: vec![0, 1, 2, 3],
        },
        StreamDescriptor {
            stream_id: 2,
            domain: SampleDomain::Control8k,
            capture_phase: CapturePhase::ControlCycleEnd,
            sample_rate_hz: 8_000,
            consistency_group: 1,
            channel_ids: vec![4, 5, 6, 7],
        },
        StreamDescriptor {
            stream_id: 3,
            domain: SampleDomain::Slow1k,
            capture_phase: CapturePhase::LogicTaskEnd,
            sample_rate_hz: 1_000,
            consistency_group: 1,
            channel_ids: vec![8, 9, 10],
        },
    ];
    let bindings = vec![
        StreamChannelBinding { channel_id: 0, stream_id: 1, owner: SignalOwner::Cpu1, role: SignalRole::PhysicalSample },
        StreamChannelBinding { channel_id: 1, stream_id: 1, owner: SignalOwner::Cpu1Cla1, role: SignalRole::ControlInput },
        StreamChannelBinding { channel_id: 2, stream_id: 1, owner: SignalOwner::Cpu1Cla1, role: SignalRole::ControlOutput },
        StreamChannelBinding { channel_id: 3, stream_id: 1, owner: SignalOwner::Cpu1Cla1, role: SignalRole::Metadata },
        StreamChannelBinding { channel_id: 4, stream_id: 2, owner: SignalOwner::Cpu1, role: SignalRole::ControlInput },
        StreamChannelBinding { channel_id: 5, stream_id: 2, owner: SignalOwner::Cpu1, role: SignalRole::ControlOutput },
        StreamChannelBinding { channel_id: 6, stream_id: 2, owner: SignalOwner::Cpu1, role: SignalRole::Command },
        StreamChannelBinding { channel_id: 7, stream_id: 2, owner: SignalOwner::Cpu1, role: SignalRole::AppliedCommand },
        StreamChannelBinding { channel_id: 8, stream_id: 3, owner: SignalOwner::Cpu2, role: SignalRole::State },
        StreamChannelBinding { channel_id: 9, stream_id: 3, owner: SignalOwner::Cpu2, role: SignalRole::Fault },
        StreamChannelBinding { channel_id: 10, stream_id: 3, owner: SignalOwner::Cpu2, role: SignalRole::Metadata },
    ];
    let t = StreamTable { revision: 2, streams, bindings, causal_relations: Vec::new() };
    proof {
        let e = spec_v2_stream_table();
        assert(t@.streams[0].channel_ids =~= e.streams[0].channel_ids);
        assert(t@.streams[1].channel_ids =~= e.streams[1].channel_ids);
        assert(t@.streams[2].channel_ids =~= e.streams[2].channel_ids);
        assert(t@.streams =~= e.streams);
        assert(t@.bindings =~= e.bindings);
        assert(t@.causal_relations =~= e.causal_relations);
    }
    t
}

/// The simulator's stream table is one the stream table validator accepts.
pub proof fn lemma_v2_stream_table_valid()
    ensures
        stream_table_valid(spec_v2_stream_table()),
{
    let t = spec_v2_stream_table();
    let s = t.streams;
    let b = t.bindings;
    reveal_with_fuel(lookup_stream, 4);
    assert(s.drop_first() =~= seq![s[1], s[2]]);
    assert(s.drop_first().drop_first() =~= seq![s[2]]);
    assert(lookup_stream(s, 1) == Some(s[0]));
    assert(lookup_stream(s, 2) == Some(s[1]));
    assert(lookup_stream(s, 3) == Some(s[2]));
    assert forall|i: int| 0 <= i < b.len() implies (#[trigger] lookup_stream(s, b[i].stream_id)) is Some by {
        assert(b[i] == v2_binding(i as u16));
    }
    assert forall|i: int, j: int| 0 <= i < j < b.len() implies b[i].channel_id != b[j].channel_id by {
        assert(b[i] == v2_binding(i as u16));
        assert(b[j] == v2_binding(j as u16));
    }
    assert forall|i: int, c: u16| 0 <= i < s.len() implies ((#[trigger] s[i].channel_ids.contains(c))
        <==> #[trigger] bound_to(b, s[i].stream_id, c)) by {
        if s[i].channel_ids.contains(c) {
            let k = choose|k: int| 0 <= k < s[i].channel_ids.len() && s[i].channel_ids[k] == c;
            assert(b[c as int] == v2_binding(c));
        }
        if bound_to(b, s[i].stream_id, c) {
            let m = choose|m: int| 0 <= m < b.len() && b[m].stream_id == s[i].stream_id && b[m].channel_id == c;
            assert(b[m] == v2_binding(m as u16));
            if i == 0 {
                assert(s[0].channel_ids[c as int] == c);
            } else if i == 1 {
                assert(s[1].channel_ids[c - 4] == c);
            } else {
                assert(s[2].channel_ids[c - 8] == c);
            }
        }
    }
    assert forall|i: int, j: int, c: u16|
        0 <= i < j < s.len() && (#[trigger] s[i].channel_ids.contains(c)) implies !(
        #[trigger] s[j].channel_ids.contains(c)) by {
        let k = choose|k: int| 0 <= k < s[i].channel_ids.len() && s[i].channel_ids[k] == c;
        if s[j].channel_ids.contains(c) {
            let l = choose|l: int| 0 <= l < s[j].channel_ids.len() && s[j].channel_ids[l] == c;
        }
    }
}

// ---------------------------------------------------------------------------
// Simulated stream batches
// ---------------------------------------------------------------------------

/// Why the simulator could not build what it sends.
#[derive(Clone, Debug, PartialEq, Eq)]
pub enum SimulatorV2Error {
    UnknownStream,
    MissingChannelDescriptor,
    UnknownCaptureStream,
    Protocol(ProtocolError),
}

/// The words `message` gives for each refusal.
pub open spec fn simulator_v2_error_text(e: SimulatorV2Error) -> Seq<char> {
    match e {
        SimulatorV2Error::UnknownStream => "unknown V2 stream"@,
        SimulatorV2Error::MissingChannelDescriptor => "missing V2 channel descriptor"@,
        SimulatorV2Error::UnknownCaptureStream => "capture stream is unknown"@,
        SimulatorV2Error::Protocol(e) => crate::protocol::protocol_error_text(e),
    }
}

impl SimulatorV2Error {
    /// The failure in words.
    pub fn message(&self) -> (r: String)
        ensures
            r@ == simulator_v2_error_text(*self),
    {
        match self {
            SimulatorV2Error::UnknownStream => "unknown V2 stream".to_string(),
            SimulatorV2Error::MissingChannelDescriptor => "missing V2 channel descriptor".to_string(),
            SimulatorV2Error::UnknownCaptureStream => "capture stream is unknown".to_string(),
            SimulatorV2Error::Protocol(e) => e.message(),
        }
    }
}

/// The ids of `ids` whose bit `mask` sets, in order.
pub open spec fn selected_ids(ids: Seq<u16>, mask: u64) -> Seq<u16>
    decreases ids.len(),
{
    if ids.len() == 0 {
        Seq::empty()
    } else if has_bit(mask, ids.last() as u64) {
        selected_ids(ids.drop_last(), mask).push(ids.last())
    } else {
        selected_ids(ids.drop_last(), mask)
    }
}

/// The value the simulator sends for channel `c` in row `row`: their sum,
/// capped at `i32::MAX`.
pub open spec fn sim_value(row: u64, c: u16) -> int {
    if row + c > 0x7fff_ffff {
        0x7fff_ffff
    } else {
        row + c
    }
}

/// The wire bytes of the non-negative sample `v` in format `f`: the low 16
/// bits, the 32 bits, the single-precision pattern, or the low bit.
pub open spec fn sample_bytes(f: WireFormat, v: int) -> Seq<u8> {
    match f {
        WireFormat::I16 => le16((v % 0x1_0000) as u16),
        WireFormat::I32 => le32(v as u32),
        WireFormat::F32 => le32(f32_bits_of_nat(v as nat) as u32),
        WireFormat::U8 => seq![(v % 2) as u8],
    }
}

/// Every id names a channel of the table.
pub open spec fn all_described(channels: Seq<ChannelDescriptor>, ids: Seq<u16>) -> bool {
    forall|k: int| 0 <= k < ids.len() ==> (#[trigger] lookup_channel(channels, ids[k])) is Some
}

/// The samples of the first `k` channels of `ids` in row `row`.
pub open spec fn row_bytes(channels: Seq<ChannelDescriptor>, ids: Seq<u16>, row: u64, k: int) -> Seq<u8>
    decreases k,
{
    if k <= 0 {
        Seq::empty()
    } else {
        row_bytes(channels, ids, row, k - 1) + sample_bytes(
            lookup_channel(channels, ids[k - 1])->Some_0.wire_format,
            sim_value(row, ids[k - 1]),
        )
    }
}

/// Row `offset` of a batch starting at `first`.
pub open spec fn batch_row(first: u64, offset: int) -> u64 {
    if first + offset > u64::MAX {
        u64::MAX
    } else {
        (first + offset) as u64
    }
}

/// The sample bytes of the first `n` rows.
pub open spec fn rows_bytes(channels: Seq<ChannelDescriptor>, ids: Seq<u16>, first: u64, n: int) -> Seq<u8>
    decreases n,
{
    if n <= 0 {
        Seq::empty()
    } else {
        rows_bytes(channels, ids, first, n - 1) + row_bytes(channels, ids, batch_row(first, n - 1), ids.len() as int)
    }
}

/// The batch of `configure.batch_samples` rows from `first` that the
/// simulator sends for a configured stream.
pub open spec fn spec_v2_sample_batch(
    streams: StreamTableV,
    channels: Seq<ChannelDescriptor>,
    configure: ConfigureStream,
    first: u64,
    preset: V2Preset,
) -> Result<StreamSampleBatchV, SimulatorV2Error> {
    match lookup_stream(streams.streams, configure.stream_id) {
        None => Err(SimulatorV2Error::UnknownStream),
        Some(d) => {
            let ids = selected_ids(d.channel_ids, configure.channel_mask);
            let n = configure.batch_samples as int;
            if n > 0 && !all_described(channels, ids) {
                Err(SimulatorV2Error::MissingChannelDescriptor)
            } else {
                Ok(
                    StreamSampleBatchV {
                        stream_id: d.stream_id,
                        stream_revision: streams.revision,
                        domain: d.domain,
                        capture_phase: d.capture_phase,
                        consistency_group: d.consistency_group,
                        first_row_sequence: first,
                        sample_period_ticks: (V2_SIMULATOR_TICK_HZ / d.sample_rate_hz as u64) as u32,
                        row_count: configure.batch_samples,
                        channel_ids: ids,
                        sample_data: rows_bytes(channels, ids, first, n),
                        row_metadata: Seq::new(n as nat, |k: int| spec_row_meta(preset, d.domain, batch_row(first, k))),
                    },
                )
            }
        },
    }
}

/// What the simulator can build a batch for without a fault: the stream it
/// is asked for, if any, has a rate and channel ids below 64.
pub open spec fn sample_batch_defined(streams: StreamTableV, stream_id: u16) -> bool {
    lookup_stream(streams.streams, stream_id) matches Some(d) ==> {
        &&& d.sample_rate_hz != 0
        &&& forall|k: int| 0 <= k < d.channel_ids.len() ==> (d.channel_ids[k] as int) < 64
    }
}

fn push_sample(bytes: &mut Vec<u8>, f: WireFormat, value: u32)
    requires
        value <= 0x7fff_ffff,
    ensures
        final(bytes)@ == old(bytes)@ + sample_bytes(f, value as int),
{
    match f {
        WireFormat::I16 => put_u16(bytes, (value % 0x1_0000) as u16),
        WireFormat::I32 => put_u32(bytes, value),
        WireFormat::F32 => put_u32(bytes, f32_bits_of_u31(value)),
        WireFormat::U8 => {
            bytes.push((value % 2) as u8);
        },
    }
}

/// The batch of `configure.batch_samples` rows from `first_row_sequence`
/// that the simulator sends for a configured stream.
pub fn v2_sample_batch(
    streams: &StreamTable,
    channels: &ChannelTable,
    configure: &ConfigureStream,
    first_row_sequence: u64,
    preset: V2Preset,
) -> (r: Result<StreamSampleBatch, SimulatorV2Error>)
    requires
        sample_batch_defined(streams@, configure.stream_id),
    ensures
        match spec_v2_sample_batch(streams@, channels.channels@, *configure, first_row_sequence, preset) {
            Ok(b) => r matches Ok(x) && x@ == b,
            Err(e) => r == Err::<StreamSampleBatch, SimulatorV2Error>(e),
        },
{
    let descriptor = match streams.stream(configure.stream_id) {
        Some(d) => d,
        None => {
            return Err(SimulatorV2Error::UnknownStream);
        },
    };
    let ghost d = descriptor@;
    let mask = configure.channel_mask;
    let mut channel_ids: Vec<u16> = Vec::new();
    let mut j: usize = 0;
    while j < descriptor.channel_ids.len()
        invariant
            j <= d.channel_ids.len(),
            d == descriptor@,
            forall|k: int| 0 <= k < d.channel_ids.len() ==> (d.channel_ids[k] as int) < 64,
            channel_ids@ == selected_ids(d.channel_ids.take(j as int), mask),
        decreases descriptor.channel_ids.len() - j,
    {
        let id = descriptor.channel_ids[j];
        proof {
            lemma_test_bit(mask, id as u64);
            assert(d.channel_ids.take(j + 1).drop_last() =~= d.channel_ids.take(j as int));
        }
        if mask & (1u64 << (id as u64)) != 0 {
            channel_ids.push(id);
        }
        j = j + 1;
    }
    assert(d.channel_ids.take(d.channel_ids.len() as int) =~= d.channel_ids);
    let ghost ids = channel_ids@;
    let ghost chs = channels.channels@;
    let n = configure.batch_samples;
    let mut sample_data: Vec<u8> = Vec::new();
    let mut row_metadata: Vec<SnapshotMeta> = Vec::new();
    let mut offset: u16 = 0;
    while offset < n
        invariant
            offset <= n,
            n == configure.batch_samples,
            d == descriptor@,
            lookup_stream(streams@.streams, configure.stream_id) == Some(d),
            ids == selected_ids(d.channel_ids, configure.channel_mask),
            ids == channel_ids@,
            chs == channels.channels@,
            offset > 0 ==> all_described(chs, ids),
            sample_data@ == rows_bytes(chs, ids, first_row_sequence, offset as int),
            row_metadata@ == Seq::new(
                offset as nat,
                |k: int| spec_row_meta(preset, d.domain, batch_row(first_row_sequence, k)),
            ),
        decreases n - offset,
    {
        let row = first_row_sequence.saturating_add(offset as u64);
        assert(row == batch_row(first_row_sequence, offset as int));
        let ghost before = sample_data@;
        let mut k: usize = 0;
        while k < channel_ids.len()
            invariant
                k <= ids.len(),
                offset < n,
                n == configure.batch_samples,
                lookup_stream(streams@.streams, configure.stream_id) == Some(d),
                ids == selected_ids(d.channel_ids, configure.channel_mask),
                ids == channel_ids@,
                chs == channels.channels@,
                offset > 0 ==> all_described(chs, ids),
                forall|a: int| 0 <= a < k ==> (#[trigger] lookup_channel(chs, ids[a])) is Some,
                sample_data@ == before + row_bytes(chs, ids, row, k as int),
            decreases channel_ids.len() - k,
        {
            let id = channel_ids[k];
            let channel = match channels.channel(id) {
                Some(c) => c,
                None => {
                    assert(!all_described(chs, ids));
                    return Err(SimulatorV2Error::MissingChannelDescriptor);
                },
            };
            let sum = row.saturating_add(id as u64);
            let value: u32 = if sum <= 0x7fff_ffff {
                sum as u32
            } else {
                0x7fff_ffff
            };
            assert(value == sim_value(row, id));
            push_sample(&mut sample_data, channel.wire_format, value);
            k = k + 1;
        }
        assert(all_described(chs, ids));
        row_metadata.push(v2_row_meta(preset, descriptor.domain, row));
        proof {
            assert(row_metadata@ =~= Seq::new(
                (offset + 1) as nat,
                |k: int| spec_row_meta(preset, d.domain, batch_row(first_row_sequence, k)),
            ));
        }
        offset = offset + 1;
    }
    let period = (V2_SIMULATOR_TICK_HZ / descriptor.sample_rate_hz as u64) as u32;
    Ok(StreamSampleBatch {
        stream_id: descriptor.stream_id,
        stream_revision: streams.revision,
        domain: descriptor.domain,
        capture_phase: descriptor.capture_phase,
        consistency_group: descriptor.consistency_group,
        first_row_sequence,
        sample_period_ticks: period,
        row_count: n,
        channel_ids,
        sample_data,
        row_metadata,
    })
}

// ---------------------------------------------------------------------------
// Simulated capture upload
// ---------------------------------------------------------------------------

/// The mask with a bit for each of `ids`.
pub open spec fn ids_mask(ids: Seq<u16>) -> u64
    decreases ids.len(),
{
    if ids.len() == 0 {
        0
    } else {
        ids_mask(ids.drop_last()) | (1u64 << ids.last())
    }
}

pub open spec fn message_views(s: Seq<MessageV2>) -> Seq<MessageV2V> {
    s.map_values(|m: MessageV2| m@)
}

/// What the simulator sends for a capture, in order, and the failure that
/// stops it after those messages, if any.
#[derive(Debug)]
pub struct CaptureUploadPlan {
    pub messages: Vec<MessageV2>,
    pub failure: Option<SimulatorV2Error>,
}

pub open spec fn upload_status(capture_id: u32, state: CaptureState, rows: u32) -> MessageV2V {
    MessageV2V::CaptureStatus(CaptureStatus { capture_id, state, captured_rows: rows, dropped_rows: 0 })
}

/// The two one-row blocks of a simulated capture: the rows at and after the
/// trigger row, with every channel of the stream.
pub open spec fn upload_configure(capture: ArmCapture, d: StreamDescriptorV) -> ConfigureStream {
    ConfigureStream { stream_id: capture.stream_id, batch_samples: 1, channel_mask: ids_mask(d.channel_ids) }
}

/// The status and announcement that open an upload.
pub open spec fn upload_head(capture: ArmCapture, first: u64) -> Seq<MessageV2V> {
    seq![
        upload_status(capture.capture_id, CaptureState::Uploading, 2),
        MessageV2V::CaptureBegin(
            CaptureBegin { capture_id: capture.capture_id, stream_id: capture.stream_id, row_count: 2, trigger_row_seq: first },
        ),
    ]
}

/// The data blocks in the order the preset sends them: the chunk-loss
/// preset drops the first, the reorder preset swaps them.
pub open spec fn upload_data(preset: V2Preset, d0: CaptureDataV, d1: CaptureDataV) -> Seq<MessageV2V> {
    if preset is CaptureChunkLoss30k {
        seq![MessageV2V::CaptureData(d1)]
    } else if preset is CaptureChunkReorder30k {
        seq![MessageV2V::CaptureData(d1), MessageV2V::CaptureData(d0)]
    } else {
        seq![MessageV2V::CaptureData(d0), MessageV2V::CaptureData(d1)]
    }
}

pub open spec fn upload_end(capture_id: u32, summary: u32) -> MessageV2V {
    MessageV2V::CaptureEnd(
        CaptureEnd {
            capture_id,
            state: CaptureState::Complete,
            uploaded_rows: 2,
            dropped_rows: 0,
            total_blocks: 2,
            total_samples: 2,
            integrity_summary: summary,
        },
    )
}

/// The integrity summary of the two blocks can be computed.
pub open spec fn summary_defined(capture_id: u32, blocks: Seq<CaptureDataV>) -> bool {
    blocks_encodable(sort_by_index(blocks)) && summary_input(capture_id, blocks).len()
        <= MAX_CAPTURE_PAYLOAD_BYTES
}

/// The messages that upload a simulated capture: a reset or timeout preset
/// answers with that status alone; otherwise two one-row blocks of the
/// capture's stream, announced, sent in the preset's order, and closed with
/// their integrity summary.
pub fn simulated_capture_upload(
    streams: &StreamTable,
    channels: &ChannelTable,
    capture: &ArmCapture,
    preset: V2Preset,
    first_row_sequence: u64,
) -> (r: CaptureUploadPlan)
    requires
        sample_batch_defined(streams@, capture.stream_id),
    ensures
        preset is DeviceReset30k ==> message_views(r.messages@) == seq![
            upload_status(capture.capture_id, CaptureState::DeviceReset, 0),
        ] && r.failure is None,
        preset is CaptureTimeout30k ==> message_views(r.messages@) == seq![
            upload_status(capture.capture_id, CaptureState::Timeout, 0),
        ] && r.failure is None,
        !(preset is DeviceReset30k) && !(preset is CaptureTimeout30k) ==> match lookup_stream(
            streams@.streams,
            capture.stream_id,
        ) {
            None => r.messages@.len() == 0 && r.failure == Some(SimulatorV2Error::UnknownCaptureStream),
            Some(d) => {
                let c = upload_configure(*capture, d);
                let b0 = spec_v2_sample_batch(streams@, channels.channels@, c, first_row_sequence, V2Preset::Normal30k);
                let b1 = spec_v2_sample_batch(
                    streams@,
                    channels.channels@,
                    c,
                    batch_row(first_row_sequence, 1),
                    V2Preset::Normal30k,
                );
                match (b0, b1) {
                    (Err(e), _) => r.messages@.len() == 0 && r.failure == Some(e),
                    (Ok(_), Err(e)) => r.messages@.len() == 0 && r.failure == Some(e),
                    (Ok(x0), Ok(x1)) => {
                        let d0 = CaptureDataV { capture_id: capture.capture_id, block_index: 0, batch: x0 };
                        let d1 = CaptureDataV { capture_id: capture.capture_id, block_index: 1, batch: x1 };
                        let blocks = seq![d0, d1];
                        if summary_defined(capture.capture_id, blocks) {
                            &&& message_views(r.messages@) == upload_head(*capture, first_row_sequence)
                                + upload_data(preset, d0, d1) + seq![
                                upload_end(capture.capture_id, spec_crc32c(summary_input(capture.capture_id, blocks))),
                            ]
                            &&& r.failure is None
                        } else {
                            &&& message_views(r.messages@) == upload_head(*capture, first_row_sequence)
                            &&& r.failure matches Some(SimulatorV2Error::Protocol(_))
                        }
                    },
                }
            },
        },
{
    let mut messages: Vec<MessageV2> = Vec::new();
    if preset == V2Preset::DeviceReset30k || preset == V2Preset::CaptureTimeout30k {
        let state = if preset == V2Preset::DeviceReset30k {
            CaptureState::DeviceReset
        } else {
            CaptureState::Timeout
        };
        messages.push(
            MessageV2::CaptureStatus(
                CaptureStatus { capture_id: capture.capture_id, state, captured_rows: 0, dropped_rows: 0 },
            ),
        );
        assert(message_views(messages@) =~= seq![upload_status(capture.capture_id, state, 0)]);
        return CaptureUploadPlan { messages, failure: None };
    }
    let source = match streams.stream(capture.stream_id) {
        Some(d) => d,
        None => {
            return CaptureUploadPlan { messages, failure: Some(SimulatorV2Error::UnknownCaptureStream) };
        },
    };
    let ghost d = source@;
    let mut mask: u64 = 0;
    let mut j: usize = 0;
    while j < source.channel_ids.len()
        invariant
            j <= d.channel_ids.len(),
            d == source@,
            forall|k: int| 0 <= k < d.channel_ids.len() ==> (d.channel_ids[k] as int) < 64,
            mask == ids_mask(d.channel_ids.take(j as int)),
        decreases source.channel_ids.len() - j,
    {
        let id = source.channel_ids[j];
        assert(d.channel_ids.take(j + 1).drop_last() =~= d.channel_ids.take(j as int));
        mask = mask | (1u64 << (id as u64));
        j = j + 1;
    }
    assert(d.channel_ids.take(d.channel_ids.len() as int) =~= d.channel_ids);
    let configure = ConfigureStream { stream_id: capture.stream_id, batch_samples: 1, channel_mask: mask };
    let first = match v2_sample_batch(streams, channels, &configure, first_row_sequence, V2Preset::Normal30k) {
        Ok(b) => b,
        Err(e) => {
            return CaptureUploadPlan { messages, failure: Some(e) };
        },
    };
    let second = match v2_sample_batch(
        streams,
        channels,
        &configure,
        first_row_sequence.saturating_add(1),
        V2Preset::Normal30k,
    ) {
        Ok(b) => b,
        Err(e) => {
            return CaptureUploadPlan { messages, failure: Some(e) };
        },
    };
    messages.push(
        MessageV2::CaptureStatus(
            CaptureStatus { capture_id: capture.capture_id, state: CaptureState::Uploading, captured_rows: 2, dropped_rows: 0 },
        ),
    );
    messages.push(
        MessageV2::CaptureBegin(
            CaptureBegin { capture_id: capture.capture_id, stream_id: capture.stream_id, row_count: 2, trigger_row_seq: first_row_sequence },
        ),
    );
    let ghost head = messages@;
    assert(message_views(head) =~= upload_head(*capture, first_row_sequence));
    let first_data = CaptureData { capture_id: capture.capture_id, block_index: 0, batch: first };
    let second_data = CaptureData { capture_id: capture.capture_id, block_index: 1, batch: second };
    let ghost d0 = first_data@;
    let ghost d1 = second_data@;
    let mut blocks = vec![first_data, second_data];
    assert(data_views(blocks@) =~= seq![d0, d1]);
    let summary = match capture_integrity_summary(capture.capture_id, &blocks) {
        Ok(c) => c,
        Err(e) => {
            return CaptureUploadPlan { messages, failure: Some(SimulatorV2Error::Protocol(e)) };
        },
    };
    let second_data = blocks.pop().unwrap();
    let first_data = blocks.pop().unwrap();
    assert(first_data@ == d0 && second_data@ == d1);
    if preset == V2Preset::CaptureChunkLoss30k {
        messages.push(MessageV2::CaptureData(second_data));
    } else if preset == V2Preset::CaptureChunkReorder30k {
        messages.push(MessageV2::CaptureData(second_data));
        messages.push(MessageV2::CaptureData(first_data));
    } else {
        messages.push(MessageV2::CaptureData(first_data));
        messages.push(MessageV2::CaptureData(second_data));
    }
    messages.push(
        MessageV2::CaptureEnd(
            CaptureEnd {
                capture_id: capture.capture_id,
                state: CaptureState::Complete,
                uploaded_rows: 2,
                dropped_rows: 0,
                total_blocks: 2,
                total_samples: 2,
                integrity_summary: summary,
            },
        ),
    );
    assert(message_views(messages@) =~= upload_head(*capture, first_row_sequence) + upload_data(preset, d0, d1)
        + seq![upload_end(capture.capture_id, summary)]);
    CaptureUploadPlan { messages, failure: None }
}

// ---------------------------------------------------------------------------
// One streamed batch
// ---------------------------------------------------------------------------

/// Session id the simulator announces.
pub const SIMULATOR_SESSION_ID: u32 = 1;

pub open spec fn saturating_sub_u64(a: u64, b: u64) -> u64 {
    if a >= b {
        (a - b) as u64
    } else {
        0
    }
}

/// Every row moved back by `n`, and the batch restarted at its first row.
pub open spec fn reordered_batch(b: StreamSampleBatchV, n: u16) -> StreamSampleBatchV {
    let rows = b.row_metadata.map_values(
        |m: SnapshotMeta|
            SnapshotMeta {
                row_sequence: saturating_sub_u64(m.row_sequence, n as u64),
                logical_cycle_sequence: m.logical_cycle_sequence,
                source_sequence: m.source_sequence,
                applied_sequence: m.applied_sequence,
                valid_flags: m.valid_flags,
            },
    );
    StreamSampleBatchV {
        stream_id: b.stream_id,
        stream_revision: b.stream_revision,
        domain: b.domain,
        capture_phase: b.capture_phase,
        consistency_group: b.consistency_group,
        first_row_sequence: rows[0].row_sequence,
        sample_period_ticks: b.sample_period_ticks,
        row_count: b.row_count,
        channel_ids: b.channel_ids,
        sample_data: b.sample_data,
        row_metadata: rows,
    }
}

/// The batch as streamed: the row-reorder preset moves every batch from
/// the second on back by one batch.
pub open spec fn streamed_batch(b: StreamSampleBatchV, preset: V2Preset, emitted: u64, n: u16) -> StreamSampleBatchV {
    if preset is RowReorder30k && emitted >= 2 {
        reordered_batch(b, n)
    } else {
        b
    }
}

/// The payload as streamed: the phase-mismatch preset rewrites the capture
/// phase byte to the control-cycle phase, the group-mismatch preset the
/// consistency group to 2.
pub open spec fn tampered_payload(p: Seq<u8>, preset: V2Preset) -> Seq<u8> {
    if preset is PhaseMismatch30k {
        p.update(7, CapturePhase::ControlCycleEnd.spec_code())
    } else if preset is GroupMismatch30k {
        p.update(8, 2u8).update(9, 0u8)
    } else {
        p
    }
}

/// The row the next batch starts at: one batch on, and one more after the
/// first batch of the row-gap preset.
pub open spec fn next_row(row_sequence: u64, n: u16, preset: V2Preset, emitted: u64) -> int {
    let next = row_sequence + n;
    if preset is RowGap30k && emitted == 1 {
        if next + 1 > u64::MAX {
            u64::MAX as int
        } else {
            next + 1
        }
    } else {
        next
    }
}

proof fn lemma_batch_payload_len(b: StreamSampleBatchV)
    ensures
        enc_message(MessageV2V::StreamSampleBatch(b)).len() >= 26,
{
    assert(enc_batch_head(b).len() == 26);
}

/// The frame of one streamed batch and the row the next batch starts at.
#[derive(Debug)]
pub struct StreamingStep {
    pub frame: Frame,
    pub next_row_sequence: u64,
}

/// Why a streamed batch could not be built.
#[derive(Clone, Debug, PartialEq, Eq)]
pub enum StreamingStepError {
    Batch(SimulatorV2Error),
    TimestampOverflow,
    Frame(ProtocolError),
    RowSequenceOverflow,
}

/// The words `message` gives for each refusal.
pub open spec fn streaming_step_error_text(e: StreamingStepError) -> Seq<char> {
    match e {
        StreamingStepError::Batch(e) => simulator_v2_error_text(e),
        StreamingStepError::TimestampOverflow => "V2 timestamp overflow"@,
        StreamingStepError::Frame(e) => crate::protocol::protocol_error_text(e),
        StreamingStepError::RowSequenceOverflow => "V2 row sequence overflow"@,
    }
}

impl StreamingStepError {
    /// The failure in words.
    pub fn message(&self) -> (r: String)
        ensures
            r@ == streaming_step_error_text(*self),
    {
        match self {
            StreamingStepError::Batch(e) => e.message(),
            StreamingStepError::TimestampOverflow => "V2 timestamp overflow".to_string(),
            StreamingStepError::Frame(e) => e.message(),
            StreamingStepError::RowSequenceOverflow => "V2 row sequence overflow".to_string(),
        }
    }
}

fn reorder_rows(batch: &mut StreamSampleBatch, n: u16)
    requires
        old(batch)@.row_metadata.len() >= 1,
    ensures
        final(batch)@ == reordered_batch(old(batch)@, n),
{
    let ghost b = batch@;
    let len = batch.row_metadata.len();
    let mut i: usize = 0;
    while i < len
        invariant
            len == b.row_metadata.len(),
            batch.row_metadata@.len() == len,
            i <= len,
            forall|k: int| 0 <= k < i ==> batch.row_metadata@[k] == reordered_batch(b, n).row_metadata[k],
            forall|k: int| i <= k < len ==> batch.row_metadata@[k] == b.row_metadata[k],
            batch.stream_id == b.stream_id,
            batch.stream_revision == b.stream_revision,
            batch.domain == b.domain,
            batch.capture_phase == b.capture_phase,
            batch.consistency_group == b.consistency_group,
            batch.sample_period_ticks == b.sample_period_ticks,
            batch.row_count == b.row_count,
            batch.channel_ids@ == b.channel_ids,
            batch.sample_data@ == b.sample_data,
        decreases len - i,
    {
        let m = batch.row_metadata[i];
        let moved = SnapshotMeta {
            row_sequence: m.row_sequence.saturating_sub(n as u64),
            logical_cycle_sequence: m.logical_cycle_sequence,
            source_sequence: m.source_sequence,
            applied_sequence: m.applied_sequence,
            valid_flags: m.valid_flags,
        };
        batch.row_metadata.set(i, moved);
        i = i + 1;
    }
    batch.first_row_sequence = batch.row_metadata[0].row_sequence;
    assert(batch@.row_metadata =~= reordered_batch(b, n).row_metadata);
}

fn tamper_payload(payload: &mut Vec<u8>, preset: V2Preset)
    requires
        old(payload)@.len() >= 10,
    ensures
        final(payload)@ == tampered_payload(old(payload)@, preset),
{
    if preset == V2Preset::PhaseMismatch30k {
        payload.set(7, CapturePhase::ControlCycleEnd.code());
    } else if preset == V2Preset::GroupMismatch30k {
        payload.set(8, 2);
        payload.set(9, 0);
    }
}

/// The `emitted`-th batch a streaming simulator sends from row
/// `row_sequence`: the configured stream's batch as the preset alters it,
/// stamped with the row's tick, framed under `out_sequence`, and the row
/// the next batch starts at.
#[verifier::rlimit(40)]
pub fn v2_streaming_step(
    streams: &StreamTable,
    channels: &ChannelTable,
    configure: &ConfigureStream,
    row_sequence: u64,
    emitted: u64,
    preset: V2Preset,
    out_sequence: u32,
) -> (r: Result<StreamingStep, StreamingStepError>)
    requires
        sample_batch_defined(streams@, configure.stream_id),
        preset is RowReorder30k && emitted >= 2 ==> configure.batch_samples >= 1,
    ensures
        match spec_v2_sample_batch(streams@, channels.channels@, *configure, row_sequence, preset) {
            Err(e) => r == Err::<StreamingStep, StreamingStepError>(StreamingStepError::Batch(e)),
            Ok(b) => {
                let n = configure.batch_samples;
                let sb = streamed_batch(b, preset, emitted, n);
                let ts = row_sequence * b.sample_period_ticks;
                let m = MessageV2V::StreamSampleBatch(sb);
                if ts > u64::MAX {
                    r == Err::<StreamingStep, StreamingStepError>(StreamingStepError::TimestampOverflow)
                } else if !message_encodable(m) || enc_message(m).len() > MAX_PAYLOAD_LEN {
                    r matches Err(StreamingStepError::Frame(_))
                } else if row_sequence + n > u64::MAX {
                    r == Err::<StreamingStep, StreamingStepError>(StreamingStepError::RowSequenceOverflow)
                } else {
                    &&& r matches Ok(s)
                    &&& s.frame.version == PROTOCOL_VERSION_V2
                    &&& s.frame.message_type == MSG_STREAM_SAMPLE_BATCH
                    &&& s.frame.flags == 0
                    &&& s.frame.sequence == out_sequence
                    &&& s.frame.session_id == SIMULATOR_SESSION_ID
                    &&& s.frame.timestamp_ticks == ts
                    &&& s.frame.payload@ == tampered_payload(enc_message(m), preset)
                    &&& s.next_row_sequence == next_row(row_sequence, n, preset, emitted)
                }
            },
        },
{
    let mut batch = match v2_sample_batch(streams, channels, configure, row_sequence, preset) {
        Ok(b) => b,
        Err(e) => {
            return Err(StreamingStepError::Batch(e));
        },
    };
    let ghost b = batch@;
    let n = configure.batch_samples;
    if preset == V2Preset::RowReorder30k && emitted >= 2 {
        reorder_rows(&mut batch, n);
    }
    assert(batch@ == streamed_batch(b, preset, emitted, n));
    let timestamp_ticks = match row_sequence.checked_mul(batch.sample_period_ticks as u64) {
        Some(t) => t,
        None => {
            return Err(StreamingStepError::TimestampOverflow);
        },
    };
    let mut frame = match MessageV2::StreamSampleBatch(batch).into_frame(
        0,
        out_sequence,
        SIMULATOR_SESSION_ID,
        timestamp_ticks,
    ) {
        Ok(f) => f,
        Err(e) => {
            return Err(StreamingStepError::Frame(e));
        },
    };
    proof {
        lemma_batch_payload_len(streamed_batch(b, preset, emitted, n));
    }
    tamper_payload(&mut frame.payload, preset);
    let mut next_row_sequence = match row_sequence.checked_add(n as u64) {
        Some(v) => v,
        None => {
            return Err(StreamingStepError::RowSequenceOverflow);
        },
    };
    if preset == V2Preset::RowGap30k && emitted == 1 {
        next_row_sequence = next_row_sequence.saturating_add(1);
    }
    Ok(StreamingStep { frame, next_row_sequence })
}

} // verus!
