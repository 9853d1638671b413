//! The deterministic decisions of the device simulator: its presets, the
//! validation of its settings, and the metadata of the rows it produces.

use vstd::prelude::*;

use crate::protocol_v2::SampleDomain;
use crate::snapshot::{
    SnapshotMeta, ADC_SAMPLE_VALID, APPLIED_SEQUENCE_VALID, CLA_RESULT_VALID, FROZEN_ROW, SNAPSHOT_VALID,
    SOURCE_SEQUENCE_VALID,
};

verus! {

/// Tick rate of the first-revision simulator clock.
pub const V1_SIMULATOR_TICK_HZ: u64 = 1_000_000;

/// Tick rate of the second-revision clock, which every fixed domain divides.
pub const V2_SIMULATOR_TICK_HZ: u64 = 32_000_000;

/// Largest batch the simulator sends.
pub const MAX_SIMULATOR_BATCH_SAMPLES: u16 = 4096;

/// Which protocol revision the simulator speaks.
#[derive(Clone, Copy, Debug, PartialEq, Eq, Structural)]
pub enum SimulatorProtocol {
    V1,
    V2,
}

impl Default for SimulatorProtocol {
    fn default() -> (r: Self)
        ensures
            r == SimulatorProtocol::V1,
    {
        SimulatorProtocol::V1
    }
}

/// A scripted second-revision scenario at 30 kHz.
#[derive(Clone, Copy, Debug, PartialEq, Eq, Structural)]
pub enum V2Preset {
    Normal30k,
    CausalDelay30k,
    ClaStale30k,
    RowGap30k,
    RowReorder30k,
    PhaseMismatch30k,
    GroupMismatch30k,
    UnfrozenRow30k,
    CaptureManual30k,
    CaptureEdge30k,
    CaptureFault30k,
    CaptureTimeout30k,
    CaptureChunkLoss30k,
    CaptureChunkReorder30k,
    DeviceReset30k,
}

/// Whether two strings hold the same characters.
pub(crate) fn same_text(a: &str, b: &str) -> (r: bool)
    ensures
        r == (a@ == b@),
{
    let n = a.unicode_len();
    if n != b.unicode_len() {
        return false;
    }
    let mut i: usize = 0;
    while i < n
        invariant
            n == a@.len(),
            n == b@.len(),
            0 <= i <= n,
            forall|j: int| 0 <= j < i ==> a@[j] == b@[j],
        decreases n - i,
    {
        if a.get_char(i) != b.get_char(i) {
            return false;
        }
        i = i + 1;
    }
    assert(a@ =~= b@);
    true
}

impl V2Preset {
    /// The preset's stable name.
    pub open spec fn spec_name(self) -> &'static str {
        match self {
            V2Preset::Normal30k => "30k-normal",
            V2Preset::CausalDelay30k => "30k-causal-delay",
            V2Preset::ClaStale30k => "30k-cla-stale",
            V2Preset::RowGap30k => "30k-row-gap",
            V2Preset::RowReorder30k => "30k-row-reorder",
            V2Preset::PhaseMismatch30k => "30k-phase-mismatch",
            V2Preset::GroupMismatch30k => "30k-group-mismatch",
            V2Preset::UnfrozenRow30k => "30k-unfrozen-row",
            V2Preset::CaptureManual30k => "30k-capture-manual",
            V2Preset::CaptureEdge30k => "30k-capture-edge",
            V2Preset::CaptureFault30k => "30k-capture-fault",
            V2Preset::CaptureTimeout30k => "30k-capture-timeout",
            V2Preset::CaptureChunkLoss30k => "30k-capture-chunk-loss",
            V2Preset::CaptureChunkReorder30k => "30k-capture-chunk-reorder",
            V2Preset::DeviceReset30k => "30k-device-reset",
        }
    }

    /// The preset whose name is `s`, if any.
    pub open spec fn spec_parse(s: Seq<char>) -> Option<V2Preset> {
        if s == "30k-normal"@ {
            Some(V2Preset::Normal30k)
        } else if s == "30k-causal-delay"@ {
            Some(V2Preset::CausalDelay30k)
        } else if s == "30k-cla-stale"@ {
            Some(V2Preset::ClaStale30k)
        } else if s == "30k-row-gap"@ {
            Some(V2Preset::RowGap30k)
        } else if s == "30k-row-reorder"@ {
            Some(V2Preset::RowReorder30k)
        } else if s == "30k-phase-mismatch"@ {
            Some(V2Preset::PhaseMismatch30k)
        } else if s == "30k-group-mismatch"@ {
            Some(V2Preset::GroupMismatch30k)
        } else if s == "30k-unfrozen-row"@ {
            Some(V2Preset::UnfrozenRow30k)
        } else if s == "30k-capture-manual"@ {
            Some(V2Preset::CaptureManual30k)
        } else if s == "30k-capture-edge"@ {
            Some(V2Preset::CaptureEdge30k)
        } else if s == "30k-capture-fault"@ {
            Some(V2Preset::CaptureFault30k)
        } else if s == "30k-capture-timeout"@ {
            Some(V2Preset::CaptureTimeout30k)
        } else if s == "30k-capture-chunk-loss"@ {
            Some(V2Preset::CaptureChunkLoss30k)
        } else if s == "30k-capture-chunk-reorder"@ {
            Some(V2Preset::CaptureChunkReorder30k)
        } else if s == "30k-device-reset"@ {
            Some(V2Preset::DeviceReset30k)
        } else {
            None
        }
    }

    /// The preset with this name; None for any other text.
    pub fn parse(value: &str) -> (r: Option<Self>)
        ensures
            r == Self::spec_parse(value@),
    {
        if same_text(value, "30k-normal") {
            Some(V2Preset::Normal30k)
        } else if same_text(value, "30k-causal-delay") {
            Some(V2Preset::CausalDelay30k)
        } else if same_text(value, "30k-cla-stale") {
            Some(V2Preset::ClaStale30k)
        } else if same_text(value, "30k-row-gap") {
            Some(V2Preset::RowGap30k)
        } else if same_text(value, "30k-row-reorder") {
            Some(V2Preset::RowReorder30k)
        } else if same_text(value, "30k-phase-mismatch") {
            Some(V2Preset::PhaseMismatch30k)
        } else if same_text(value, "30k-group-mismatch") {
            Some(V2Preset::GroupMismatch30k)
        } else if same_text(value, "30k-unfrozen-row") {
            Some(V2Preset::UnfrozenRow30k)
        } else if same_text(value, "30k-capture-manual") {
            Some(V2Preset::CaptureManual30k)
        } else if same_text(value, "30k-capture-edge") {
            Some(V2Preset::CaptureEdge30k)
        } else if same_text(value, "30k-capture-fault") {
            Some(V2Preset::CaptureFault30k)
        } else if same_text(value, "30k-capture-timeout") {
            Some(V2Preset::CaptureTimeout30k)
        } else if same_text(value, "30k-capture-chunk-loss") {
            Some(V2Preset::CaptureChunkLoss30k)
        } else if same_text(value, "30k-capture-chunk-reorder") {
            Some(V2Preset::CaptureChunkReorder30k)
        } else if same_text(value, "30k-device-reset") {
            Some(V2Preset::DeviceReset30k)
        } else {
            None
        }
    }

    /// The preset's stable name.
    pub fn name(self) -> (r: &'static str)
        ensures
            r@ == self.spec_name()@,
    {
        match self {
            V2Preset::Normal30k => "30k-normal",
            V2Preset::CausalDelay30k => "30k-causal-delay",
            V2Preset::ClaStale30k => "30k-cla-stale",
            V2Preset::RowGap30k => "30k-row-gap",
            V2Preset::RowReorder30k => "30k-row-reorder",
            V2Preset::PhaseMismatch30k => "30k-phase-mismatch",
            V2Preset::GroupMismatch30k => "30k-group-mismatch",
            V2Preset::UnfrozenRow30k => "30k-unfrozen-row",
            V2Preset::CaptureManual30k => "30k-capture-manual",
            V2Preset::CaptureEdge30k => "30k-capture-edge",
            V2Preset::CaptureFault30k => "30k-capture-fault",
            V2Preset::CaptureTimeout30k => "30k-capture-timeout",
            V2Preset::CaptureChunkLoss30k => "30k-capture-chunk-loss",
            V2Preset::CaptureChunkReorder30k => "30k-capture-chunk-reorder",
            V2Preset::DeviceReset30k => "30k-device-reset",
        }
    }
}

/// A text parses to a preset exactly when it is that preset's name; every
/// other text parses to nothing.
pub proof fn lemma_preset_parse_exactly_names(s: Seq<char>, p: V2Preset)
    ensures
        V2Preset::spec_parse(s) == Some(p) <==> s == p.spec_name()@,
        V2Preset::spec_parse(s) is None <==> forall|q: V2Preset| s != #[trigger] q.spec_name()@,
{
    lemma_preset_name_parses_back(p);
    if V2Preset::spec_parse(s) is Some {
        let q = V2Preset::spec_parse(s).unwrap();
        assert(s == q.spec_name()@);
    } else {
        assert forall|q: V2Preset| s != #[trigger] q.spec_name()@ by {
            lemma_preset_name_parses_back(q);
        }
    }
}

/// Every preset's name parses back to that preset, so no two presets share
/// a name.
pub proof fn lemma_preset_name_parses_back(p: V2Preset)
    ensures
        V2Preset::spec_parse(p.spec_name()@) == Some(p),
{
    reveal_strlit("30k-normal");
    reveal_strlit("30k-causal-delay");
    reveal_strlit("30k-cla-stale");
    reveal_strlit("30k-row-gap");
    reveal_strlit("30k-row-reorder");
    reveal_strlit("30k-phase-mismatch");
    reveal_strlit("30k-group-mismatch");
    reveal_strlit("30k-unfrozen-row");
    reveal_strlit("30k-capture-manual");
    reveal_strlit("30k-capture-edge");
    reveal_strlit("30k-capture-fault");
    reveal_strlit("30k-capture-timeout");
    reveal_strlit("30k-capture-chunk-loss");
    reveal_strlit("30k-capture-chunk-reorder");
    reveal_strlit("30k-device-reset");
    match p {
        V2Preset::Normal30k => {

        },
        V2Preset::CausalDelay30k => {
            assert("30k-causal-delay"@.len() != "30k-normal"@.len());
        },
        V2Preset::ClaStale30k => {
            assert("30k-cla-stale"@.len() != "30k-normal"@.len());
            assert("30k-cla-stale"@.len() != "30k-causal-delay"@.len());
        },
        V2Preset::RowGap30k => {
            assert("30k-row-gap"@.len() != "30k-normal"@.len());
            assert("30k-row-gap"@.len() != "30k-causal-delay"@.len());
            assert("30k-row-gap"@.len() != "30k-cla-stale"@.len());
        },
        V2Preset::RowReorder30k => {
            assert("30k-row-reorder"@.len() != "30k-normal"@.len());
            assert("30k-row-reorder"@.len() != "30k-causal-delay"@.len());
            assert("30k-row-reorder"@.len() != "30k-cla-stale"@.len());
            assert("30k-row-reorder"@.len() != "30k-row-gap"@.len());
        },
        V2Preset::PhaseMismatch30k => {
            assert("30k-phase-mismatch"@.len() != "30k-normal"@.len());
            assert("30k-phase-mismatch"@.len() != "30k-causal-delay"@.len());
            assert("30k-phase-mismatch"@.len() != "30k-cla-stale"@.len());
            assert("30k-phase-mismatch"@.len() != "30k-row-gap"@.len());
            assert("30k-phase-mismatch"@.len() != "30k-row-reorder"@.len());
        },
        V2Preset::GroupMismatch30k => {
            assert("30k-group-mismatch"@.len() != "30k-normal"@.len());
            assert("30k-group-mismatch"@.len() != "30k-causal-delay"@.len());
            assert("30k-group-mismatch"@.len() != "30k-cla-stale"@.len());
            assert("30k-group-mismatch"@.len() != "30k-row-gap"@.len());
            assert("30k-group-mismatch"@.len() != "30k-row-reorder"@.len());
            assert("30k-group-mismatch"@[4] != "30k-phase-mismatch"@[4]);
        },
        V2Preset::UnfrozenRow30k => {
            assert("30k-unfrozen-row"@.len() != "30k-normal"@.len());
            assert("30k-unfrozen-row"@[4] != "30k-causal-delay"@[4]);
            assert("30k-unfrozen-row"@.len() != "30k-cla-stale"@.len());
            assert("30k-unfrozen-row"@.len() != "30k-row-gap"@.len());
            assert("30k-unfrozen-row"@.len() != "30k-row-reorder"@.len());
            assert("30k-unfrozen-row"@.len() != "30k-phase-mismatch"@.len());
            assert("30k-unfrozen-row"@.len() != "30k-group-mismatch"@.len());
        },
        V2Preset::CaptureManual30k => {
            assert("30k-capture-manual"@.len() != "30k-normal"@.len());
            assert("30k-capture-manual"@.len() != "30k-causal-delay"@.len());
            assert("30k-capture-manual"@.len() != "30k-cla-stale"@.len());
            assert("30k-capture-manual"@.len() != "30k-row-gap"@.len());
            assert("30k-capture-manual"@.len() != "30k-row-reorder"@.len());
            assert("30k-capture-manual"@[4] != "30k-phase-mismatch"@[4]);
            assert("30k-capture-manual"@[4] != "30k-group-mismatch"@[4]);
            assert("30k-capture-manual"@.len() != "30k-unfrozen-row"@.len());
        },
        V2Preset::CaptureEdge30k => {
            assert("30k-capture-edge"@.len() != "30k-normal"@.len());
            assert("30k-capture-edge"@[6] != "30k-causal-delay"@[6]);
            assert("30k-capture-edge"@.len() != "30k-cla-stale"@.len());
            assert("30k-capture-edge"@.len() != "30k-row-gap"@.len());
            assert("30k-capture-edge"@.len() != "30k-row-reorder"@.len());
            assert("30k-capture-edge"@.len() != "30k-phase-mismatch"@.len());
            assert("30k-capture-edge"@.len() != "30k-group-mismatch"@.len());
            assert("30k-capture-edge"@[4] != "30k-unfrozen-row"@[4]);
            assert("30k-capture-edge"@.len() != "30k-capture-manual"@.len());
        },
        V2Preset::CaptureFault30k => {
            assert("30k-capture-fault"@.len() != "30k-normal"@.len());
            assert("30k-capture-fault"@.len() != "30k-causal-delay"@.len());
            assert("30k-capture-fault"@.len() != "30k-cla-stale"@.len());
            assert("30k-capture-fault"@.len() != "30k-row-gap"@.len());
            assert("30k-capture-fault"@.len() != "30k-row-reorder"@.len());
            assert("30k-capture-fault"@.len() != "30k-phase-mismatch"@.len());
            assert("30k-capture-fault"@.len() != "30k-group-mismatch"@.len());
            assert("30k-capture-fault"@.len() != "30k-unfrozen-row"@.len());
            assert("30k-capture-fault"@.len() != "30k-capture-manual"@.len());
            assert("30k-capture-fault"@.len() != "30k-capture-edge"@.len());
        },
        V2Preset::CaptureTimeout30k => {
            assert("30k-capture-timeout"@.len() != "30k-normal"@.len());
            assert("30k-capture-timeout"@.len() != "30k-causal-delay"@.len());
            assert("30k-capture-timeout"@.len() != "30k-cla-stale"@.len());
            assert("30k-capture-timeout"@.len() != "30k-row-gap"@.len());
            assert("30k-capture-timeout"@.len() != "30k-row-reorder"@.len());
            assert("30k-capture-timeout"@.len() != "30k-phase-mismatch"@.len());
            assert("30k-capture-timeout"@.len() != "30k-group-mismatch"@.len());
            assert("30k-capture-timeout"@.len() != "30k-unfrozen-row"@.len());
            assert("30k-capture-timeout"@.len() != "30k-capture-manual"@.len());
            assert("30k-capture-timeout"@.len() != "30k-capture-edge"@.len());
            assert("30k-capture-timeout"@.len() != "30k-capture-fault"@.len());
        },
        V2Preset::CaptureChunkLoss30k => {
            assert("30k-capture-chunk-loss"@.len() != "30k-normal"@.len());
            assert("30k-capture-chunk-loss"@.len() != "30k-causal-delay"@.len());
            assert("30k-capture-chunk-loss"@.len() != "30k-cla-stale"@.len());
            assert("30k-capture-chunk-loss"@.len() != "30k-row-gap"@.len());
            assert("30k-capture-chunk-loss"@.len() != "30k-row-reorder"@.len());
            assert("30k-capture-chunk-loss"@.len() != "30k-phase-mismatch"@.len());
            assert("30k-capture-chunk-loss"@.len() != "30k-group-mismatch"@.len());
            assert("30k-capture-chunk-loss"@.len() != "30k-unfrozen-row"@.len());
            assert("30k-capture-chunk-loss"@.len() != "30k-capture-manual"@.len());
            assert("30k-capture-chunk-loss"@.len() != "30k-capture-edge"@.len());
            assert("30k-capture-chunk-loss"@.len() != "30k-capture-fault"@.len());
            assert("30k-capture-chunk-loss"@.len() != "30k-capture-timeout"@.len());
        },
        V2Preset::CaptureChunkReorder30k => {
            assert("30k-capture-chunk-reorder"@.len() != "30k-normal"@.len());
            assert("30k-capture-chunk-reorder"@.len() != "30k-causal-delay"@.len());
            assert("30k-capture-chunk-reorder"@.len() != "30k-cla-stale"@.len());
            assert("30k-capture-chunk-reorder"@.len() != "30k-row-gap"@.len());
            assert("30k-capture-chunk-reorder"@.len() != "30k-row-reorder"@.len());
            assert("30k-capture-chunk-reorder"@.len() != "30k-phase-mismatch"@.len());
            assert("30k-capture-chunk-reorder"@.len() != "30k-group-mismatch"@.len());
            assert("30k-capture-chunk-reorder"@.len() != "30k-unfrozen-row"@.len());
            assert("30k-capture-chunk-reorder"@.len() != "30k-capture-manual"@.len());
            assert("30k-capture-chunk-reorder"@.len() != "30k-capture-edge"@.len());
            assert("30k-capture-chunk-reorder"@.len() != "30k-capture-fault"@.len());
            assert("30k-capture-chunk-reorder"@.len() != "30k-capture-timeout"@.len());
            assert("30k-capture-chunk-reorder"@.len() != "30k-capture-chunk-loss"@.len());
        },
        V2Preset::DeviceReset30k => {
            assert("30k-device-reset"@.len() != "30k-normal"@.len());
            assert("30k-device-reset"@[4] != "30k-causal-delay"@[4]);
            assert("30k-device-reset"@.len() != "30k-cla-stale"@.len());
            assert("30k-device-reset"@.len() != "30k-row-gap"@.len());
            assert("30k-device-reset"@.len() != "30k-row-reorder"@.len());
            assert("30k-device-reset"@.len() != "30k-phase-mismatch"@.len());
            assert("30k-device-reset"@.len() != "30k-group-mismatch"@.len());
            assert("30k-device-reset"@[4] != "30k-unfrozen-row"@[4]);
            assert("30k-device-reset"@.len() != "30k-capture-manual"@.len());
            assert("30k-device-reset"@[4] != "30k-capture-edge"@[4]);
            assert("30k-device-reset"@.len() != "30k-capture-fault"@.len());
            assert("30k-device-reset"@.len() != "30k-capture-timeout"@.len());
            assert("30k-device-reset"@.len() != "30k-capture-chunk-loss"@.len());
            assert("30k-device-reset"@.len() != "30k-capture-chunk-reorder"@.len());
        },
    }
}

/// Which periodic setting was zero.
/// Counters of what a simulator has served.
#[derive(Clone, Copy, Debug, PartialEq, Eq, Structural)]
pub struct SimulatorStats {
    pub connections: u64,
    pub hello_requests: u64,
    pub configure_requests: u64,
    pub start_requests: u64,
    pub stop_requests: u64,
    pub ping_requests: u64,
    pub pings_sent: u64,
    pub pongs_received: u64,
    pub emitted_batches: u64,
    pub v2_stream_table_requests: u64,
    pub capture_requests: u64,
}

impl Default for SimulatorStats {
    fn default() -> (r: Self)
        ensures
            r == (SimulatorStats {
                connections: 0,
                hello_requests: 0,
                configure_requests: 0,
                start_requests: 0,
                stop_requests: 0,
                ping_requests: 0,
                pings_sent: 0,
                pongs_received: 0,
                emitted_batches: 0,
                v2_stream_table_requests: 0,
                capture_requests: 0,
            }),
    {
        SimulatorStats {
            connections: 0,
            hello_requests: 0,
            configure_requests: 0,
            start_requests: 0,
            stop_requests: 0,
            ping_requests: 0,
            pings_sent: 0,
            pongs_received: 0,
            emitted_batches: 0,
            v2_stream_table_requests: 0,
            capture_requests: 0,
        }
    }
}

#[derive(Clone, Copy, Debug, PartialEq, Eq, Structural)]
pub enum PeriodSetting {
    DropEvery,
    CorruptEvery,
    DisconnectAfter,
}

/// Why simulator settings were refused.
#[derive(Clone, Copy, Debug, PartialEq, Eq, Structural)]
pub enum SimulatorConfigError {
    /// The sample rate is zero or above the clock of this protocol.
    SampleRateOutOfRange(SimulatorProtocol),
    BatchSamplesOutOfRange,
    ZeroPeriod(PeriodSetting),
    PresetRequiresV2,
}

/// The words `message` gives for each refusal.
pub open spec fn simulator_config_error_text(e: SimulatorConfigError) -> Seq<char> {
    match e {
        SimulatorConfigError::SampleRateOutOfRange(SimulatorProtocol::V1) => "sample rate must be within 1..=1000000"@,
        SimulatorConfigError::SampleRateOutOfRange(SimulatorProtocol::V2) => "sample rate must be within 1..=32000000"@,
        SimulatorConfigError::BatchSamplesOutOfRange => "batch samples must be within 1..=4096"@,
        SimulatorConfigError::ZeroPeriod(PeriodSetting::DropEvery) => "drop_every must be greater than zero"@,
        SimulatorConfigError::ZeroPeriod(PeriodSetting::CorruptEvery) => "corrupt_every must be greater than zero"@,
        SimulatorConfigError::ZeroPeriod(PeriodSetting::DisconnectAfter) => "disconnect_after must be greater than zero"@,
        SimulatorConfigError::PresetRequiresV2 => "V2 preset requires --protocol v2"@,
    }
}

impl SimulatorConfigError {
    /// The refusal in words.
    pub fn message(&self) -> (r: String)
        ensures
            r@ == simulator_config_error_text(*self),
    {
        match self {
            SimulatorConfigError::SampleRateOutOfRange(SimulatorProtocol::V1) => "sample rate must be within 1..=1000000".to_string(),
            SimulatorConfigError::SampleRateOutOfRange(SimulatorProtocol::V2) => "sample rate must be within 1..=32000000".to_string(),
            SimulatorConfigError::BatchSamplesOutOfRange => "batch samples must be within 1..=4096".to_string(),
            SimulatorConfigError::ZeroPeriod(PeriodSetting::DropEvery) => "drop_every must be greater than zero".to_string(),
            SimulatorConfigError::ZeroPeriod(PeriodSetting::CorruptEvery) => "corrupt_every must be greater than zero".to_string(),
            SimulatorConfigError::ZeroPeriod(PeriodSetting::DisconnectAfter) => "disconnect_after must be greater than zero".to_string(),
            SimulatorConfigError::PresetRequiresV2 => "V2 preset requires --protocol v2".to_string(),
        }
    }
}

/// Everything the simulator is configured with but the address it listens on.
#[derive(Clone, Copy, Debug, PartialEq, Eq, Structural)]
pub struct SimulatorSettings {
    pub sample_rate_hz: u32,
    pub batch_samples: u16,
    pub accelerated: bool,
    pub seed: u64,
    pub drop_every: Option<u64>,
    pub corrupt_every: Option<u64>,
    pub disconnect_after: Option<u64>,
    pub protocol: SimulatorProtocol,
    pub preset: Option<V2Preset>,
}

impl Default for SimulatorSettings {
    fn default() -> (r: Self)
        ensures
            r == (SimulatorSettings {
                sample_rate_hz: 10_000,
                batch_samples: 100,
                accelerated: false,
                seed: 1,
                drop_every: None,
                corrupt_every: None,
                disconnect_after: None,
                protocol: SimulatorProtocol::V1,
                preset: None,
            }),
    {
        SimulatorSettings {
            sample_rate_hz: 10_000,
            batch_samples: 100,
            accelerated: false,
            seed: 1,
            drop_every: None,
            corrupt_every: None,
            disconnect_after: None,
            protocol: SimulatorProtocol::V1,
            preset: None,
        }
    }
}

pub open spec fn tick_hz_of(p: SimulatorProtocol) -> u64 {
    match p {
        SimulatorProtocol::V1 => V1_SIMULATOR_TICK_HZ,
        SimulatorProtocol::V2 => V2_SIMULATOR_TICK_HZ,
    }
}

/// The first rule the settings break, in the order they are checked: the
/// sample rate within the protocol's clock, the batch size, each periodic
/// setting non-zero, and a preset only with the second revision.
pub open spec fn settings_error(c: SimulatorSettings) -> Option<SimulatorConfigError> {
    if c.sample_rate_hz == 0 || c.sample_rate_hz > tick_hz_of(c.protocol) {
        Some(SimulatorConfigError::SampleRateOutOfRange(c.protocol))
    } else if c.batch_samples == 0 || c.batch_samples > MAX_SIMULATOR_BATCH_SAMPLES {
        Some(SimulatorConfigError::BatchSamplesOutOfRange)
    } else if c.drop_every == Some(0u64) {
        Some(SimulatorConfigError::ZeroPeriod(PeriodSetting::DropEvery))
    } else if c.corrupt_every == Some(0u64) {
        Some(SimulatorConfigError::ZeroPeriod(PeriodSetting::CorruptEvery))
    } else if c.disconnect_after == Some(0u64) {
        Some(SimulatorConfigError::ZeroPeriod(PeriodSetting::DisconnectAfter))
    } else if c.protocol == SimulatorProtocol::V1 && c.preset is Some {
        Some(SimulatorConfigError::PresetRequiresV2)
    } else {
        None
    }
}

impl SimulatorSettings {
    /// Accepts the settings, or gives the first rule they break.
    pub fn validate(&self) -> (r: Result<(), SimulatorConfigError>)
        ensures
            r is Ok <==> settings_error(*self) is None,
            r is Err ==> Some(r->Err_0) == settings_error(*self),
    {
        let tick_hz = match self.protocol {
            SimulatorProtocol::V1 => V1_SIMULATOR_TICK_HZ,
            SimulatorProtocol::V2 => V2_SIMULATOR_TICK_HZ,
        };
        if self.sample_rate_hz == 0 || self.sample_rate_hz as u64 > tick_hz {
            return Err(SimulatorConfigError::SampleRateOutOfRange(self.protocol));
        }
        if self.batch_samples == 0 || self.batch_samples > MAX_SIMULATOR_BATCH_SAMPLES {
            return Err(SimulatorConfigError::BatchSamplesOutOfRange);
        }
        if self.drop_every == Some(0u64) {
            return Err(SimulatorConfigError::ZeroPeriod(PeriodSetting::DropEvery));
        }
        if self.corrupt_every == Some(0u64) {
            return Err(SimulatorConfigError::ZeroPeriod(PeriodSetting::CorruptEvery));
        }
        if self.disconnect_after == Some(0u64) {
            return Err(SimulatorConfigError::ZeroPeriod(PeriodSetting::DisconnectAfter));
        }
        if self.protocol == SimulatorProtocol::V1 && self.preset.is_some() {
            return Err(SimulatorConfigError::PresetRequiresV2);
        }
        Ok(())
    }
}

/// Whether the `count`-th event falls on a fault of the given period: every
/// multiple of it does, and with a period of zero only event zero.
pub open spec fn spec_periodic_fault(period: Option<u64>, count: u64) -> bool {
    match period {
        Some(p) => if p == 0 {
            count == 0
        } else {
            count % p == 0
        },
        None => false,
    }
}

pub fn is_periodic_fault(period: Option<u64>, count: u64) -> (r: bool)
    ensures
        r == spec_periodic_fault(period, count),
{
    match period {
        Some(p) => if p == 0 {
            count == 0
        } else {
            count % p == 0
        },
        None => false,
    }
}

/// Validity flags of a simulated row: snapshot, source, applied, ADC and
/// frozen; CLA on fast rows; the stale preset drops CLA from fast rows and
/// the unfrozen preset drops the frozen flag.
pub open spec fn spec_row_flags(preset: V2Preset, domain: SampleDomain) -> u32 {
    let base = SNAPSHOT_VALID | SOURCE_SEQUENCE_VALID | APPLIED_SEQUENCE_VALID | ADC_SAMPLE_VALID | FROZEN_ROW;
    let with_cla = if domain is Fast32k {
        base | CLA_RESULT_VALID
    } else {
        base
    };
    let stale = if preset is ClaStale30k && domain is Fast32k {
        with_cla & !CLA_RESULT_VALID
    } else {
        with_cla
    };
    if preset is UnfrozenRow30k {
        stale & !FROZEN_ROW
    } else {
        stale
    }
}

/// Metadata of the simulated row `row`: its row, logical and source
/// sequences are the row number, and it applies the previous row.
pub open spec fn spec_row_meta(preset: V2Preset, domain: SampleDomain, row: u64) -> SnapshotMeta {
    SnapshotMeta {
        row_sequence: row,
        logical_cycle_sequence: row,
        source_sequence: row,
        applied_sequence: if row > 0 {
            (row - 1) as u64
        } else {
            0
        },
        valid_flags: spec_row_flags(preset, domain),
    }
}

/// The metadata the simulator sends with row `row` of a stream of `domain`.
pub fn v2_row_meta(preset: V2Preset, domain: SampleDomain, row: u64) -> (r: SnapshotMeta)
    ensures
        r == spec_row_meta(preset, domain, row),
{
    let mut valid_flags = SNAPSHOT_VALID | SOURCE_SEQUENCE_VALID | APPLIED_SEQUENCE_VALID | ADC_SAMPLE_VALID
        | FROZEN_ROW;
    if domain == SampleDomain::Fast32k {
        valid_flags = valid_flags | CLA_RESULT_VALID;
    }
    if preset == V2Preset::ClaStale30k && domain == SampleDomain::Fast32k {
        valid_flags = valid_flags & !CLA_RESULT_VALID;
    }
    if preset == V2Preset::UnfrozenRow30k {
        valid_flags = valid_flags & !FROZEN_ROW;
    }
    SnapshotMeta {
        row_sequence: row,
        logical_cycle_sequence: row,
        source_sequence: row,
        applied_sequence: row.saturating_sub(1),
        valid_flags,
    }
}

/// The stale preset's fast rows lack the CLA flag, the unfrozen preset's
/// rows are not frozen, and every other preset's rows are frozen snapshots.
pub proof fn lemma_preset_row_conditions(preset: V2Preset, domain: SampleDomain, row: u64)
    ensures
        preset is ClaStale30k && domain is Fast32k ==> spec_row_meta(preset, domain, row).valid_flags
            & CLA_RESULT_VALID == 0,
        preset is UnfrozenRow30k ==> spec_row_meta(preset, domain, row).valid_flags & FROZEN_ROW == 0,
        !(preset is UnfrozenRow30k) ==> spec_row_meta(preset, domain, row).spec_is_frozen(),
{
    let f = spec_row_flags(preset, domain);
    assert((31u32 | 8u32) & !8u32 & 8u32 == 0) by (bit_vector);
    assert(31u32 & !32u32 & 32u32 == 0) by (bit_vector);
    assert((31u32 | 32u32) & !32u32 & 32u32 == 0) by (bit_vector);
    assert((31u32 | 8u32) & !32u32 & 32u32 == 0) by (bit_vector);
    assert((31u32 | 8u32) & !8u32 & !32u32 & 32u32 == 0) by (bit_vector);
    assert(((1u32 | 2u32 | 4u32 | 16u32 | 32u32) | 8u32) & !8u32 & (1u32 | 32u32) == (1u32 | 32u32)) by (bit_vector);
    assert((1u32 | 2u32 | 4u32 | 16u32 | 32u32) & (1u32 | 32u32) == (1u32 | 32u32)) by (bit_vector);
    assert(((1u32 | 2u32 | 4u32 | 16u32 | 32u32) | 8u32) & (1u32 | 32u32) == (1u32 | 32u32)) by (bit_vector);
    assert(((1u32 | 2u32 | 4u32 | 16u32 | 32u32) | 8u32) & !8u32 & 8u32 == 0) by (bit_vector);
    assert((1u32 | 2u32 | 4u32 | 16u32 | 32u32) & !32u32 & 32u32 == 0) by (bit_vector);
    assert(((1u32 | 2u32 | 4u32 | 16u32 | 32u32) | 8u32) & !32u32 & 32u32 == 0) by (bit_vector);
    assert(((1u32 | 2u32 | 4u32 | 16u32 | 32u32) | 8u32) & !8u32 & !32u32 & 32u32 == 0) by (bit_vector);
}

} // verus!
