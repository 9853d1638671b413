//! Trigger settings and the rows that one firing of a trigger captured.
//!
//! Analog levels are carried as IEEE-754 single-precision bit patterns, so
//! that every value here is a plain integer.

use vstd::prelude::*;

verus! {

/// When the trigger re-arms.
#[derive(Clone, Copy, Debug, PartialEq, Eq, Structural)]
pub enum TriggerMode {
    Auto,
    Normal,
    Single,
}

/// Which crossing of the level fires the trigger.
#[derive(Clone, Copy, Debug, PartialEq, Eq, Structural)]
pub enum TriggerEdge {
    Rising,
    Falling,
    Either,
}

/// How a trigger fires and how many rows it keeps around the firing row.
#[derive(Clone, Copy, Debug, PartialEq, Eq, Structural)]
pub struct TriggerConfig {
    pub mode: TriggerMode,
    pub edge: TriggerEdge,
    pub source_channel: u16,
    /// Bit pattern of the `f32` trigger level.
    pub level_bits: u32,
    /// Bit pattern of the `f32` hysteresis band.
    pub hysteresis_bits: u32,
    pub pre_samples: usize,
    pub post_samples: usize,
    pub auto_timeout_samples: usize,
}

/// The settings a fresh trigger starts from: auto mode on a rising edge of
/// channel 0 at level 0.0, with no rows kept before or after the firing row.
pub open spec fn default_trigger_config() -> TriggerConfig {
    TriggerConfig {
        mode: TriggerMode::Auto,
        edge: TriggerEdge::Rising,
        source_channel: 0,
        level_bits: 0,
        hysteresis_bits: 0,
        pre_samples: 0,
        post_samples: 0,
        auto_timeout_samples: 0,
    }
}

impl Default for TriggerConfig {
    fn default() -> (r: Self)
        ensures
            r == default_trigger_config(),
    {
        TriggerConfig {
            mode: TriggerMode::Auto,
            edge: TriggerEdge::Rising,
            source_channel: 0,
            level_bits: 0,
            hysteresis_bits: 0,
            pre_samples: 0,
            post_samples: 0,
            auto_timeout_samples: 0,
        }
    }
}

/// The rows one firing captured: per-row sample indices and timestamps, and
/// one column of `f32` bit patterns per captured channel.
#[derive(Clone, Debug, PartialEq, Eq)]
pub struct TriggerCapture {
    pub channel_ids: Vec<u16>,
    pub sample_indices: Vec<u64>,
    pub timestamps: Vec<u64>,
    pub channels: Vec<Vec<u32>>,
    pub trigger_position: usize,
    pub auto_timeout: bool,
}

/// Mathematical content of a capture.
pub struct TriggerCaptureV {
    pub channel_ids: Seq<u16>,
    pub sample_indices: Seq<u64>,
    pub timestamps: Seq<u64>,
    pub channels: Seq<Seq<u32>>,
    pub trigger_position: usize,
    pub auto_timeout: bool,
}

impl View for TriggerCapture {
    type V = TriggerCaptureV;

    open spec fn view(&self) -> TriggerCaptureV {
        TriggerCaptureV {
            channel_ids: self.channel_ids@,
            sample_indices: self.sample_indices@,
            timestamps: self.timestamps@,
            channels: self.channels@.map_values(|c: Vec<u32>| c@),
            trigger_position: self.trigger_position,
            auto_timeout: self.auto_timeout,
        }
    }
}

/// Number of `f32` values held over all channel columns.
pub open spec fn channel_values(s: Seq<Seq<u32>>) -> nat
    decreases s.len(),
{
    if s.len() == 0 {
        0
    } else {
        channel_values(s.drop_last()) + s.last().len()
    }
}

/// Bytes of memory a capture occupies: eight per sample index and per
/// timestamp, two per channel id, four per channel value.
pub open spec fn capture_bytes(c: TriggerCaptureV) -> nat {
    8 * c.sample_indices.len() + 8 * c.timestamps.len() + 2 * c.channel_ids.len() + 4
        * channel_values(c.channels)
}

proof fn lemma_channel_values_prefix(s: Seq<Seq<u32>>, k: int)
    requires
        0 <= k <= s.len(),
    ensures
        channel_values(s.take(k)) <= channel_values(s),
    decreases s.len(),
{
    if k < s.len() {
        lemma_channel_values_prefix(s.drop_last(), k);
        assert(s.drop_last().take(k) =~= s.take(k));
    } else {
        assert(s.take(k) =~= s);
    }
}

/// Computes `capture_bytes` of the capture.
pub fn capture_byte_size(capture: &TriggerCapture) -> (r: usize)
    requires
        capture_bytes(capture@) <= usize::MAX,
    ensures
        r == capture_bytes(capture@),
{
    let ghost cs = capture@.channels;
    let mut values: usize = 0;
    let mut i: usize = 0;
    while i < capture.channels.len()
        invariant
            cs == capture@.channels,
            cs.len() == capture.channels@.len(),
            0 <= i <= cs.len(),
            values == channel_values(cs.take(i as int)),
            capture_bytes(capture@) <= usize::MAX,
        decreases cs.len() - i,
    {
        proof {
            lemma_channel_values_prefix(cs, i + 1);
            assert(cs.take(i + 1).drop_last() =~= cs.take(i as int));
            assert(cs[i as int] == capture.channels@[i as int]@);
        }
        values = values + capture.channels[i].len();
        i = i + 1;
    }
    proof {
        assert(cs.take(i as int) =~= cs);
    }
    8 * capture.sample_indices.len() + 8 * capture.timestamps.len() + 2
        * capture.channel_ids.len() + 4 * values
}

} // verus!
