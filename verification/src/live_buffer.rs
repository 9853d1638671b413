//! The rolling buffer of live samples: aligned rows of every channel, the
//! gaps between them, and decimated snapshots for display.
//!
//! Sample values are `f32` bit patterns; the buffer never computes with
//! them, it only keeps, compares and copies them.

use std::collections::VecDeque;

use vstd::prelude::*;

use crate::scope_format::{GapReason, LiveGap};

verus! {

/// A decoded first-revision sample batch: rows from `first_sample_index`,
/// one column of `f32` bit patterns per channel.
#[derive(Clone, Debug, PartialEq, Eq)]
pub struct DecodedSampleBatch {
    pub revision: u32,
    pub first_sample_index: u64,
    pub sample_period_ticks: u32,
    pub timestamp_ticks: u64,
    pub channel_ids: Vec<u16>,
    pub channels: Vec<Vec<u32>>,
    pub raw_frame: Vec<u8>,
}

pub struct DecodedSampleBatchV {
    pub first_sample_index: u64,
    pub sample_period_ticks: u32,
    pub timestamp_ticks: u64,
    pub channel_ids: Seq<u16>,
    pub channels: Seq<Seq<u32>>,
}

impl View for DecodedSampleBatch {
    type V = DecodedSampleBatchV;

    open spec fn view(&self) -> DecodedSampleBatchV {
        DecodedSampleBatchV {
            first_sample_index: self.first_sample_index,
            sample_period_ticks: self.sample_period_ticks,
            timestamp_ticks: self.timestamp_ticks,
            channel_ids: self.channel_ids@,
            channels: self.channels@.map_values(|c: Vec<u32>| c@),
        }
    }
}

/// Why a buffer cannot be made.
#[derive(Clone, Copy, Debug, PartialEq, Eq, Structural)]
pub enum LiveBufferConfigError {
    NoChannels,
    ZeroCapacity,
    ZeroTickRate,
    DuplicateChannelIds,
}

/// Why a batch is refused; the buffer is then unchanged.
#[derive(Clone, Copy, Debug, PartialEq, Eq, Structural)]
pub enum LiveBatchError {
    ChannelIdsMismatch,
    ColumnCountMismatch,
    MisalignedColumns,
    SampleIndexOverflow,
    TimestampOffsetOverflow,
    TimestampOverflow,
    PreviousIndexOverflow,
    OutOfOrder { got: u64, expected: u64 },
}

#[derive(Clone, Copy, Debug, PartialEq, Eq, Structural)]
pub enum LiveBufferError {
    InvalidConfig(LiveBufferConfigError),
    InvalidBatch(LiveBatchError),
}

/// The words `message` gives for each refusal.
pub open spec fn live_buffer_error_text(e: LiveBufferError) -> Seq<char> {
    match e {
        LiveBufferError::InvalidConfig(LiveBufferConfigError::NoChannels) => "invalid live buffer configuration: at least one channel is required"@,
        LiveBufferError::InvalidConfig(LiveBufferConfigError::ZeroCapacity) => "invalid live buffer configuration: capacity must be greater than zero"@,
        LiveBufferError::InvalidConfig(LiveBufferConfigError::ZeroTickRate) => "invalid live buffer configuration: tick_hz must be greater than zero"@,
        LiveBufferError::InvalidConfig(LiveBufferConfigError::DuplicateChannelIds) => "invalid live buffer configuration: channel ids must be unique"@,
        LiveBufferError::InvalidBatch(LiveBatchError::ChannelIdsMismatch) => "invalid live sample batch: channel ids do not match the live buffer"@,
        LiveBufferError::InvalidBatch(LiveBatchError::ColumnCountMismatch) => "invalid live sample batch: channel column count does not match"@,
        LiveBufferError::InvalidBatch(LiveBatchError::MisalignedColumns) => "invalid live sample batch: channel columns must be non-empty and aligned"@,
        LiveBufferError::InvalidBatch(LiveBatchError::SampleIndexOverflow) => "invalid live sample batch: sample index overflow"@,
        LiveBufferError::InvalidBatch(LiveBatchError::TimestampOffsetOverflow) => "invalid live sample batch: timestamp offset overflow"@,
        LiveBufferError::InvalidBatch(LiveBatchError::TimestampOverflow) => "invalid live sample batch: timestamp overflow"@,
        LiveBufferError::InvalidBatch(LiveBatchError::PreviousIndexOverflow) => "invalid live sample batch: previous sample index overflow"@,
        LiveBufferError::InvalidBatch(LiveBatchError::OutOfOrder { .. }) => "invalid live sample batch: out-of-order sample index"@,
    }
}

impl LiveBufferError {
    /// The refusal in words.
    pub fn message(&self) -> (r: String)
        ensures
            r@ == live_buffer_error_text(*self),
    {
        match self {
            LiveBufferError::InvalidConfig(LiveBufferConfigError::NoChannels) => "invalid live buffer configuration: at least one channel is required".to_string(),
            LiveBufferError::InvalidConfig(LiveBufferConfigError::ZeroCapacity) => "invalid live buffer configuration: capacity must be greater than zero".to_string(),
            LiveBufferError::InvalidConfig(LiveBufferConfigError::ZeroTickRate) => "invalid live buffer configuration: tick_hz must be greater than zero".to_string(),
            LiveBufferError::InvalidConfig(LiveBufferConfigError::DuplicateChannelIds) => "invalid live buffer configuration: channel ids must be unique".to_string(),
            LiveBufferError::InvalidBatch(LiveBatchError::ChannelIdsMismatch) => "invalid live sample batch: channel ids do not match the live buffer".to_string(),
            LiveBufferError::InvalidBatch(LiveBatchError::ColumnCountMismatch) => "invalid live sample batch: channel column count does not match".to_string(),
            LiveBufferError::InvalidBatch(LiveBatchError::MisalignedColumns) => "invalid live sample batch: channel columns must be non-empty and aligned".to_string(),
            LiveBufferError::InvalidBatch(LiveBatchError::SampleIndexOverflow) => "invalid live sample batch: sample index overflow".to_string(),
            LiveBufferError::InvalidBatch(LiveBatchError::TimestampOffsetOverflow) => "invalid live sample batch: timestamp offset overflow".to_string(),
            LiveBufferError::InvalidBatch(LiveBatchError::TimestampOverflow) => "invalid live sample batch: timestamp overflow".to_string(),
            LiveBufferError::InvalidBatch(LiveBatchError::PreviousIndexOverflow) => "invalid live sample batch: previous sample index overflow".to_string(),
            LiveBufferError::InvalidBatch(LiveBatchError::OutOfOrder { .. }) => "invalid live sample batch: out-of-order sample index".to_string(),
        }
    }
}

/// One buffered row: its sample index, its timestamp, and one value per
/// channel.
#[derive(Clone, Debug, PartialEq, Eq)]
pub struct BufferedRow {
    pub sample_index: u64,
    pub timestamp_ticks: u64,
    pub values: Vec<u32>,
}

pub struct BufferedRowV {
    pub sample_index: u64,
    pub timestamp_ticks: u64,
    pub values: Seq<u32>,
}

impl View for BufferedRow {
    type V = BufferedRowV;

    open spec fn view(&self) -> BufferedRowV {
        BufferedRowV { sample_index: self.sample_index, timestamp_ticks: self.timestamp_ticks, values: self.values@ }
    }
}

pub struct LiveBuffer {
    channel_ids: Vec<u16>,
    capacity: usize,
    tick_hz: u64,
    rows: VecDeque<BufferedRow>,
    gaps: VecDeque<LiveGap>,
}

pub struct LiveBufferView {
    pub channel_ids: Seq<u16>,
    pub capacity: nat,
    pub tick_hz: u64,
    pub rows: Seq<BufferedRowV>,
    pub gaps: Seq<LiveGap>,
}

pub open spec fn row_views(rows: Seq<BufferedRow>) -> Seq<BufferedRowV> {
    rows.map_values(|r: BufferedRow| r@)
}

impl View for LiveBuffer {
    type V = LiveBufferView;

    closed spec fn view(&self) -> LiveBufferView {
        LiveBufferView {
            channel_ids: self.channel_ids@,
            capacity: self.capacity as nat,
            tick_hz: self.tick_hz,
            rows: row_views(self.rows@),
            gaps: self.gaps@,
        }
    }
}

pub open spec fn ids_distinct(ids: Seq<u16>) -> bool {
    forall|i: int, j: int| 0 <= i < j < ids.len() ==> ids[i] != ids[j]
}

/// A buffer: distinct channels, a capacity and a clock, at most `capacity`
/// rows, each with one value per channel.
pub open spec fn buffer_wf(v: LiveBufferView) -> bool {
    &&& v.channel_ids.len() >= 1
    &&& ids_distinct(v.channel_ids)
    &&& 1 <= v.capacity <= usize::MAX
    &&& v.tick_hz >= 1
    &&& v.rows.len() <= v.capacity
    &&& forall|i: int| 0 <= i < v.rows.len() ==> (#[trigger] v.rows[i]).values.len() == v.channel_ids.len()
}

pub open spec fn config_error(ids: Seq<u16>, capacity: usize, tick_hz: u64) -> Option<LiveBufferConfigError> {
    if ids.len() == 0 {
        Some(LiveBufferConfigError::NoChannels)
    } else if capacity == 0 {
        Some(LiveBufferConfigError::ZeroCapacity)
    } else if tick_hz == 0 {
        Some(LiveBufferConfigError::ZeroTickRate)
    } else if !ids_distinct(ids) {
        Some(LiveBufferConfigError::DuplicateChannelIds)
    } else {
        None
    }
}

/// The gaps after recording `missing` samples lost from `start`: nothing
/// for none, nothing again for a repeat of the newest gap.
pub open spec fn gap_pushed(gaps: Seq<LiveGap>, start: u64, missing: u64, reason: GapReason) -> Seq<LiveGap> {
    if missing == 0 {
        gaps
    } else if gaps.len() > 0 && gaps.last().start_sample_index == start && gaps.last().missing_samples == missing {
        gaps
    } else {
        gaps.push(LiveGap { start_sample_index: start, missing_samples: missing, reason })
    }
}

/// End of a gap, saturating.
pub open spec fn gap_end(g: LiveGap) -> int {
    if g.start_sample_index + g.missing_samples > u64::MAX {
        u64::MAX as int
    } else {
        g.start_sample_index + g.missing_samples
    }
}

/// The gaps left once those ending at or before `oldest` are dropped from
/// the front.
pub open spec fn pruned_gaps(gaps: Seq<LiveGap>, oldest: u64) -> Seq<LiveGap>
    decreases gaps.len(),
{
    if gaps.len() > 0 && gap_end(gaps[0]) <= oldest {
        pruned_gaps(gaps.drop_first(), oldest)
    } else {
        gaps
    }
}

/// Only the newest `capacity` rows stay, and gaps that end before the
/// oldest of them go.
pub open spec fn evicted(v: LiveBufferView) -> LiveBufferView {
    let rows = if v.rows.len() > v.capacity {
        v.rows.skip(v.rows.len() - v.capacity)
    } else {
        v.rows
    };
    LiveBufferView {
        rows,
        gaps: if rows.len() > 0 {
            pruned_gaps(v.gaps, rows[0].sample_index)
        } else {
            v.gaps
        },
        ..v
    }
}

/// Rows in a batch: those of its first column.
pub open spec fn batch_len(b: DecodedSampleBatchV) -> nat {
    if b.channels.len() > 0 {
        b.channels[0].len()
    } else {
        0
    }
}

/// The first rule a batch breaks against buffer `v`, if any.
pub open spec fn batch_error(v: LiveBufferView, b: DecodedSampleBatchV) -> Option<LiveBatchError> {
    let n = batch_len(b);
    let last = n - 1;
    if b.channel_ids != v.channel_ids {
        Some(LiveBatchError::ChannelIdsMismatch)
    } else if b.channels.len() != v.channel_ids.len() {
        Some(LiveBatchError::ColumnCountMismatch)
    } else if n == 0 || exists|c: int| 0 <= c < b.channels.len() && (#[trigger] b.channels[c]).len() != n {
        Some(LiveBatchError::MisalignedColumns)
    } else if b.first_sample_index + last > u64::MAX {
        Some(LiveBatchError::SampleIndexOverflow)
    } else if b.sample_period_ticks * last > u64::MAX {
        Some(LiveBatchError::TimestampOffsetOverflow)
    } else if b.timestamp_ticks + b.sample_period_ticks * last > u64::MAX {
        Some(LiveBatchError::TimestampOverflow)
    } else if v.rows.len() > 0 && v.rows.last().sample_index == u64::MAX {
        Some(LiveBatchError::PreviousIndexOverflow)
    } else if v.rows.len() > 0 && b.first_sample_index < v.rows.last().sample_index + 1 {
        Some(
            LiveBatchError::OutOfOrder {
                got: b.first_sample_index,
                expected: (v.rows.last().sample_index + 1) as u64,
            },
        )
    } else {
        None
    }
}

/// The rows of a batch, in order.
pub open spec fn batch_rows(b: DecodedSampleBatchV) -> Seq<BufferedRowV> {
    Seq::new(
        batch_len(b),
        |k: int|
            BufferedRowV {
                sample_index: (b.first_sample_index + k) as u64,
                timestamp_ticks: (b.timestamp_ticks + b.sample_period_ticks * k) as u64,
                values: Seq::new(b.channels.len(), |c: int| b.channels[c][k]),
            },
    )
}

/// The buffer after an accepted batch: a gap for skipped indices, the
/// batch's rows appended, then eviction.
pub open spec fn batch_pushed(v: LiveBufferView, b: DecodedSampleBatchV) -> LiveBufferView {
    let gaps = if v.rows.len() > 0 && b.first_sample_index > v.rows.last().sample_index + 1 {
        gap_pushed(
            v.gaps,
            (v.rows.last().sample_index + 1) as u64,
            (b.first_sample_index - v.rows.last().sample_index - 1) as u64,
            GapReason::SampleIndexLoss,
        )
    } else {
        v.gaps
    };
    evicted(LiveBufferView { rows: v.rows + batch_rows(b), gaps, ..v })
}

impl LiveBuffer {
    pub closed spec fn spec_wf(&self) -> bool {
        buffer_wf(self@)
    }

    /// A buffer for the given channels, holding at most `capacity` rows of a
    /// `tick_hz` clock.
    pub fn new(channel_ids: Vec<u16>, capacity: usize, tick_hz: u64) -> (r: Result<Self, LiveBufferError>)
        ensures
            match config_error(channel_ids@, capacity, tick_hz) {
                Some(e) => r == Err::<LiveBuffer, LiveBufferError>(LiveBufferError::InvalidConfig(e)),
                None => r matches Ok(b) && b@ == (LiveBufferView {
                    channel_ids: channel_ids@,
                    capacity: capacity as nat,
                    tick_hz,
                    rows: Seq::empty(),
                    gaps: Seq::empty(),
                }) && buffer_wf(b@),
            },
    {
        if channel_ids.len() == 0 {
            return Err(LiveBufferError::InvalidConfig(LiveBufferConfigError::NoChannels));
        }
        if capacity == 0 {
            return Err(LiveBufferError::InvalidConfig(LiveBufferConfigError::ZeroCapacity));
        }
        if tick_hz == 0 {
            return Err(LiveBufferError::InvalidConfig(LiveBufferConfigError::ZeroTickRate));
        }
        let mut i: usize = 0;
        while i < channel_ids.len()
            invariant
                i <= channel_ids@.len(),
                channel_ids@.len() != 0,
                capacity != 0,
                tick_hz != 0,
                forall|a: int, b: int| 0 <= a < b < i ==> channel_ids@[a] != channel_ids@[b],
            decreases channel_ids.len() - i,
        {
            let mut j: usize = 0;
            while j < i
                invariant
                    j <= i < channel_ids@.len(),
                    channel_ids@.len() != 0,
                    capacity != 0,
                    tick_hz != 0,
                    forall|a: int| 0 <= a < j ==> channel_ids@[a] != channel_ids@[i as int],
                decreases i - j,
            {
                if channel_ids[j] == channel_ids[i] {
                    assert(!ids_distinct(channel_ids@));
                    return Err(LiveBufferError::InvalidConfig(LiveBufferConfigError::DuplicateChannelIds));
                }
                j = j + 1;
            }
            i = i + 1;
        }
        let b = LiveBuffer { channel_ids, capacity, tick_hz, rows: VecDeque::new(), gaps: VecDeque::new() };
        assert(row_views(b.rows@) =~= Seq::<BufferedRowV>::empty());
        Ok(b)
    }
}

fn same_ids(a: &Vec<u16>, b: &Vec<u16>) -> (r: bool)
    ensures
        r == (a@ == b@),
{
    if a.len() != b.len() {
        return false;
    }
    let mut i: usize = 0;
    while i < a.len()
        invariant
            a@.len() == b@.len(),
            i <= a@.len(),
            forall|j: int| 0 <= j < i ==> a@[j] == b@[j],
        decreases a.len() - i,
    {
        if a[i] != b[i] {
            return false;
        }
        i = i + 1;
    }
    assert(a@ =~= b@);
    true
}

impl LiveBuffer {
    pub fn len(&self) -> (r: usize)
        ensures
            r == self@.rows.len(),
    {
        self.rows.len()
    }

    pub fn is_empty(&self) -> (r: bool)
        ensures
            r == (self@.rows.len() == 0),
    {
        self.rows.len() == 0
    }

    pub fn channel_ids(&self) -> (r: &[u16])
        ensures
            r@ == self@.channel_ids,
    {
        self.channel_ids.as_slice()
    }

    /// The sample indices of the buffered rows, oldest first.
    pub fn sample_indices(&self) -> (r: Vec<u64>)
        ensures
            r@ == self@.rows.map_values(|x: BufferedRowV| x.sample_index),
    {
        let mut out: Vec<u64> = Vec::new();
        let mut i: usize = 0;
        while i < self.rows.len()
            invariant
                i <= self.rows@.len(),
                out@ == row_views(self.rows@).take(i as int).map_values(|x: BufferedRowV| x.sample_index),
            decreases self.rows.len() - i,
        {
            out.push(self.rows[i].sample_index);
            assert(row_views(self.rows@).take(i + 1).map_values(|x: BufferedRowV| x.sample_index) =~= out@);
            i = i + 1;
        }
        assert(row_views(self.rows@).take(self.rows@.len() as int) =~= row_views(self.rows@));
        out
    }

    /// The recorded gaps, oldest first.
    pub fn gaps(&self) -> (r: Vec<LiveGap>)
        ensures
            r@ == self@.gaps,
    {
        let mut out: Vec<LiveGap> = Vec::new();
        let mut i: usize = 0;
        while i < self.gaps.len()
            invariant
                i <= self.gaps@.len(),
                out@ == self.gaps@.take(i as int),
            decreases self.gaps.len() - i,
        {
            out.push(self.gaps[i]);
            assert(self.gaps@.take(i + 1) =~= out@);
            i = i + 1;
        }
        assert(self.gaps@.take(self.gaps@.len() as int) =~= self.gaps@);
        out
    }

    /// Forgets every row and gap.
    pub fn clear(&mut self)
        requires
            old(self).spec_wf(),
        ensures
            final(self).spec_wf(),
            final(self)@ == (LiveBufferView { rows: Seq::empty(), gaps: Seq::empty(), ..old(self)@ }),
    {
        self.rows.clear();
        self.gaps.clear();
        assert(row_views(self.rows@) =~= Seq::<BufferedRowV>::empty());
    }

    /// Records `missing_samples` lost from `start_sample_index`, unless none
    /// are or the newest gap already says so.
    pub fn push_gap(&mut self, start_sample_index: u64, missing_samples: u64, reason: GapReason)
        requires
            old(self).spec_wf(),
        ensures
            final(self).spec_wf(),
            final(self)@ == (LiveBufferView {
                gaps: gap_pushed(old(self)@.gaps, start_sample_index, missing_samples, reason),
                ..old(self)@
            }),
    {
        if missing_samples == 0 {
            return;
        }
        let n = self.gaps.len();
        if n > 0 && self.gaps[n - 1].start_sample_index == start_sample_index && self.gaps[n - 1].missing_samples
            == missing_samples {
            return;
        }
        self.gaps.push_back(LiveGap { start_sample_index, missing_samples, reason });
    }

    #[verifier::loop_isolation(false)]
    fn evict_excess(&mut self)
        requires
            old(self)@.capacity >= 1,
            old(self)@.capacity == old(self).capacity,
        ensures
            final(self)@ == evicted(old(self)@),
            final(self).capacity == old(self).capacity,
            final(self).channel_ids@ == old(self).channel_ids@,
            final(self).tick_hz == old(self).tick_hz,
    {
        let ghost start = self@;
        let ghost mut dropped: int = 0;
        while self.rows.len() > self.capacity
            invariant
                start.capacity == self.capacity,
                self.capacity >= 1,
                0 <= dropped <= start.rows.len(),
                row_views(self.rows@) == start.rows.skip(dropped),
                self.rows@.len() > self.capacity ==> dropped < start.rows.len() - start.capacity,
                self.rows@.len() <= self.capacity ==> (dropped == 0 && start.rows.len() <= start.capacity) || dropped
                    == start.rows.len() - start.capacity,
                self.gaps@ == start.gaps,
                self.channel_ids@ == start.channel_ids,
                self.tick_hz == start.tick_hz,
            decreases self.rows.len(),
        {
            let ghost before = self.rows@;
            self.rows.pop_front();
            proof {
                assert(self.rows@ =~= before.drop_first());
                assert(row_views(self.rows@) =~= row_views(before).drop_first());
                dropped = dropped + 1;
                assert(row_views(self.rows@) =~= start.rows.skip(dropped));
            }
        }
        let ghost rows = row_views(self.rows@);
        assert(rows == evicted(start).rows);
        if self.rows.len() > 0 {
            let oldest = self.rows[0].sample_index;
            let ghost mut popped: int = 0;
            assert(start.gaps.skip(0) =~= start.gaps);
            while self.gaps.len() > 0 && (self.gaps[0].start_sample_index as u128 + self.gaps[0].missing_samples as u128
                <= oldest as u128 || self.gaps[0].start_sample_index as u128 + self.gaps[0].missing_samples as u128
                > u64::MAX as u128 && u64::MAX <= oldest)
                invariant
                    0 <= popped <= start.gaps.len(),
                    self.gaps@ == start.gaps.skip(popped),
                    pruned_gaps(start.gaps, oldest) == pruned_gaps(start.gaps.skip(popped), oldest),
                    row_views(self.rows@) == rows,
                    self.capacity == start.capacity,
                    self.channel_ids@ == start.channel_ids,
                    self.tick_hz == start.tick_hz,
                decreases self.gaps.len(),
            {
                proof {
                    assert(start.gaps.skip(popped).drop_first() =~= start.gaps.skip(popped + 1));
                }
                let ghost before = self.gaps@;
                self.gaps.pop_front();
                assert(self.gaps@ =~= before.drop_first());
                proof {
                    popped = popped + 1;
                }
            }
            assert(self@ == evicted(start));
        } else {
            assert(self@ == evicted(start));
        }
    }

    /// Appends a batch's rows, after recording a gap for skipped sample
    /// indices, and evicts beyond capacity; a batch that breaks a rule
    /// changes nothing.
    #[verifier::loop_isolation(false)]
    pub fn push_batch(&mut self, batch: DecodedSampleBatch) -> (r: Result<(), LiveBufferError>)
        requires
            old(self).spec_wf(),
        ensures
            final(self).spec_wf(),
            match batch_error(old(self)@, batch@) {
                Some(e) => r == Err::<(), LiveBufferError>(LiveBufferError::InvalidBatch(e)) && final(self)@ == old(
                    self,
                )@,
                None => r is Ok && final(self)@ == batch_pushed(old(self)@, batch@),
            },
    {
        let ghost old_v = self@;
        let ghost b = batch@;
        if !same_ids(&batch.channel_ids, &self.channel_ids) {
            return Err(LiveBufferError::InvalidBatch(LiveBatchError::ChannelIdsMismatch));
        }
        let cols = batch.channels.len();
        if cols != self.channel_ids.len() {
            return Err(LiveBufferError::InvalidBatch(LiveBatchError::ColumnCountMismatch));
        }
        let n = batch.channels[0].len();
        let mut c: usize = 0;
        while c < cols
            invariant
                cols == batch.channels@.len(),
                c <= cols,
                b == batch@,
                n == b.channels[0].len(),
                forall|a: int| 0 <= a < c ==> (#[trigger] b.channels[a]).len() == n,
            decreases cols - c,
        {
            if batch.channels[c].len() != n {
                assert(b.channels[c as int].len() != n);
                return Err(LiveBufferError::InvalidBatch(LiveBatchError::MisalignedColumns));
            }
            c = c + 1;
        }
        if n == 0 {
            return Err(LiveBufferError::InvalidBatch(LiveBatchError::MisalignedColumns));
        }
        let last = (n - 1) as u64;
        if batch.first_sample_index.checked_add(last).is_none() {
            return Err(LiveBufferError::InvalidBatch(LiveBatchError::SampleIndexOverflow));
        }
        let offset = match (batch.sample_period_ticks as u64).checked_mul(last) {
            Some(o) => o,
            None => {
                return Err(LiveBufferError::InvalidBatch(LiveBatchError::TimestampOffsetOverflow));
            },
        };
        if batch.timestamp_ticks.checked_add(offset).is_none() {
            return Err(LiveBufferError::InvalidBatch(LiveBatchError::TimestampOverflow));
        }
        let len = self.rows.len();
        if len > 0 {
            let previous = self.rows[len - 1].sample_index;
            if previous == u64::MAX {
                return Err(LiveBufferError::InvalidBatch(LiveBatchError::PreviousIndexOverflow));
            }
            let expected = previous + 1;
            if batch.first_sample_index < expected {
                return Err(
                    LiveBufferError::InvalidBatch(
                        LiveBatchError::OutOfOrder { got: batch.first_sample_index, expected },
                    ),
                );
            }
            if batch.first_sample_index > expected {
                self.push_gap(expected, batch.first_sample_index - expected, GapReason::SampleIndexLoss);
            }
        }
        assert(batch_error(old_v, b) is None);
        let ghost base = self@;
        let mut k: usize = 0;
        while k < n
            invariant
                k <= n,
                n == batch_len(b),
                b == batch@,
                cols == b.channels.len(),
                forall|a: int| 0 <= a < cols ==> (#[trigger] b.channels[a]).len() == n,
                b.first_sample_index + (n - 1) <= u64::MAX,
                b.timestamp_ticks + b.sample_period_ticks * (n - 1) <= u64::MAX,
                self@ == (LiveBufferView { rows: base.rows + batch_rows(b).take(k as int), ..base }),
                self.capacity == base.capacity,
            decreases n - k,
        {
            let mut values: Vec<u32> = Vec::new();
            let mut c: usize = 0;
            while c < cols
                invariant
                    c <= cols,
                    k < n,
                    b == batch@,
                    cols == b.channels.len(),
                    forall|a: int| 0 <= a < cols ==> (#[trigger] b.channels[a]).len() == n,
                    values@ == Seq::new(c as nat, |a: int| b.channels[a][k as int]),
                decreases cols - c,
            {
                assert(b.channels[c as int] == batch.channels@[c as int]@);
                values.push(batch.channels[c][k]);
                assert(values@ =~= Seq::new((c + 1) as nat, |a: int| b.channels[a][k as int]));
                c = c + 1;
            }
            proof {
                assert(b.sample_period_ticks * k <= b.sample_period_ticks * (n - 1)) by (nonlinear_arith)
                    requires
                        k < n,
                ;
            }
            let row = BufferedRow {
                sample_index: batch.first_sample_index + k as u64,
                timestamp_ticks: batch.timestamp_ticks + batch.sample_period_ticks as u64 * k as u64,
                values,
            };
            let ghost prev = self.rows@;
            let ghost rv = row@;
            assert(rv == batch_rows(b)[k as int]);
            self.rows.push_back(row);
            assert(self.rows@ =~= prev.push(row));
            assert(row_views(self.rows@) =~= row_views(prev).push(rv));
            assert(row_views(self.rows@) =~= base.rows + batch_rows(b).take(k + 1));
            k = k + 1;
        }
        assert(batch_rows(b).take(n as int) =~= batch_rows(b));
        self.evict_excess();
        Ok(())
    }
}

// ---------------------------------------------------------------------------
// Snapshots
// ---------------------------------------------------------------------------

/// Display data of one run of consecutive samples: timestamps in ticks of
/// the buffer's clock, and one column of `f32` bit patterns per channel.
#[derive(Clone, Debug, PartialEq, Eq)]
pub struct SnapshotSegment {
    pub timestamps_ticks: Vec<u64>,
    pub channels: Vec<Vec<u32>>,
}

#[derive(Clone, Debug, PartialEq, Eq)]
pub struct LiveSnapshot {
    pub channel_ids: Vec<u16>,
    pub tick_hz: u64,
    pub segments: Vec<SnapshotSegment>,
}

pub struct SnapshotSegmentV {
    pub timestamps_ticks: Seq<u64>,
    pub channels: Seq<Seq<u32>>,
}

impl View for SnapshotSegment {
    type V = SnapshotSegmentV;

    open spec fn view(&self) -> SnapshotSegmentV {
        SnapshotSegmentV {
            timestamps_ticks: self.timestamps_ticks@,
            channels: self.channels@.map_values(|c: Vec<u32>| c@),
        }
    }
}

pub open spec fn segment_views(s: Seq<SnapshotSegment>) -> Seq<SnapshotSegmentV> {
    s.map_values(|x: SnapshotSegment| x@)
}

/// Whether row `i` does not follow row `i - 1` directly.
pub open spec fn is_break(rows: Seq<BufferedRowV>, i: int) -> bool {
    rows[i].sample_index != if rows[i - 1].sample_index == u64::MAX {
        u64::MAX
    } else {
        (rows[i - 1].sample_index + 1) as u64
    }
}

/// The runs of consecutive sample indices among rows `start..k`, as
/// half-open row ranges in order.
pub open spec fn runs(rows: Seq<BufferedRowV>, start: int, k: int) -> Seq<(usize, usize)>
    decreases k - start,
{
    if k <= start + 1 {
        seq![(start as usize, k as usize)]
    } else {
        let r = runs(rows, start, k - 1);
        if is_break(rows, k - 1) {
            r.push(((k - 1) as usize, k as usize))
        } else {
            r.update(r.len() - 1, (r.last().0, k as usize))
        }
    }
}

/// The display data of the rows at the given positions.
pub open spec fn segment_of(v: LiveBufferView, sel: Seq<int>) -> SnapshotSegmentV {
    SnapshotSegmentV {
        timestamps_ticks: sel.map_values(|i: int| v.rows[i].timestamp_ticks),
        channels: Seq::new(v.channel_ids.len(), |c: int| sel.map_values(|i: int| v.rows[i].values[c])),
    }
}

/// Every position of a run.
pub open spec fn full_range(lo: int, hi: int) -> Seq<int> {
    Seq::new((hi - lo) as nat, |i: int| lo + i)
}

/// The first of the newest `max_samples` rows.
pub open spec fn recent_start(v: LiveBufferView, max_samples: usize) -> int {
    if v.rows.len() > max_samples {
        v.rows.len() - max_samples
    } else {
        0
    }
}

/// The newest `max_samples` rows at full resolution, one segment per run.
pub open spec fn spec_snapshot_recent(v: LiveBufferView, max_samples: usize) -> Seq<SnapshotSegmentV> {
    if v.rows.len() == 0 || max_samples == 0 {
        Seq::empty()
    } else {
        let rs = runs(v.rows, recent_start(v, max_samples), v.rows.len() as int);
        Seq::new(rs.len(), |i: int| segment_of(v, full_range(rs[i].0 as int, rs[i].1 as int)))
    }
}

proof fn lemma_runs_shape(rows: Seq<BufferedRowV>, start: int, k: int)
    requires
        0 <= start < k <= usize::MAX,
    ensures
        runs(rows, start, k).len() >= 1,
        runs(rows, start, k)[0].0 == start,
        runs(rows, start, k).last().1 == k,
        forall|i: int| 0 <= i < runs(rows, start, k).len() ==> start <= (#[trigger] runs(rows, start, k)[i]).0 < runs(rows, start, k)[i].1 <= k,
        forall|i: int| 0 <= i < runs(rows, start, k).len() - 1 ==> (#[trigger] runs(rows, start, k)[i]).1 == runs(rows, start, k)[i + 1].0,
    decreases k - start,
{
    if k > start + 1 {
        lemma_runs_shape(rows, start, k - 1);
        let r = runs(rows, start, k - 1);
        assert(r.last() == r[r.len() - 1]);
    }
}

impl LiveBuffer {
    fn segment_at(&self, sel: &Vec<usize>) -> (r: SnapshotSegment)
        requires
            self.spec_wf(),
            forall|i: int| 0 <= i < sel@.len() ==> sel@[i] < self@.rows.len(),
        ensures
            r@ == segment_of(self@, sel@.map_values(|i: usize| i as int)),
    {
        let ghost v = self@;
        let ghost ps = sel@.map_values(|i: usize| i as int);
        let mut timestamps_ticks: Vec<u64> = Vec::new();
        let mut k: usize = 0;
        while k < sel.len()
            invariant
                self.spec_wf(),
                v == self@,
                ps == sel@.map_values(|i: usize| i as int),
                forall|i: int| 0 <= i < sel@.len() ==> sel@[i] < v.rows.len(),
                self.rows@.len() == v.rows.len(),
                k <= sel@.len(),
                timestamps_ticks@ == ps.take(k as int).map_values(|i: int| v.rows[i].timestamp_ticks),
            decreases sel.len() - k,
        {
            assert(row_views(self.rows@)[sel@[k as int] as int] == self.rows@[sel@[k as int] as int]@);
            let idx = sel[k];
            timestamps_ticks.push(self.rows[idx].timestamp_ticks);
            assert(ps.take(k + 1).map_values(|i: int| v.rows[i].timestamp_ticks) =~= timestamps_ticks@);
            k = k + 1;
        }
        assert(ps.take(sel@.len() as int) =~= ps);
        let cols = self.channel_ids.len();
        let mut channels: Vec<Vec<u32>> = Vec::new();
        let mut c: usize = 0;
        while c < cols
            invariant
                self.spec_wf(),
                v == self@,
                cols == v.channel_ids.len(),
                ps == sel@.map_values(|i: usize| i as int),
                forall|i: int| 0 <= i < sel@.len() ==> sel@[i] < v.rows.len(),
                self.rows@.len() == v.rows.len(),
                c <= cols,
                channels@.map_values(|x: Vec<u32>| x@) == Seq::new(c as nat, |a: int| ps.map_values(|i: int| v.rows[i].values[a])),
            decreases cols - c,
        {
            let mut column: Vec<u32> = Vec::new();
            let mut k: usize = 0;
            while k < sel.len()
                invariant
                    self.spec_wf(),
                    v == self@,
                    c < cols,
                    cols == v.channel_ids.len(),
                    ps == sel@.map_values(|i: usize| i as int),
                    forall|i: int| 0 <= i < sel@.len() ==> sel@[i] < v.rows.len(),
                    self.rows@.len() == v.rows.len(),
                    k <= sel@.len(),
                    column@ == ps.take(k as int).map_values(|i: int| v.rows[i].values[c as int]),
                decreases sel.len() - k,
            {
                let idx = sel[k];
                assert(row_views(self.rows@)[idx as int] == self.rows@[idx as int]@);
                assert(v.rows[idx as int].values.len() == cols);
                column.push(self.rows[idx].values[c]);
                assert(ps.take(k + 1).map_values(|i: int| v.rows[i].values[c as int]) =~= column@);
                k = k + 1;
            }
            assert(ps.take(sel@.len() as int) =~= ps);
            let ghost prev = channels@;
            let ghost col = column@;
            channels.push(column);
            assert(channels@ =~= prev.push(channels@.last()));
            assert(channels@.map_values(|x: Vec<u32>| x@) =~= prev.map_values(|x: Vec<u32>| x@).push(col));
            assert(channels@.map_values(|x: Vec<u32>| x@) =~= Seq::new((c + 1) as nat, |a: int| ps.map_values(|i: int| v.rows[i].values[a])));
            c = c + 1;
        }
        SnapshotSegment { timestamps_ticks, channels }
    }

    /// The runs of rows `start..len`, as half-open ranges.
    fn runs_from(&self, start: usize) -> (r: Vec<(usize, usize)>)
        requires
            start < self@.rows.len(),
        ensures
            r@ == runs(self@.rows, start as int, self@.rows.len() as int),
    {
        let ghost rows = self@.rows;
        let len = self.rows.len();
        let mut ranges: Vec<(usize, usize)> = Vec::new();
        let mut range_start = start;
        let mut index = start + 1;
        while index < len
            invariant
                rows == self@.rows,
                len == rows.len(),
                start < index <= len,
                ranges@.push((range_start, index)) == runs(rows, start as int, index as int),
            decreases len - index,
        {
            let prev = self.rows[index - 1].sample_index;
            let next = if prev == u64::MAX { u64::MAX } else { prev + 1 };
            assert(rows[index as int] == self.rows@[index as int]@);
            assert(rows[index - 1] == self.rows@[index - 1]@);
            if self.rows[index].sample_index != next {
                assert(is_break(rows, index as int));
                ranges.push((range_start, index));
                range_start = index;
                assert(ranges@.push((range_start, (index + 1) as usize)) =~= runs(rows, start as int, index + 1));
            } else {
                assert(!is_break(rows, index as int));
                assert(ranges@.push((range_start, (index + 1) as usize)) =~= runs(rows, start as int, index + 1));
            }
            index = index + 1;
        }
        ranges.push((range_start, len));
        ranges
    }

    fn range_positions(lo: usize, hi: usize) -> (r: Vec<usize>)
        requires
            lo <= hi,
        ensures
            r@.map_values(|i: usize| i as int) == full_range(lo as int, hi as int),
            forall|i: int| 0 <= i < r@.len() ==> r@[i] < hi,
    {
        let mut out: Vec<usize> = Vec::new();
        let mut i = lo;
        while i < hi
            invariant
                lo <= i <= hi,
                out@.map_values(|x: usize| x as int) == full_range(lo as int, i as int),
                forall|j: int| 0 <= j < out@.len() ==> out@[j] < i,
            decreases hi - i,
        {
            let ghost prev = out@;
            out.push(i);
            assert(out@ =~= prev.push(i));
            assert(out@.map_values(|x: usize| x as int) =~= prev.map_values(|x: usize| x as int).push(i as int));
            assert(out@.map_values(|x: usize| x as int) =~= full_range(lo as int, i + 1));
            i = i + 1;
        }
        out
    }

    /// The newest samples at full resolution, one segment per run of
    /// consecutive indices.
    pub fn snapshot_recent(&self, max_samples: usize) -> (r: LiveSnapshot)
        requires
            self.spec_wf(),
        ensures
            r.channel_ids@ == self@.channel_ids,
            r.tick_hz == self@.tick_hz,
            segment_views(r.segments@) == spec_snapshot_recent(self@, max_samples),
    {
        let ghost v = self@;
        let mut segments: Vec<SnapshotSegment> = Vec::new();
        let len = self.rows.len();
        if len == 0 || max_samples == 0 {
            assert(segment_views(segments@) =~= spec_snapshot_recent(v, max_samples));
            return LiveSnapshot { channel_ids: self.channel_ids.clone(), tick_hz: self.tick_hz, segments };
        }
        let start = if len > max_samples { len - max_samples } else { 0 };
        let ranges = self.runs_from(start);
        proof {
            lemma_runs_shape(v.rows, start as int, len as int);
        }
        let ghost rs = ranges@;
        let mut i: usize = 0;
        while i < ranges.len()
            invariant
                self.spec_wf(),
                v == self@,
                rs == ranges@,
                rs == runs(v.rows, start as int, len as int),
                len == v.rows.len(),
                forall|j: int| 0 <= j < rs.len() ==> start <= (#[trigger] rs[j]).0 < rs[j].1 <= len,
                i <= rs.len(),
                segment_views(segments@) == Seq::new(i as nat, |j: int| segment_of(v, full_range(rs[j].0 as int, rs[j].1 as int))),
            decreases ranges.len() - i,
        {
            let (lo, hi) = ranges[i];
            assert(rs[i as int] == (lo, hi));
            let positions = Self::range_positions(lo, hi);
            let seg = self.segment_at(&positions);
            let ghost prev = segments@;
            let ghost sv = seg@;
            segments.push(seg);
            assert(segments@ =~= prev.push(segments@.last()));
            assert(segment_views(segments@) =~= segment_views(prev).push(sv));
            assert(segment_views(segments@) =~= Seq::new((i + 1) as nat, |j: int| segment_of(v, full_range(rs[j].0 as int, rs[j].1 as int))));
            i = i + 1;
        }
        assert(segment_views(segments@) =~= spec_snapshot_recent(v, max_samples));
        LiveSnapshot { channel_ids: self.channel_ids.clone(), tick_hz: self.tick_hz, segments }
    }
}

// ---------------------------------------------------------------------------
// Decimation of one run
// ---------------------------------------------------------------------------

/// The order `f32::total_cmp` puts bit patterns in, as an unsigned key.
pub open spec fn total_key(b: u32) -> u32 {
    if b & 0x8000_0000 != 0 {
        !b
    } else {
        b | 0x8000_0000
    }
}

fn total_key_exec(b: u32) -> (r: u32)
    ensures
        r == total_key(b),
{
    if b & 0x8000_0000 != 0 {
        !b
    } else {
        b | 0x8000_0000
    }
}

/// Channel `c` of every row.
pub open spec fn column(v: LiveBufferView, c: int) -> Seq<u32> {
    Seq::new(v.rows.len(), |i: int| v.rows[i].values[c])
}

/// The first position of the least value in `lo..hi`.
pub open spec fn arg_min(vals: Seq<u32>, lo: int, hi: int) -> int
    decreases hi - lo,
{
    if hi <= lo + 1 {
        lo
    } else {
        let m = arg_min(vals, lo, hi - 1);
        if total_key(vals[hi - 1]) < total_key(vals[m]) {
            hi - 1
        } else {
            m
        }
    }
}

/// The first position of the greatest value in `lo..hi`.
pub open spec fn arg_max(vals: Seq<u32>, lo: int, hi: int) -> int
    decreases hi - lo,
{
    if hi <= lo + 1 {
        lo
    } else {
        let m = arg_max(vals, lo, hi - 1);
        if total_key(vals[hi - 1]) > total_key(vals[m]) {
            hi - 1
        } else {
            m
        }
    }
}

proof fn lemma_arg_bounds(vals: Seq<u32>, lo: int, hi: int)
    requires
        lo < hi,
    ensures
        lo <= arg_min(vals, lo, hi) < hi,
        lo <= arg_max(vals, lo, hi) < hi,
    decreases hi - lo,
{
    if hi > lo + 1 {
        lemma_arg_bounds(vals, lo, hi - 1);
    }
}

/// The offsets a mask marks, in increasing order.
pub open spec fn marked(m: Seq<bool>) -> Seq<int>
    decreases m.len(),
{
    if m.len() == 0 {
        Seq::empty()
    } else if m.last() {
        marked(m.drop_last()).push(m.len() - 1)
    } else {
        marked(m.drop_last())
    }
}

proof fn lemma_marked_bounds(m: Seq<bool>)
    ensures
        marked(m).len() <= m.len(),
        forall|i: int| 0 <= i < marked(m).len() ==> 0 <= #[trigger] marked(m)[i] < m.len() && m[marked(m)[i]],
        forall|i: int, j: int| 0 <= i < j < marked(m).len() ==> marked(m)[i] < marked(m)[j],
    decreases m.len(),
{
    if m.len() > 0 {
        lemma_marked_bounds(m.drop_last());
        let p = marked(m.drop_last());
        assert forall|i: int| 0 <= i < p.len() implies m[p[i]] by {
            assert(m.drop_last()[p[i]] == m[p[i]]);
        }
    }
}

proof fn lemma_marked_set(m: Seq<bool>, o: int)
    requires
        0 <= o < m.len(),
    ensures
        marked(m.update(o, true)).len() == marked(m).len() + if m[o] {
            0int
        } else {
            1int
        },
    decreases m.len(),
{
    let u = m.update(o, true);
    if o == m.len() - 1 {
        assert(u.drop_last() =~= m.drop_last());
    } else {
        assert(u.drop_last() =~= m.drop_last().update(o, true));
        lemma_marked_set(m.drop_last(), o);
    }
}

pub open spec fn mark(m: Seq<bool>, o: int) -> Seq<bool> {
    m.update(o, true)
}

/// Marks the extremes of every channel over rows `bs..be`, offsets from `lo`.
pub open spec fn extremes_marked(v: LiveBufferView, lo: int, bs: int, be: int, m: Seq<bool>, c: int) -> Seq<bool>
    decreases c,
{
    if c <= 0 {
        m
    } else {
        let m1 = extremes_marked(v, lo, bs, be, m, c - 1);
        mark(mark(m1, arg_min(column(v, c - 1), bs, be) - lo), arg_max(column(v, c - 1), bs, be) - lo)
    }
}

pub open spec fn bin_size(n: int, max_points: int) -> int {
    let bins = if max_points / 2 > 1 {
        max_points / 2
    } else {
        1
    };
    n / bins + if n % bins != 0 {
        1int
    } else {
        0int
    }
}

/// The mask after the bins of `size` rows from `bs` up to `hi`: each bin's
/// first and last row and every channel's extremes in it.
pub open spec fn bins_from(v: LiveBufferView, lo: int, hi: int, size: int, bs: int, m: Seq<bool>) -> Seq<bool>
    decreases hi - bs,
{
    if size <= 0 || bs >= hi {
        m
    } else {
        let be = if bs + size < hi {
            bs + size
        } else {
            hi
        };
        bins_from(v, lo, hi, size, be, extremes_marked(v, lo, bs, be, mark(mark(m, bs - lo), be - 1 - lo), v.channel_ids.len() as int))
    }
}

/// The kept mask after the channel extremes over the whole run, while it
/// has fewer than `max_points` marks.
pub open spec fn kept_extremes(v: LiveBufferView, lo: int, hi: int, max_points: int, m: Seq<bool>, c: int) -> Seq<bool>
    decreases c,
{
    if c <= 0 {
        m
    } else {
        let k = kept_extremes(v, lo, hi, max_points, m, c - 1);
        if marked(k).len() >= max_points {
            k
        } else {
            let k1 = mark(k, arg_min(column(v, c - 1), lo, hi) - lo);
            if marked(k1).len() < max_points {
                mark(k1, arg_max(column(v, c - 1), lo, hi) - lo)
            } else {
                k1
            }
        }
    }
}

/// The kept mask after `o` of `remaining` evenly spread picks from `sel`.
pub open spec fn spread_marked(m: Seq<bool>, sel: Seq<int>, lo: int, remaining: int, o: int) -> Seq<bool>
    decreases o,
{
    if o <= 0 {
        m
    } else {
        mark(spread_marked(m, sel, lo, remaining, o - 1), sel[o * (sel.len() - 1) / (remaining + 1)] - lo)
    }
}

/// At most `max_points` of the selected rows: the run's ends, channel
/// extremes, then evenly spread picks, the first `max_points` in order.
pub open spec fn limited(v: LiveBufferView, sel: Seq<int>, lo: int, hi: int, max_points: int) -> Seq<int> {
    if sel.len() <= max_points {
        sel
    } else if max_points == 1 {
        seq![hi - 1]
    } else {
        let n = hi - lo;
        let k0 = mark(mark(Seq::new(n as nat, |o: int| false), 0), n - 1);
        let k1 = kept_extremes(v, lo, hi, max_points, k0, v.channel_ids.len() as int);
        let k2 = if marked(k1).len() < max_points {
            spread_marked(k1, sel, lo, max_points - marked(k1).len(), max_points - marked(k1).len())
        } else {
            k1
        };
        first_items(marked(k2).map_values(|o: int| o + lo), max_points)
    }
}

/// The rows shown for run `lo..hi` under a budget of `max_points`.
pub open spec fn range_selection(v: LiveBufferView, lo: int, hi: int, max_points: int) -> Seq<int> {
    let n = hi - lo;
    if n <= max_points {
        full_range(lo, hi)
    } else {
        let size = bin_size(n, max_points);
        let sel = marked(bins_from(v, lo, hi, size, lo, Seq::new(n as nat, |o: int| false))).map_values(|o: int| o + lo);
        limited(v, sel, lo, hi, max_points)
    }
}


/// The first `n` items of `s`, or all of them when there are fewer.
pub open spec fn first_items(s: Seq<int>, n: int) -> Seq<int> {
    if s.len() <= n {
        s
    } else {
        s.take(n)
    }
}

/// A mask of `n` unmarked offsets.
fn empty_mask(n: usize) -> (r: Vec<bool>)
    ensures
        r@ == Seq::new(n as nat, |o: int| false),
        marked(r@).len() == 0,
{
    let mut m: Vec<bool> = Vec::new();
    let mut i: usize = 0;
    while i < n
        invariant
            i <= n,
            m@ == Seq::new(i as nat, |o: int| false),
            marked(m@).len() == 0,
        decreases n - i,
    {
        let ghost prev = m@;
        m.push(false);
        assert(m@.drop_last() =~= prev);
        assert(m@ =~= Seq::new((i + 1) as nat, |o: int| false));
        i = i + 1;
    }
    m
}

/// Marks offset `o`, keeping `count` equal to the number of marks.
fn mark_at(m: &mut Vec<bool>, count: &mut usize, o: usize)
    requires
        o < old(m)@.len(),
        *old(count) == marked(old(m)@).len(),
    ensures
        final(m)@ == mark(old(m)@, o as int),
        *final(count) == marked(final(m)@).len(),
{
    let len = m.len();
    proof {
        lemma_marked_set(m@, o as int);
        lemma_marked_bounds(m@.update(o as int, true));
    }
    if !m[o] {
        m.set(o, true);
        *count = *count + 1;
    } else {
        assert(m@.update(o as int, true) =~= m@);
    }
}

/// The offsets a mask marks, shifted by `lo`, in increasing order.
fn marked_positions(m: &Vec<bool>, lo: usize) -> (r: Vec<usize>)
    requires
        lo + m@.len() <= usize::MAX,
    ensures
        r@.map_values(|i: usize| i as int) == marked(m@).map_values(|o: int| o + lo),
        forall|i: int| 0 <= i < r@.len() ==> lo <= #[trigger] r@[i] < lo + m@.len(),
{
    let mut out: Vec<usize> = Vec::new();
    let mut i: usize = 0;
    while i < m.len()
        invariant
            i <= m@.len(),
            lo + m@.len() <= usize::MAX,
            out@.map_values(|x: usize| x as int) == marked(m@.take(i as int)).map_values(|o: int| o + lo),
            forall|j: int| 0 <= j < out@.len() ==> lo <= #[trigger] out@[j] < lo + i,
        decreases m.len() - i,
    {
        assert(m@.take(i + 1).drop_last() =~= m@.take(i as int));
        assert(m@.take(i + 1).last() == m@[i as int]);
        let ghost prev = out@;
        if m[i] {
            out.push(lo + i);
            assert(out@.map_values(|x: usize| x as int) =~= prev.map_values(|x: usize| x as int).push(lo + i));
            assert(marked(m@.take(i + 1)) == marked(m@.take(i as int)).push(i as int));
            assert(out@.map_values(|x: usize| x as int) =~= marked(m@.take(i + 1)).map_values(|o: int| o + lo));
        } else {
            assert(marked(m@.take(i + 1)) == marked(m@.take(i as int)));
        }
        i = i + 1;
    }
    assert(m@.take(m@.len() as int) =~= m@);
    out
}

/// The first `n` positions of `s`, or all of them when there are fewer.
fn first_positions(s: Vec<usize>, n: usize, hi: usize) -> (r: Vec<usize>)
    requires
        forall|j: int| 0 <= j < s@.len() ==> #[trigger] s@[j] < hi,
    ensures
        r@.map_values(|i: usize| i as int) == first_items(s@.map_values(|i: usize| i as int), n as int),
        forall|i: int| 0 <= i < r@.len() ==> #[trigger] r@[i] < hi,
{
    if s.len() <= n {
        return s;
    }
    let mut out: Vec<usize> = Vec::new();
    let mut i: usize = 0;
    while i < n
        invariant
            i <= n < s@.len(),
            out@ == s@.take(i as int),
        decreases n - i,
    {
        out.push(s[i]);
        assert(out@ =~= s@.take(i + 1));
        i = i + 1;
    }
    assert(out@.map_values(|i: usize| i as int) =~= s@.map_values(|i: usize| i as int).take(n as int));
    assert forall|i: int| 0 <= i < out@.len() implies #[trigger] out@[i] < hi by {
        assert(out@[i] == s@[i]);
    }
    out
}

impl LiveBuffer {
    /// The first positions of the least and the greatest value of channel
    /// `c` over rows `lo..hi`, in the order `f32::total_cmp` gives.
    fn column_extremes(&self, c: usize, lo: usize, hi: usize) -> (r: (usize, usize))
        requires
            self.spec_wf(),
            c < self@.channel_ids.len(),
            lo < hi <= self@.rows.len(),
        ensures
            r.0 == arg_min(column(self@, c as int), lo as int, hi as int),
            r.1 == arg_max(column(self@, c as int), lo as int, hi as int),
            lo <= r.0 < hi,
            lo <= r.1 < hi,
    {
        let ghost v = self@;
        let ghost col = column(v, c as int);
        let mut minimum = lo;
        let mut maximum = lo;
        let mut index = lo + 1;
        while index < hi
            invariant
                self.spec_wf(),
                v == self@,
                col == column(v, c as int),
                c < v.channel_ids.len(),
                lo < index <= hi,
                hi <= v.rows.len(),
                self.rows@.len() == v.rows.len(),
                minimum == arg_min(col, lo as int, index as int),
                maximum == arg_max(col, lo as int, index as int),
            decreases hi - index,
        {
            proof {
                lemma_arg_bounds(col, lo as int, index as int);
            }
            assert(row_views(self.rows@)[index as int] == self.rows@[index as int]@);
            assert(row_views(self.rows@)[minimum as int] == self.rows@[minimum as int]@);
            assert(row_views(self.rows@)[maximum as int] == self.rows@[maximum as int]@);
            assert(v.rows[index as int].values.len() == v.channel_ids.len());
            assert(v.rows[minimum as int].values.len() == v.channel_ids.len());
            assert(v.rows[maximum as int].values.len() == v.channel_ids.len());
            let x = total_key_exec(self.rows[index].values[c]);
            let lo_key = total_key_exec(self.rows[minimum].values[c]);
            let hi_key = total_key_exec(self.rows[maximum].values[c]);
            if x < lo_key {
                minimum = index;
            }
            if x > hi_key {
                maximum = index;
            }
            index = index + 1;
        }
        proof {
            lemma_arg_bounds(col, lo as int, hi as int);
        }
        (minimum, maximum)
    }

    /// Marks every channel's extremes over rows `bs..be`, offsets from `lo`.
    fn mark_extremes(&self, lo: usize, bs: usize, be: usize, m: &mut Vec<bool>, count: &mut usize)
        requires
            self.spec_wf(),
            lo <= bs < be <= self@.rows.len(),
            be - lo <= old(m)@.len(),
            *old(count) == marked(old(m)@).len(),
        ensures
            final(m)@ == extremes_marked(self@, lo as int, bs as int, be as int, old(m)@, self@.channel_ids.len() as int),
            final(m)@.len() == old(m)@.len(),
            *final(count) == marked(final(m)@).len(),
    {
        let ghost m0 = m@;
        let cols = self.channel_ids.len();
        let mut c: usize = 0;
        while c < cols
            invariant
                self.spec_wf(),
                cols == self@.channel_ids.len(),
                lo <= bs < be <= self@.rows.len(),
                be - lo <= m@.len(),
                c <= cols,
                m@ == extremes_marked(self@, lo as int, bs as int, be as int, m0, c as int),
                m@.len() == m0.len(),
                *count == marked(m@).len(),
            decreases cols - c,
        {
            let (mn, mx) = self.column_extremes(c, bs, be);
            mark_at(m, count, mn - lo);
            mark_at(m, count, mx - lo);
            c = c + 1;
        }
    }

    /// Marks, for each bin of `size` rows of `lo..hi`, its first and last
    /// row and every channel's extremes in it.
    fn mark_bins(&self, lo: usize, hi: usize, size: usize, m: &mut Vec<bool>, count: &mut usize)
        requires
            self.spec_wf(),
            lo < hi <= self@.rows.len(),
            size >= 1,
            old(m)@.len() == hi - lo,
            *old(count) == marked(old(m)@).len(),
        ensures
            final(m)@ == bins_from(self@, lo as int, hi as int, size as int, lo as int, old(m)@),
            final(m)@.len() == hi - lo,
            *final(count) == marked(final(m)@).len(),
    {
        let ghost m0 = m@;
        let mut bs = lo;
        while bs < hi
            invariant
                self.spec_wf(),
                lo <= bs <= hi,
                hi <= self@.rows.len(),
                size >= 1,
                m@.len() == hi - lo,
                *count == marked(m@).len(),
                bins_from(self@, lo as int, hi as int, size as int, bs as int, m@) == bins_from(self@, lo as int, hi as int, size as int, lo as int, m0),
            decreases hi - bs,
        {
            let be = if size < hi - bs {
                bs + size
            } else {
                hi
            };
            mark_at(m, count, bs - lo);
            mark_at(m, count, be - 1 - lo);
            self.mark_extremes(lo, bs, be, m, count);
            bs = be;
        }
    }
}


impl LiveBuffer {
    /// At most `max_points` of the selected rows of run `lo..hi`.
    fn limit_to_budget(&self, sel: Vec<usize>, lo: usize, hi: usize, max_points: usize) -> (r: Vec<usize>)
        requires
            self.spec_wf(),
            lo < hi <= self@.rows.len(),
            max_points >= 1,
            forall|i: int| 0 <= i < sel@.len() ==> lo <= #[trigger] sel@[i] < hi,
        ensures
            r@.map_values(|i: usize| i as int) == limited(self@, sel@.map_values(|i: usize| i as int), lo as int, hi as int, max_points as int),
            forall|i: int| 0 <= i < r@.len() ==> #[trigger] r@[i] < hi,
    {
        let ghost v = self@;
        let ghost selv = sel@.map_values(|i: usize| i as int);
        if sel.len() <= max_points {
            return sel;
        }
        if max_points == 1 {
            let r = vec![hi - 1];
            assert(r@.map_values(|i: usize| i as int) =~= seq![hi - 1]);
            return r;
        }
        let n = hi - lo;
        let mut k = empty_mask(n);
        let mut count: usize = 0;
        mark_at(&mut k, &mut count, 0);
        mark_at(&mut k, &mut count, n - 1);
        let ghost k0 = k@;
        assert(k0 =~= mark(mark(Seq::new(n as nat, |o: int| false), 0), n - 1));
        let cols = self.channel_ids.len();
        let mut c: usize = 0;
        while c < cols
            invariant
                self.spec_wf(),
                v == self@,
                cols == v.channel_ids.len(),
                lo < hi <= v.rows.len(),
                n == hi - lo,
                c <= cols,
                k@.len() == n,
                k@ == kept_extremes(v, lo as int, hi as int, max_points as int, k0, c as int),
                count == marked(k@).len(),
            decreases cols - c,
        {
            if count < max_points {
                let (mn, mx) = self.column_extremes(c, lo, hi);
                mark_at(&mut k, &mut count, mn - lo);
                if count < max_points {
                    mark_at(&mut k, &mut count, mx - lo);
                }
            }
            c = c + 1;
        }
        let ghost k1 = k@;
        if count < max_points {
            let remaining = max_points - count;
            let len = sel.len();
            let mut offset: usize = 0;
            while offset < remaining
                invariant
                    selv == sel@.map_values(|i: usize| i as int),
                    forall|i: int| 0 <= i < sel@.len() ==> lo <= #[trigger] sel@[i] < hi,
                    len == sel@.len(),
                    len > max_points >= 2,
                    remaining < len,
                    n == hi - lo,
                    offset <= remaining,
                    k@.len() == n,
                    k@ == spread_marked(k1, selv, lo as int, remaining as int, offset as int),
                    count == marked(k@).len(),
                decreases remaining - offset,
            {
                let a: u128 = offset as u128 + 1;
                let b: u128 = len as u128 - 1;
                let d: u128 = remaining as u128 + 1;
                assert(a * b <= u128::MAX) by (nonlinear_arith)
                    requires
                        a <= 0x1_0000_0000_0000_0000,
                        b < 0x1_0000_0000_0000_0000,
                ;
                let q = a * b / d;
                assert(q < len) by (nonlinear_arith)
                    requires
                        q as int == (a * b) as int / (d as int),
                        1 <= a < d,
                        b + 1 == len,
                ;
                let position = q as usize;
                assert(selv[(offset + 1) * (selv.len() - 1) / (remaining + 1)] == sel@[position as int]);
                mark_at(&mut k, &mut count, sel[position] - lo);
                offset = offset + 1;
            }
        }
        assert(k@ == if marked(k1).len() < max_points {
            spread_marked(k1, selv, lo as int, max_points - marked(k1).len(), max_points - marked(k1).len())
        } else {
            k1
        });
        let all = marked_positions(&k, lo);
        first_positions(all, max_points, hi)
    }

    /// The rows shown for run `lo..hi` under a budget of `max_points`.
    fn select_range(&self, lo: usize, hi: usize, max_points: usize) -> (r: Vec<usize>)
        requires
            self.spec_wf(),
            lo < hi <= self@.rows.len(),
            max_points >= 1,
        ensures
            r@.map_values(|i: usize| i as int) == range_selection(self@, lo as int, hi as int, max_points as int),
            forall|i: int| 0 <= i < r@.len() ==> #[trigger] r@[i] < hi,
    {
        let n = hi - lo;
        if n <= max_points {
            return Self::range_positions(lo, hi);
        }
        let bins = if max_points / 2 > 1 {
            max_points / 2
        } else {
            1
        };
        assert(n % bins != 0 ==> n / bins < n) by (nonlinear_arith)
            requires
                bins >= 1,
                bins == 1 ==> n % bins == 0,
                n >= 1,
        ;
        let size = n / bins + if n % bins != 0 {
            1
        } else {
            0
        };
        assert(size >= 1) by (nonlinear_arith)
            requires
                bins >= 1,
                n >= 1,
                size == n / bins + if n % bins != 0 { 1int } else { 0int },
        ;
        let mut m = empty_mask(n);
        let mut count: usize = 0;
        self.mark_bins(lo, hi, size, &mut m, &mut count);
        let sel = marked_positions(&m, lo);
        self.limit_to_budget(sel, lo, hi, max_points)
    }
}


/// `a * b`, or `usize::MAX` where the product does not fit.
pub open spec fn sat_mul(a: int, b: int) -> int {
    if a * b > usize::MAX {
        usize::MAX as int
    } else {
        a * b
    }
}

/// `a - b`, or zero where `b` exceeds `a`.
pub open spec fn sat_sub(a: int, b: int) -> int {
    if a > b {
        a - b
    } else {
        0
    }
}

/// `a / b` rounded up.
pub open spec fn ceil_div(a: int, b: int) -> int {
    a / b + if a % b != 0 {
        1int
    } else {
        0int
    }
}

/// The point budget of each run, shared out in order: each run gets its
/// proportional share of the points left for the samples left, at least
/// one point, and leaves one point for each later run where it can.
pub open spec fn budgets(lens: Seq<int>, budget: int, samples: int) -> Seq<int>
    decreases lens.len(),
{
    if lens.len() == 0 {
        Seq::empty()
    } else {
        let reserved = lens.len() - 1;
        let proportional = ceil_div(sat_mul(lens[0], budget), if samples > 1 {
            samples
        } else {
            1
        });
        let cap = if sat_sub(budget, reserved) > 1 {
            sat_sub(budget, reserved)
        } else {
            1
        };
        let b = if proportional < 1 {
            1
        } else if proportional < cap {
            proportional
        } else {
            cap
        };
        seq![b] + budgets(lens.drop_first(), sat_sub(budget, b), sat_sub(samples, lens[0]))
    }
}

proof fn lemma_budgets_len(lens: Seq<int>, budget: int, samples: int)
    ensures
        budgets(lens, budget, samples).len() == lens.len(),
    decreases lens.len(),
{
    if lens.len() > 0 {
        let b = budgets(lens, budget, samples)[0];
        lemma_budgets_len(lens.drop_first(), sat_sub(budget, b), sat_sub(samples, lens[0]));
    }
}

/// The number of rows of each run.
pub open spec fn run_lens(rs: Seq<(usize, usize)>) -> Seq<int> {
    rs.map_values(|r: (usize, usize)| r.1 - r.0)
}

pub open spec fn sum(s: Seq<int>) -> int
    decreases s.len(),
{
    if s.len() == 0 {
        0
    } else {
        sum(s.drop_last()) + s.last()
    }
}

/// The newest `max_points` runs of the buffer.
pub open spec fn kept_runs(v: LiveBufferView, max_points: usize) -> Seq<(usize, usize)> {
    let rs = runs(v.rows, 0, v.rows.len() as int);
    if rs.len() > max_points {
        rs.skip(rs.len() - max_points)
    } else {
        rs
    }
}

/// The whole buffer in at most `max_points` points: one segment per kept
/// run, each decimated to its share of the budget.
pub open spec fn spec_snapshot(v: LiveBufferView, max_points: usize) -> Seq<SnapshotSegmentV> {
    if v.rows.len() == 0 || max_points == 0 {
        Seq::empty()
    } else {
        let kept = kept_runs(v, max_points);
        let lens = run_lens(kept);
        let bs = budgets(lens, max_points as int, sum(lens));
        Seq::new(kept.len(), |i: int| segment_of(v, range_selection(v, kept[i].0 as int, kept[i].1 as int, bs[i])))
    }
}

fn drop_front(v: Vec<(usize, usize)>, k: usize) -> (r: Vec<(usize, usize)>)
    requires
        k <= v@.len(),
    ensures
        r@ == v@.skip(k as int),
{
    let mut out: Vec<(usize, usize)> = Vec::new();
    let mut i = k;
    while i < v.len()
        invariant
            k <= i <= v@.len(),
            out@ == v@.subrange(k as int, i as int),
        decreases v.len() - i,
    {
        out.push(v[i]);
        assert(out@ =~= v@.subrange(k as int, i + 1));
        i = i + 1;
    }
    assert(out@ =~= v@.skip(k as int));
    out
}

impl LiveBuffer {
    /// The whole buffer in at most `max_points` points per segment budget:
    /// the newest `max_points` runs of consecutive indices, the budget
    /// shared among them by their lengths, each run decimated to keep its
    /// ends and every channel's extremes.
    pub fn snapshot(&self, max_points: usize) -> (r: LiveSnapshot)
        requires
            self.spec_wf(),
        ensures
            r.channel_ids@ == self@.channel_ids,
            r.tick_hz == self@.tick_hz,
            segment_views(r.segments@) == spec_snapshot(self@, max_points),
    {
        let ghost v = self@;
        let mut segments: Vec<SnapshotSegment> = Vec::new();
        let len = self.rows.len();
        if len == 0 || max_points == 0 {
            assert(segment_views(segments@) =~= spec_snapshot(v, max_points));
            return LiveSnapshot { channel_ids: self.channel_ids.clone(), tick_hz: self.tick_hz, segments };
        }
        let all = self.runs_from(0);
        proof {
            lemma_runs_shape(v.rows, 0, len as int);
        }
        let ghost rs = all@;
        let ranges = if all.len() > max_points {
            let k = all.len() - max_points;
            drop_front(all, k)
        } else {
            all
        };
        let ghost kept = ranges@;
        assert(kept == kept_runs(v, max_points));
        assert(forall|i: int| 0 <= i < kept.len() ==> 0 <= (#[trigger] kept[i]).0 < kept[i].1 <= len) by {
            assert forall|i: int| 0 <= i < kept.len() implies 0 <= (#[trigger] kept[i]).0 < kept[i].1 <= len by {
                if rs.len() > max_points {
                    assert(kept[i] == rs[i + (rs.len() - max_points)]);
                }
            }
        }
        assert(forall|i: int| 0 <= i < kept.len() - 1 ==> (#[trigger] kept[i]).1 == kept[i + 1].0) by {
            assert forall|i: int| 0 <= i < kept.len() - 1 implies (#[trigger] kept[i]).1 == kept[i + 1].0 by {
                if rs.len() > max_points {
                    assert(kept[i] == rs[i + (rs.len() - max_points)]);
                    assert(kept[i + 1] == rs[i + 1 + (rs.len() - max_points)]);
                }
            }
        }
        let ghost lens = run_lens(kept);
        let count = ranges.len();
        let mut total: usize = 0;
        let mut i: usize = 0;
        while i < count
            invariant
                count == kept.len(),
                kept == ranges@,
                lens == run_lens(kept),
                count >= 1,
                forall|j: int| 0 <= j < kept.len() ==> 0 <= (#[trigger] kept[j]).0 < kept[j].1 <= len,
                forall|j: int| 0 <= j < kept.len() - 1 ==> (#[trigger] kept[j]).1 == kept[j + 1].0,
                i <= count,
                total == sum(lens.take(i as int)),
                i > 0 ==> total == kept[i - 1].1 - kept[0].0,
                i == 0 ==> total == 0,
            decreases count - i,
        {
            let (lo, hi) = ranges[i];
            assert(lens.take(i + 1).drop_last() =~= lens.take(i as int));
            assert(lens.take(i + 1).last() == hi - lo);
            if i > 0 {
                assert(kept[i - 1].1 == kept[i as int].0);
            }
            total = total + (hi - lo);
            i = i + 1;
        }
        assert(lens.take(count as int) =~= lens);
        let ghost bs = budgets(lens, max_points as int, total as int);
        proof {
            lemma_budgets_len(lens, max_points as int, total as int);
        }
        let mut remaining_budget = max_points;
        let mut remaining_samples = total;
        let mut i: usize = 0;
        while i < count
            invariant
                self.spec_wf(),
                v == self@,
                len == v.rows.len(),
                count == kept.len(),
                kept == ranges@,
                lens == run_lens(kept),
                bs.len() == count,
                forall|j: int| 0 <= j < kept.len() ==> 0 <= (#[trigger] kept[j]).0 < kept[j].1 <= len,
                i <= count,
                budgets(lens.skip(i as int), remaining_budget as int, remaining_samples as int) == bs.skip(i as int),
                segment_views(segments@) == Seq::new(i as nat, |j: int| segment_of(v, range_selection(v, kept[j].0 as int, kept[j].1 as int, bs[j]))),
            decreases count - i,
        {
            let (lo, hi) = ranges[i];
            let rlen = hi - lo;
            let reserved = count - i - 1;
            let prod = if remaining_budget != 0 && rlen > usize::MAX / remaining_budget {
                assert(rlen * remaining_budget > usize::MAX) by (nonlinear_arith)
                    requires
                        remaining_budget != 0,
                        rlen > usize::MAX / remaining_budget,
                {
                    assert(rlen >= usize::MAX / remaining_budget + 1);
                    assert(rlen * remaining_budget >= (usize::MAX / remaining_budget + 1) * remaining_budget);
                }
                usize::MAX
            } else {
                assert(rlen * remaining_budget <= usize::MAX) by (nonlinear_arith)
                    requires
                        remaining_budget == 0 || rlen <= usize::MAX / remaining_budget,
                ;
                rlen * remaining_budget
            };
            assert(prod == sat_mul(rlen as int, remaining_budget as int));
            let denom = if remaining_samples > 1 {
                remaining_samples
            } else {
                1
            };
            assert(prod % denom != 0 ==> prod / denom < usize::MAX) by (nonlinear_arith)
                requires
                    denom >= 1,
                    denom == 1 ==> prod % denom == 0,
            ;
            let proportional = prod / denom + if prod % denom != 0 {
                1
            } else {
                0
            };
            let cap0 = remaining_budget.saturating_sub(reserved);
            let cap = if cap0 > 1 {
                cap0
            } else {
                1
            };
            let budget = if proportional < 1 {
                1
            } else if proportional < cap {
                proportional
            } else {
                cap
            };
            proof {
                let l = lens.skip(i as int);
                assert(l.len() == count - i);
                assert(l[0] == rlen);
                assert(l.drop_first() =~= lens.skip(i + 1));
                assert(bs.skip(i as int) =~= seq![bs[i as int]] + bs.skip(i + 1));
                let bb = budgets(l, remaining_budget as int, remaining_samples as int);
                assert(bb =~= seq![budget as int] + budgets(lens.skip(i + 1), sat_sub(remaining_budget as int, budget as int), sat_sub(remaining_samples as int, rlen as int)));
                assert(bb[0] == bs.skip(i as int)[0]);
                assert(bs[i as int] == budget);
                assert(bb.drop_first() =~= bs.skip(i + 1));
            }
            remaining_budget = remaining_budget.saturating_sub(budget);
            remaining_samples = remaining_samples.saturating_sub(rlen);
            let positions = self.select_range(lo, hi, budget);
            let seg = self.segment_at(&positions);
            let ghost prev = segments@;
            let ghost sv = seg@;
            segments.push(seg);
            assert(segments@ =~= prev.push(segments@.last()));
            assert(segment_views(segments@) =~= segment_views(prev).push(sv));
            assert(segment_views(segments@) =~= Seq::new((i + 1) as nat, |j: int| segment_of(v, range_selection(v, kept[j].0 as int, kept[j].1 as int, bs[j]))));
            i = i + 1;
        }
        assert(segment_views(segments@) =~= spec_snapshot(v, max_points));
        LiveSnapshot { channel_ids: self.channel_ids.clone(), tick_hz: self.tick_hz, segments }
    }
}


// ---------------------------------------------------------------------------
// The snapshot budget
// ---------------------------------------------------------------------------

/// Every offset `a` marks, `b` marks too, and both have the same length.
pub open spec fn keeps(a: Seq<bool>, b: Seq<bool>) -> bool {
    &&& a.len() == b.len()
    &&& forall|p: int| 0 <= p < a.len() && #[trigger] a[p] ==> b[p]
}

proof fn lemma_marked_nonempty(m: Seq<bool>, p: int)
    requires
        0 <= p < m.len(),
        m[p],
    ensures
        marked(m).len() >= 1,
    decreases m.len(),
{
    if p < m.len() - 1 {
        assert(m.drop_last()[p] == m[p]);
        lemma_marked_nonempty(m.drop_last(), p);
    }
}

proof fn lemma_extremes_keep(v: LiveBufferView, lo: int, bs: int, be: int, m: Seq<bool>, c: int)
    requires
        lo <= bs < be <= lo + m.len(),
    ensures
        keeps(m, extremes_marked(v, lo, bs, be, m, c)),
    decreases c,
{
    if c > 0 {
        lemma_extremes_keep(v, lo, bs, be, m, c - 1);
        lemma_arg_bounds(column(v, c - 1), bs, be);
    }
}

proof fn lemma_bins_keep(v: LiveBufferView, lo: int, hi: int, size: int, bs: int, m: Seq<bool>)
    requires
        lo <= bs,
        hi - lo == m.len(),
    ensures
        keeps(m, bins_from(v, lo, hi, size, bs, m)),
        size > 0 && bs < hi ==> bins_from(v, lo, hi, size, bs, m)[bs - lo],
    decreases hi - bs,
{
    if size > 0 && bs < hi {
        let be = if bs + size < hi {
            bs + size
        } else {
            hi
        };
        let m1 = mark(mark(m, bs - lo), be - 1 - lo);
        let m2 = extremes_marked(v, lo, bs, be, m1, v.channel_ids.len() as int);
        lemma_extremes_keep(v, lo, bs, be, m1, v.channel_ids.len() as int);
        lemma_bins_keep(v, lo, hi, size, be, m2);
        let r = bins_from(v, lo, hi, size, bs, m);
        assert(r == bins_from(v, lo, hi, size, be, m2));
        assert(keeps(m, m1));
        assert(m1[bs - lo]);
        assert forall|p: int| 0 <= p < m.len() && #[trigger] m[p] implies r[p] by {
            assert(m1[p]);
            assert(m2[p]);
        }
        assert(m2[bs - lo]);
    }
}

proof fn lemma_kept_extremes_keep(v: LiveBufferView, lo: int, hi: int, max_points: int, m: Seq<bool>, c: int)
    requires
        lo < hi,
        hi - lo == m.len(),
    ensures
        keeps(m, kept_extremes(v, lo, hi, max_points, m, c)),
    decreases c,
{
    if c > 0 {
        lemma_kept_extremes_keep(v, lo, hi, max_points, m, c - 1);
        lemma_arg_bounds(column(v, c - 1), lo, hi);
    }
}

proof fn lemma_spread_keep(m: Seq<bool>, sel: Seq<int>, lo: int, remaining: int, o: int)
    requires
        sel.len() >= 1,
        remaining >= 0,
        o <= remaining,
        forall|i: int| 0 <= i < sel.len() ==> lo <= #[trigger] sel[i] < lo + m.len(),
    ensures
        keeps(m, spread_marked(m, sel, lo, remaining, o)),
    decreases o,
{
    if o > 0 {
        lemma_spread_keep(m, sel, lo, remaining, o - 1);
        let l = sel.len() - 1;
        assert(0 <= o * l / (remaining + 1) <= l) by (nonlinear_arith)
            requires
                1 <= o <= remaining,
                l >= 0,
        {
            assert(o * l <= (remaining + 1) * l);
        }
    }
}

/// A run's selection holds at least one row and at most its budget.
proof fn lemma_range_selection_size(v: LiveBufferView, lo: int, hi: int, max_points: int)
    requires
        0 <= lo < hi,
        max_points >= 1,
    ensures
        1 <= range_selection(v, lo, hi, max_points).len() <= max_points,
{
    let n = hi - lo;
    if n > max_points {
        let size = bin_size(n, max_points);
        let bins = if max_points / 2 > 1 {
            max_points / 2
        } else {
            1
        };
        assert(size >= 1) by (nonlinear_arith)
            requires
                bins >= 1,
                n >= 1,
                size == n / bins + if n % bins != 0 { 1int } else { 0int },
        ;
        let m0 = Seq::new(n as nat, |o: int| false);
        let bm = bins_from(v, lo, hi, size, lo, m0);
        lemma_bins_keep(v, lo, hi, size, lo, m0);
        lemma_marked_nonempty(bm, 0);
        lemma_marked_bounds(bm);
        let sel = marked(bm).map_values(|o: int| o + lo);
        if sel.len() > max_points && max_points != 1 {
            let k0 = mark(mark(Seq::new(n as nat, |o: int| false), 0), n - 1);
            let k1 = kept_extremes(v, lo, hi, max_points, k0, v.channel_ids.len() as int);
            lemma_kept_extremes_keep(v, lo, hi, max_points, k0, v.channel_ids.len() as int);
            assert(k0[0]);
            if marked(k1).len() < max_points {
                let r = max_points - marked(k1).len();
                assert forall|i: int| 0 <= i < sel.len() implies lo <= #[trigger] sel[i] < lo + k1.len() by {
                    assert(sel[i] == marked(bm)[i] + lo);
                }
                lemma_spread_keep(k1, sel, lo, r, r);
                let k2 = spread_marked(k1, sel, lo, r, r);
                lemma_marked_nonempty(k2, 0);
            } else {
                lemma_marked_nonempty(k1, 0);
            }
        }
    }
}

proof fn lemma_sum_prepend(x: int, s: Seq<int>)
    ensures
        sum(seq![x] + s) == x + sum(s),
    decreases s.len(),
{
    if s.len() > 0 {
        assert((seq![x] + s).drop_last() =~= seq![x] + s.drop_last());
        assert((seq![x] + s).last() == s.last());
        lemma_sum_prepend(x, s.drop_last());
        assert(sum(seq![x] + s) == sum(seq![x] + s.drop_last()) + s.last());
        assert(sum(s) == sum(s.drop_last()) + s.last());
    } else {
        assert(seq![x] + s =~= seq![x]);
        assert(seq![x].drop_last() =~= Seq::<int>::empty());
        assert(sum(Seq::<int>::empty()) == 0);
        assert(sum(seq![x]) == sum(seq![x].drop_last()) + x);
    }
}

proof fn lemma_sum_le(a: Seq<int>, b: Seq<int>)
    requires
        a.len() == b.len(),
        forall|i: int| 0 <= i < a.len() ==> #[trigger] a[i] <= b[i],
    ensures
        sum(a) <= sum(b),
    decreases a.len(),
{
    if a.len() > 0 {
        lemma_sum_le(a.drop_last(), b.drop_last());
    }
}

/// Shared out among at most `budget` runs, every run gets at least one
/// point and all of them together at most `budget`.
proof fn lemma_budgets_bounds(lens: Seq<int>, budget: int, samples: int)
    requires
        lens.len() <= budget,
    ensures
        budgets(lens, budget, samples).len() == lens.len(),
        forall|i: int| 0 <= i < lens.len() ==> 1 <= #[trigger] budgets(lens, budget, samples)[i],
        sum(budgets(lens, budget, samples)) <= budget,
    decreases lens.len(),
{
    let bs = budgets(lens, budget, samples);
    if lens.len() > 0 {
        let b = bs[0];
        let rest = budgets(lens.drop_first(), sat_sub(budget, b), sat_sub(samples, lens[0]));
        assert(b <= budget - (lens.len() - 1));
        lemma_budgets_bounds(lens.drop_first(), sat_sub(budget, b), sat_sub(samples, lens[0]));
        assert(bs =~= seq![b] + rest);
        lemma_sum_prepend(b, rest);
        assert forall|i: int| 0 <= i < lens.len() implies 1 <= #[trigger] bs[i] by {
            if i > 0 {
                assert(bs[i] == rest[i - 1]);
            }
        }
    }
}

/// The number of rows of each segment.
pub open spec fn segment_sizes(s: Seq<SnapshotSegmentV>) -> Seq<int> {
    s.map_values(|x: SnapshotSegmentV| x.timestamps_ticks.len() as int)
}

/// A snapshot spends its point budget across the runs it shows: every
/// segment holds at least one row, and all segments together hold at most
/// `max_points` rows.
pub proof fn lemma_snapshot_within_budget(v: LiveBufferView, max_points: usize)
    requires
        buffer_wf(v),
    ensures
        forall|i: int| 0 <= i < spec_snapshot(v, max_points).len() ==> #[trigger] segment_sizes(spec_snapshot(v, max_points))[i] >= 1,
        sum(segment_sizes(spec_snapshot(v, max_points))) <= max_points,
{
    let s = spec_snapshot(v, max_points);
    let sizes = segment_sizes(s);
    if v.rows.len() == 0 || max_points == 0 {
        assert(sizes.len() == 0);
    } else {
        let len = v.rows.len();
        let rs = runs(v.rows, 0, len as int);
        lemma_runs_shape(v.rows, 0, len as int);
        let kept = kept_runs(v, max_points);
        let lens = run_lens(kept);
        let bs = budgets(lens, max_points as int, sum(lens));
        lemma_budgets_bounds(lens, max_points as int, sum(lens));
        assert forall|i: int| 0 <= i < kept.len() implies 0 <= (#[trigger] kept[i]).0 < kept[i].1 by {
            if rs.len() > max_points {
                assert(kept[i] == rs[i + (rs.len() - max_points)]);
            }
        }
        assert forall|i: int| 0 <= i < sizes.len() implies 1 <= #[trigger] sizes[i] <= bs[i] by {
            lemma_range_selection_size(v, kept[i].0 as int, kept[i].1 as int, bs[i]);
        }
        lemma_sum_le(sizes, bs);
    }
}


/// The positions of a sequence of row ranges, one after another.
pub open spec fn flat_ranges(rs: Seq<(usize, usize)>) -> Seq<int>
    decreases rs.len(),
{
    if rs.len() == 0 {
        Seq::empty()
    } else {
        flat_ranges(rs.drop_last()) + full_range(rs.last().0 as int, rs.last().1 as int)
    }
}

proof fn lemma_runs_flat(rows: Seq<BufferedRowV>, start: int, k: int)
    requires
        0 <= start < k <= usize::MAX,
    ensures
        flat_ranges(runs(rows, start, k)) == full_range(start, k),
    decreases k - start,
{
    let rs = runs(rows, start, k);
    if k <= start + 1 {
        assert(rs.drop_last() =~= Seq::<(usize, usize)>::empty());
        assert(flat_ranges(rs.drop_last()) =~= Seq::<int>::empty());
        assert(flat_ranges(rs) =~= full_range(start, k));
    } else {
        lemma_runs_flat(rows, start, k - 1);
        lemma_runs_shape(rows, start, k - 1);
        let r = runs(rows, start, k - 1);
        assert(full_range(start, k) =~= full_range(start, k - 1).push(k - 1));
        if is_break(rows, k - 1) {
            assert(rs.drop_last() =~= r);
            assert(full_range(k - 1, k) =~= seq![k - 1]);
        } else {
            let last = r.last();
            assert(rs.drop_last() =~= r.drop_last());
            assert(flat_ranges(r) == flat_ranges(r.drop_last()) + full_range(last.0 as int, k - 1));
            assert(full_range(last.0 as int, k) =~= full_range(last.0 as int, k - 1).push(k - 1));
        }
        assert(flat_ranges(rs) =~= full_range(start, k));
    }
}

proof fn lemma_runs_breaks(rows: Seq<BufferedRowV>, start: int, k: int)
    requires
        0 <= start < k <= usize::MAX,
    ensures
        forall|i: int| 0 < i < runs(rows, start, k).len() ==> is_break(rows, (#[trigger] runs(rows, start, k)[i]).0 as int),
        forall|i: int, j: int|
            #![trigger runs(rows, start, k)[i], is_break(rows, j)]
            0 <= i < runs(rows, start, k).len() && runs(rows, start, k)[i].0 < j < runs(rows, start, k)[i].1 ==> !is_break(rows, j),
    decreases k - start,
{
    if k > start + 1 {
        lemma_runs_breaks(rows, start, k - 1);
        lemma_runs_shape(rows, start, k - 1);
        let rs = runs(rows, start, k);
        let r = runs(rows, start, k - 1);
        assert forall|i: int, j: int|
            #![trigger rs[i], is_break(rows, j)]
            0 <= i < rs.len() && rs[i].0 < j < rs[i].1 implies !is_break(rows, j) by {
            if i < r.len() {
                assert(rs[i].0 == r[i].0);
                if i < r.len() - 1 || is_break(rows, k - 1) {
                    assert(rs[i] == r[i]);
                } else if j < k - 1 {
                    assert(r[i].1 == k - 1);
                }
            }
        }
        assert forall|i: int| 0 < i < rs.len() implies is_break(rows, (#[trigger] rs[i]).0 as int) by {
            if i < r.len() {
                assert(rs[i].0 == r[i].0);
            }
        }
    }
}

/// The runs of rows `start..k` cover exactly those rows in order; each run
/// after the first starts where the sample index does not follow on, and
/// inside a run it always does.
pub proof fn lemma_runs_partition(rows: Seq<BufferedRowV>, start: int, k: int)
    requires
        0 <= start < k <= usize::MAX,
    ensures
        flat_ranges(runs(rows, start, k)) == full_range(start, k),
        forall|i: int| 0 < i < runs(rows, start, k).len() ==> is_break(rows, (#[trigger] runs(rows, start, k)[i]).0 as int),
        forall|i: int, j: int|
            #![trigger runs(rows, start, k)[i], is_break(rows, j)]
            0 <= i < runs(rows, start, k).len() && runs(rows, start, k)[i].0 < j < runs(rows, start, k)[i].1 ==> !is_break(rows, j),
{
    lemma_runs_flat(rows, start, k);
    lemma_runs_breaks(rows, start, k);
}

/// The recent snapshot shows exactly the newest `max_samples` rows (all of
/// them when there are fewer), at full resolution and in order, split into
/// segments exactly where the sample index does not follow on.
pub proof fn lemma_recent_snapshot_exact_tail(v: LiveBufferView, max_samples: usize)
    requires
        buffer_wf(v),
        v.rows.len() > 0,
        max_samples > 0,
    ensures
        ({
            let rs = runs(v.rows, recent_start(v, max_samples), v.rows.len() as int);
            &&& spec_snapshot_recent(v, max_samples) == Seq::new(rs.len(), |i: int| segment_of(v, full_range(rs[i].0 as int, rs[i].1 as int)))
            &&& flat_ranges(rs) == full_range(recent_start(v, max_samples), v.rows.len() as int)
            &&& forall|i: int| 0 < i < rs.len() ==> is_break(v.rows, (#[trigger] rs[i]).0 as int)
            &&& forall|i: int, j: int| #![trigger rs[i], is_break(v.rows, j)] 0 <= i < rs.len() && rs[i].0 < j < rs[i].1 ==> !is_break(v.rows, j)
        }),
{
    lemma_runs_partition(v.rows, recent_start(v, max_samples), v.rows.len() as int);
}

} // verus!
