//! Frozen SCP1 V2 sampling-row metadata and watermark-driven consistency
//! checks.
//!
//! A validator follows every stream's row, logical-cycle, source and applied
//! sequences and counts each departure from them. For streams that take part
//! in a causal relation it also matches inputs, results and applications
//! within each consistency group, whatever order they arrive in, and counts a
//! match as timed out once the input stream's watermark passes its deadline.
//! The cached rows and the pending matches have hard limits that are reported
//! as errors, never overwritten silently.

use vstd::prelude::*;

use crate::keyed::{KeyedVec, SameKey};
use crate::protocol_v2::{CausalRelation, SampleDomain, SignalRole, StreamDescriptor};
use crate::protocol_v2_r2::{lookup_group, lookup_stream_r2, StreamDescriptorR2, StreamTableR2, StreamTableR2V};
use crate::wire::{le32, le64, put_u32, put_u64};

verus! {

pub const SNAPSHOT_VALID: u32 = 1;

pub const SOURCE_SEQUENCE_VALID: u32 = 2;

pub const APPLIED_SEQUENCE_VALID: u32 = 4;

pub const CLA_RESULT_VALID: u32 = 8;

pub const ADC_SAMPLE_VALID: u32 = 16;

pub const FROZEN_ROW: u32 = 32;

pub const SNAPSHOT_KNOWN_FLAGS: u32 = 63;

pub const MAX_CAUSAL_CACHE_ROWS: usize = 4096;

pub const MAX_CAUSAL_PENDING_MATCHES: usize = 4096;

/// Per-row metadata of one sampled row.
#[derive(Clone, Copy, Debug, Default, PartialEq, Eq, Structural)]
pub struct SnapshotMeta {
    pub row_sequence: u64,
    pub logical_cycle_sequence: u64,
    pub source_sequence: u64,
    pub applied_sequence: u64,
    pub valid_flags: u32,
}

pub const SNAPSHOT_META_ENCODED_LEN: usize = 36;

/// The 36-byte explicit layout of one metadata row.
pub open spec fn enc_meta(m: SnapshotMeta) -> Seq<u8> {
    le64(m.row_sequence) + le64(m.logical_cycle_sequence) + le64(m.source_sequence) + le64(
        m.applied_sequence,
    ) + le32(m.valid_flags)
}

impl SnapshotMeta {
    pub const ENCODED_LEN: usize = 36;

    pub open spec fn spec_is_frozen(self) -> bool {
        self.valid_flags & (SNAPSHOT_VALID | FROZEN_ROW) == (SNAPSHOT_VALID | FROZEN_ROW)
    }

    /// Both the snapshot-valid and frozen-row flags are set.
    pub fn is_frozen(self) -> (r: bool)
        ensures
            r == self.spec_is_frozen(),
    {
        self.valid_flags & (SNAPSHOT_VALID | FROZEN_ROW) == (SNAPSHOT_VALID | FROZEN_ROW)
    }
}

/// Appends the explicit layout of `m`.
pub fn put_snapshot_meta(bytes: &mut Vec<u8>, m: SnapshotMeta)
    ensures
        final(bytes)@ == old(bytes)@ + enc_meta(m),
{
    let ghost start = bytes@;
    put_u64(bytes, m.row_sequence);
    put_u64(bytes, m.logical_cycle_sequence);
    put_u64(bytes, m.source_sequence);
    put_u64(bytes, m.applied_sequence);
    put_u32(bytes, m.valid_flags);
    assert(bytes@ =~= start + enc_meta(m));
}

/// Counters of everything a validator found wrong, and two gauges of its
/// causal state.
#[derive(Clone, Copy, Debug, Default, PartialEq, Eq, Structural)]
pub struct SnapshotDiagnostics {
    pub row_sequence_gaps: u64,
    pub row_sequence_reorders: u64,
    pub logical_cycle_faults: u64,
    pub source_sequence_faults: u64,
    pub applied_sequence_faults: u64,
    pub invalid_snapshot_rows: u64,
    pub missing_causal_source: u64,
    pub causal_source_mismatch: u64,
    pub causal_application_mismatch: u64,
    pub causal_sequence_reorder: u64,
    pub causal_group_mismatch: u64,
    pub causal_cached_rows: usize,
    pub causal_pending_matches: usize,
    pub causal_match_timeouts: u64,
    pub causal_cache_evictions: u64,
    pub causal_window_overflows: u64,
    pub causal_duplicate_cycles: u64,
}

pub open spec fn zero_snapshot_diagnostics() -> SnapshotDiagnostics {
    SnapshotDiagnostics {
        row_sequence_gaps: 0,
        row_sequence_reorders: 0,
        logical_cycle_faults: 0,
        source_sequence_faults: 0,
        applied_sequence_faults: 0,
        invalid_snapshot_rows: 0,
        missing_causal_source: 0,
        causal_source_mismatch: 0,
        causal_application_mismatch: 0,
        causal_sequence_reorder: 0,
        causal_group_mismatch: 0,
        causal_cached_rows: 0,
        causal_pending_matches: 0,
        causal_match_timeouts: 0,
        causal_cache_evictions: 0,
        causal_window_overflows: 0,
        causal_duplicate_cycles: 0,
    }
}

/// Why an observation was refused.
#[derive(Clone, Copy, Debug, PartialEq, Eq, Structural)]
pub enum SnapshotError {
    CachedRowLimit,
    PendingMatchLimit,
    ResultDeadlineOverflow,
    ApplicationDeadlineOverflow,
    UnknownCausalGroup,
}

/// The words `message` gives for each refusal.
pub open spec fn snapshot_error_text(e: SnapshotError) -> Seq<char> {
    match e {
        SnapshotError::CachedRowLimit => "CausalWindowOverflow: cached row hard limit reached"@,
        SnapshotError::PendingMatchLimit => "CausalWindowOverflow: pending relation hard limit reached"@,
        SnapshotError::ResultDeadlineOverflow => "CausalOffsetOverflow: result deadline overflow"@,
        SnapshotError::ApplicationDeadlineOverflow => "CausalOffsetOverflow: application deadline overflow"@,
        SnapshotError::UnknownCausalGroup => "CausalGroupMismatch: stream references an unknown causal group"@,
    }
}

impl SnapshotError {
    /// The refusal in words, led by its kind.
    pub fn message(&self) -> (r: String)
        ensures
            r@ == snapshot_error_text(*self),
    {
        match self {
            SnapshotError::CachedRowLimit => "CausalWindowOverflow: cached row hard limit reached".to_string(),
            SnapshotError::PendingMatchLimit => "CausalWindowOverflow: pending relation hard limit reached".to_string(),
            SnapshotError::ResultDeadlineOverflow => "CausalOffsetOverflow: result deadline overflow".to_string(),
            SnapshotError::ApplicationDeadlineOverflow => "CausalOffsetOverflow: application deadline overflow".to_string(),
            SnapshotError::UnknownCausalGroup => "CausalGroupMismatch: stream references an unknown causal group".to_string(),
        }
    }
}

/// The five fields that identify a causal relation.
#[derive(Clone, Copy, Debug, PartialEq, Eq, Structural)]
pub struct RelationKey {
    pub input_stream_id: u16,
    pub result_stream_id: u16,
    pub application_stream_id: u16,
    pub result_input_offset: i16,
    pub application_result_offset: i16,
}

/// A relation and the logical cycle a pending match waits for.
#[derive(Clone, Copy, Debug, PartialEq, Eq, Structural)]
pub struct PendingKey {
    pub relation: RelationKey,
    pub cycle: u64,
}

/// When a pending match times out: the stream whose watermark decides, the
/// deadline cycle, and the match.
#[derive(Clone, Copy, Debug, PartialEq, Eq, Structural)]
pub struct DeadlineKey {
    pub stream_id: u16,
    pub deadline: u64,
    pub relation: RelationKey,
    pub cycle: u64,
}

/// A cached row: its stream and logical cycle.
#[derive(Clone, Copy, Debug, PartialEq, Eq, Structural)]
pub struct RowKey {
    pub stream_id: u16,
    pub cycle: u64,
}

impl SameKey for RelationKey {
    fn same(&self, other: &Self) -> (r: bool) {
        *self == *other
    }
}

impl SameKey for PendingKey {
    fn same(&self, other: &Self) -> (r: bool) {
        *self == *other
    }
}

impl SameKey for DeadlineKey {
    fn same(&self, other: &Self) -> (r: bool) {
        *self == *other
    }
}

impl SameKey for RowKey {
    fn same(&self, other: &Self) -> (r: bool) {
        *self == *other
    }
}

/// A result row waiting for its input.
#[derive(Clone, Copy, Debug, PartialEq, Eq, Structural)]
pub struct PendingResult {
    pub result: SnapshotMeta,
    pub deadline_cycle: u64,
}

/// An application row waiting for its result.
#[derive(Clone, Copy, Debug, PartialEq, Eq, Structural)]
pub struct PendingApplication {
    pub application: SnapshotMeta,
    pub deadline_cycle: u64,
}

/// What a validator remembers of one stream.
#[derive(Clone, Copy, Debug, Default, PartialEq, Eq, Structural)]
pub struct StreamSequenceState {
    pub last_row_sequence: Option<u64>,
    pub last_logical_cycle: Option<u64>,
    pub latest_logical_cycle: Option<u64>,
    pub committed_watermark: Option<u64>,
    pub last_source_sequence: Option<u64>,
    pub last_applied_sequence: Option<u64>,
}

pub open spec fn fresh_stream_state() -> StreamSequenceState {
    StreamSequenceState {
        last_row_sequence: None,
        last_logical_cycle: None,
        latest_logical_cycle: None,
        committed_watermark: None,
        last_source_sequence: None,
        last_applied_sequence: None,
    }
}

/// Checks the metadata rows of the streams it is shown.
#[derive(Clone, Debug)]
pub struct SnapshotValidator {
    streams: KeyedVec<u16, StreamSequenceState>,
    causal_rows: KeyedVec<RowKey, SnapshotMeta>,
    pending_results: KeyedVec<PendingKey, PendingResult>,
    pending_applications: KeyedVec<PendingKey, PendingApplication>,
    result_deadlines: KeyedVec<DeadlineKey, ()>,
    application_deadlines: KeyedVec<DeadlineKey, ()>,
    causal_last_result: KeyedVec<RelationKey, u64>,
    causal_last_application: KeyedVec<RelationKey, u64>,
    causal_capacity: usize,
    pending_capacity: usize,
    diagnostics: SnapshotDiagnostics,
}

/// Mathematical state of a validator.
pub struct ValidatorView {
    pub streams: Map<u16, StreamSequenceState>,
    pub causal_rows: Map<RowKey, SnapshotMeta>,
    pub pending_results: Map<PendingKey, PendingResult>,
    pub pending_applications: Map<PendingKey, PendingApplication>,
    pub result_deadlines: Set<DeadlineKey>,
    pub application_deadlines: Set<DeadlineKey>,
    pub causal_last_result: Map<RelationKey, u64>,
    pub causal_last_application: Map<RelationKey, u64>,
    pub causal_capacity: nat,
    pub pending_capacity: nat,
    pub diagnostics: SnapshotDiagnostics,
}

impl View for SnapshotValidator {
    type V = ValidatorView;

    closed spec fn view(&self) -> ValidatorView {
        ValidatorView {
            streams: self.streams@,
            causal_rows: self.causal_rows@,
            pending_results: self.pending_results@,
            pending_applications: self.pending_applications@,
            result_deadlines: self.result_deadlines@.dom(),
            application_deadlines: self.application_deadlines@.dom(),
            causal_last_result: self.causal_last_result@,
            causal_last_application: self.causal_last_application@,
            causal_capacity: self.causal_capacity as nat,
            pending_capacity: self.pending_capacity as nat,
            diagnostics: self.diagnostics,
        }
    }
}

/// Number of pending matches.
pub open spec fn pending_count(h: ValidatorView) -> nat {
    h.pending_results.len() + h.pending_applications.len()
}

/// The state's limits hold: at most `causal_capacity` cached rows, at most
/// `pending_capacity` pending matches, and the pending limit within the
/// protocol's.
pub open spec fn validator_limits(h: ValidatorView) -> bool {
    &&& 1 <= h.causal_capacity
    &&& h.pending_capacity <= h.causal_capacity
    &&& h.pending_capacity <= MAX_CAUSAL_PENDING_MATCHES
    &&& h.causal_rows.len() <= h.causal_capacity
    &&& pending_count(h) <= h.pending_capacity
    &&& h.causal_rows.dom().finite()
    &&& h.pending_results.dom().finite()
    &&& h.pending_applications.dom().finite()
    &&& h.result_deadlines.finite()
    &&& h.application_deadlines.finite()
}

impl SnapshotValidator {
    pub closed spec fn wf(&self) -> bool {
        &&& self.streams.wf()
        &&& self.causal_rows.wf()
        &&& self.pending_results.wf()
        &&& self.pending_applications.wf()
        &&& self.result_deadlines.wf()
        &&& self.application_deadlines.wf()
        &&& self.causal_last_result.wf()
        &&& self.causal_last_application.wf()
        &&& validator_limits(self@)
    }
}

/// One more, saturating.
pub open spec fn sat1(x: u64) -> u64 {
    if x == u64::MAX {
        x
    } else {
        (x + 1) as u64
    }
}

/// `n` more, saturating.
pub open spec fn sat_n(x: u64, n: int) -> u64 {
    if x + n >= u64::MAX {
        u64::MAX
    } else {
        (x + n) as u64
    }
}

pub open spec fn bump_if(x: u64, b: bool) -> u64 {
    if b {
        sat1(x)
    } else {
        x
    }
}

/// Flags a row of this domain must carry.
pub open spec fn spec_required_flags(domain: SampleDomain, source_required: bool, applied_required: bool) -> u32 {
    let base = SNAPSHOT_VALID | FROZEN_ROW;
    let by_domain = match domain {
        SampleDomain::Fast32k => base | SOURCE_SEQUENCE_VALID | ADC_SAMPLE_VALID | CLA_RESULT_VALID,
        SampleDomain::Control8k => base | SOURCE_SEQUENCE_VALID,
        SampleDomain::Slow1k => base,
    };
    let with_source = if source_required {
        by_domain | SOURCE_SEQUENCE_VALID
    } else {
        by_domain
    };
    if applied_required {
        with_source | APPLIED_SEQUENCE_VALID
    } else {
        with_source
    }
}

fn required_flags(domain: SampleDomain, source_required: bool, applied_required: bool) -> (r: u32)
    ensures
        r == spec_required_flags(domain, source_required, applied_required),
{
    let mut flags = SNAPSHOT_VALID | FROZEN_ROW;
    match domain {
        SampleDomain::Fast32k => {
            flags = flags | SOURCE_SEQUENCE_VALID | ADC_SAMPLE_VALID | CLA_RESULT_VALID;
        },
        SampleDomain::Control8k => {
            flags = flags | SOURCE_SEQUENCE_VALID;
        },
        SampleDomain::Slow1k => {},
    }
    if source_required {
        flags = flags | SOURCE_SEQUENCE_VALID;
    }
    if applied_required {
        flags = flags | APPLIED_SEQUENCE_VALID;
    }
    flags
}

/// A row is refused as a snapshot when it is not frozen, carries an unknown
/// flag, or lacks a required one.
pub open spec fn invalid_row(meta: SnapshotMeta, required: u32) -> bool {
    ||| !meta.spec_is_frozen()
    ||| meta.valid_flags & !SNAPSHOT_KNOWN_FLAGS != 0
    ||| meta.valid_flags & required != required
}

/// The logical cycle a row `row_delta` rows after the previous one must
/// carry, when it is representable.
pub open spec fn expected_logical(st: StreamSequenceState, step: u32, row_delta: u64) -> Option<u64> {
    if step * row_delta > u64::MAX {
        None
    } else {
        match st.last_logical_cycle {
            Some(p) => if p + step * row_delta > u64::MAX {
                None
            } else {
                Some((p + step * row_delta) as u64)
            },
            None => None,
        }
    }
}

pub open spec fn row_reordered(st: StreamSequenceState, meta: SnapshotMeta) -> bool {
    st.last_row_sequence matches Some(p) && meta.row_sequence <= p
}

pub open spec fn row_gap(st: StreamSequenceState, meta: SnapshotMeta) -> bool {
    st.last_row_sequence matches Some(p) && meta.row_sequence > p && meta.row_sequence - p != 1
}

pub open spec fn logical_fault(st: StreamSequenceState, step: u32, meta: SnapshotMeta) -> bool {
    st.last_row_sequence matches Some(p) && meta.row_sequence > p && expected_logical(
        st,
        step,
        (meta.row_sequence - p) as u64,
    ) != Some(meta.logical_cycle_sequence)
}

pub open spec fn source_fault(st: StreamSequenceState, meta: SnapshotMeta, required: bool) -> bool {
    if meta.valid_flags & SOURCE_SEQUENCE_VALID != 0 {
        st.last_source_sequence matches Some(p) && meta.source_sequence < p
    } else {
        required
    }
}

pub open spec fn applied_fault(st: StreamSequenceState, meta: SnapshotMeta, required: bool) -> bool {
    if meta.valid_flags & APPLIED_SEQUENCE_VALID != 0 {
        st.last_applied_sequence matches Some(p) && meta.applied_sequence < p
    } else {
        required
    }
}

/// What a stream remembers after a row.
pub open spec fn next_stream_state(st: StreamSequenceState, meta: SnapshotMeta) -> StreamSequenceState {
    let latest = match st.latest_logical_cycle {
        Some(p) => if p > meta.logical_cycle_sequence {
            p
        } else {
            meta.logical_cycle_sequence
        },
        None => meta.logical_cycle_sequence,
    };
    StreamSequenceState {
        last_row_sequence: Some(meta.row_sequence),
        last_logical_cycle: Some(meta.logical_cycle_sequence),
        latest_logical_cycle: Some(latest),
        committed_watermark: Some(latest),
        last_source_sequence: if meta.valid_flags & SOURCE_SEQUENCE_VALID != 0 {
            Some(meta.source_sequence)
        } else {
            st.last_source_sequence
        },
        last_applied_sequence: if meta.valid_flags & APPLIED_SEQUENCE_VALID != 0 {
            Some(meta.applied_sequence)
        } else {
            st.last_applied_sequence
        },
    }
}

pub open spec fn stream_state(h: ValidatorView, stream_id: u16) -> StreamSequenceState {
    if h.streams.dom().contains(stream_id) {
        h.streams[stream_id]
    } else {
        fresh_stream_state()
    }
}

/// The sequence checks of one row of a stream: each departure is counted
/// once, and the stream remembers the row.
pub open spec fn after_sequence_checks(
    h: ValidatorView,
    stream_id: u16,
    domain: SampleDomain,
    step: u32,
    meta: SnapshotMeta,
    source_required: bool,
    applied_required: bool,
) -> ValidatorView {
    let st = stream_state(h, stream_id);
    let dg = h.diagnostics;
    let required = spec_required_flags(domain, source_required, applied_required);
    ValidatorView {
        streams: h.streams.insert(stream_id, next_stream_state(st, meta)),
        diagnostics: SnapshotDiagnostics {
            invalid_snapshot_rows: bump_if(dg.invalid_snapshot_rows, invalid_row(meta, required)),
            row_sequence_reorders: bump_if(dg.row_sequence_reorders, row_reordered(st, meta)),
            row_sequence_gaps: bump_if(dg.row_sequence_gaps, row_gap(st, meta)),
            logical_cycle_faults: bump_if(dg.logical_cycle_faults, logical_fault(st, step, meta)),
            source_sequence_faults: bump_if(
                dg.source_sequence_faults,
                source_fault(st, meta, source_required),
            ),
            applied_sequence_faults: bump_if(
                dg.applied_sequence_faults,
                applied_fault(st, meta, applied_required),
            ),
            ..dg
        },
        ..h
    }
}

/// The gauges report the cached rows and the pending matches.
pub open spec fn with_gauges(h: ValidatorView) -> ValidatorView {
    ValidatorView {
        diagnostics: SnapshotDiagnostics {
            causal_cached_rows: h.causal_rows.len() as usize,
            causal_pending_matches: pending_count(h) as usize,
            ..h.diagnostics
        },
        ..h
    }
}

/// A row observed without a stream table: the sequence checks, then a source
/// sequence ahead of the logical cycle and an applied sequence not behind it
/// each count as a fault.
pub open spec fn after_observe(h: ValidatorView, stream_id: u16, domain: SampleDomain, step: u32, meta: SnapshotMeta) -> ValidatorView {
    let h1 = after_sequence_checks(h, stream_id, domain, step, meta, false, false);
    let dg = h1.diagnostics;
    with_gauges(
        ValidatorView {
            diagnostics: SnapshotDiagnostics {
                source_sequence_faults: bump_if(
                    dg.source_sequence_faults,
                    meta.valid_flags & SOURCE_SEQUENCE_VALID != 0 && meta.source_sequence
                        > meta.logical_cycle_sequence,
                ),
                applied_sequence_faults: bump_if(
                    dg.applied_sequence_faults,
                    meta.valid_flags & APPLIED_SEQUENCE_VALID != 0 && meta.applied_sequence
                        >= meta.logical_cycle_sequence,
                ),
                ..dg
            },
            ..h1
        },
    )
}

/// The state of a new validator with this causal capacity.
pub open spec fn fresh_validator(causal_capacity: usize) -> ValidatorView {
    let capacity = if causal_capacity < 1 {
        1
    } else {
        causal_capacity as nat
    };
    ValidatorView {
        streams: Map::empty(),
        causal_rows: Map::empty(),
        pending_results: Map::empty(),
        pending_applications: Map::empty(),
        result_deadlines: Set::empty(),
        application_deadlines: Set::empty(),
        causal_last_result: Map::empty(),
        causal_last_application: Map::empty(),
        causal_capacity: capacity,
        pending_capacity: if capacity < MAX_CAUSAL_PENDING_MATCHES {
            capacity
        } else {
            MAX_CAUSAL_PENDING_MATCHES as nat
        },
        diagnostics: zero_snapshot_diagnostics(),
    }
}

fn bump(x: u64) -> (r: u64)
    ensures
        r == sat1(x),
{
    x.saturating_add(1)
}

impl SnapshotValidator {
    /// A validator that caches at most `causal_capacity` rows (at least one)
    /// and holds at most as many pending matches, within the protocol limit.
    pub fn with_causal_capacity(causal_capacity: usize) -> (r: Self)
        ensures
            r.wf(),
            r@ == fresh_validator(causal_capacity),
    {
        let capacity = if causal_capacity < 1 {
            1
        } else {
            causal_capacity
        };
        let pending_capacity = if capacity < MAX_CAUSAL_PENDING_MATCHES {
            capacity
        } else {
            MAX_CAUSAL_PENDING_MATCHES
        };
        let r = SnapshotValidator {
            streams: KeyedVec::new(),
            causal_rows: KeyedVec::new(),
            pending_results: KeyedVec::new(),
            pending_applications: KeyedVec::new(),
            result_deadlines: KeyedVec::new(),
            application_deadlines: KeyedVec::new(),
            causal_last_result: KeyedVec::new(),
            causal_last_application: KeyedVec::new(),
            causal_capacity: capacity,
            pending_capacity,
            diagnostics: SnapshotDiagnostics {
                row_sequence_gaps: 0,
                row_sequence_reorders: 0,
                logical_cycle_faults: 0,
                source_sequence_faults: 0,
                applied_sequence_faults: 0,
                invalid_snapshot_rows: 0,
                missing_causal_source: 0,
                causal_source_mismatch: 0,
                causal_application_mismatch: 0,
                causal_sequence_reorder: 0,
                causal_group_mismatch: 0,
                causal_cached_rows: 0,
                causal_pending_matches: 0,
                causal_match_timeouts: 0,
                causal_cache_evictions: 0,
                causal_window_overflows: 0,
                causal_duplicate_cycles: 0,
            },
        };
        assert(r@.result_deadlines =~= Set::<DeadlineKey>::empty());
        assert(r@.application_deadlines =~= Set::<DeadlineKey>::empty());
        r
    }

    pub fn diagnostics(&self) -> (r: &SnapshotDiagnostics)
        ensures
            *r == self@.diagnostics,
    {
        &self.diagnostics
    }

    /// Number of cached rows.
    pub fn causal_cache_len(&self) -> (r: usize)
        requires
            self.wf(),
        ensures
            r == self@.causal_rows.len(),
    {
        self.causal_rows.len()
    }

    /// Number of matches still waiting for their other row.
    pub fn pending_causal_match_count(&self) -> (r: usize)
        requires
            self.wf(),
        ensures
            r == pending_count(self@),
    {
        self.pending_results.len() + self.pending_applications.len()
    }

    /// Forgets everything but the capacity.
    pub fn reset(&mut self)
        requires
            old(self).wf(),
        ensures
            final(self).wf(),
            final(self)@ == fresh_validator(old(self)@.causal_capacity as usize),
    {
        let capacity = self.causal_capacity;
        *self = Self::with_causal_capacity(capacity);
    }

    fn update_gauges(&mut self)
        requires
            old(self).wf(),
        ensures
            final(self).wf(),
            final(self)@ == with_gauges(old(self)@),
    {
        self.diagnostics.causal_cached_rows = self.causal_rows.len();
        self.diagnostics.causal_pending_matches = self.pending_causal_match_count();
    }

    fn observe_sequences(
        &mut self,
        stream_id: u16,
        domain: SampleDomain,
        step: u32,
        meta: SnapshotMeta,
        source_required: bool,
        applied_required: bool,
    )
        requires
            old(self).wf(),
        ensures
            final(self).wf(),
            final(self)@ == after_sequence_checks(
                old(self)@,
                stream_id,
                domain,
                step,
                meta,
                source_required,
                applied_required,
            ),
    {
        let required = required_flags(domain, source_required, applied_required);
        if !meta.is_frozen() || meta.valid_flags & !SNAPSHOT_KNOWN_FLAGS != 0 || meta.valid_flags
            & required != required {
            self.diagnostics.invalid_snapshot_rows = bump(self.diagnostics.invalid_snapshot_rows);
        }
        let state = match self.streams.get(&stream_id) {
            Some(st) => st,
            None => StreamSequenceState {
                last_row_sequence: None,
                last_logical_cycle: None,
                latest_logical_cycle: None,
                committed_watermark: None,
                last_source_sequence: None,
                last_applied_sequence: None,
            },
        };
        if let Some(previous_row) = state.last_row_sequence {
            if meta.row_sequence <= previous_row {
                self.diagnostics.row_sequence_reorders = bump(self.diagnostics.row_sequence_reorders);
            } else {
                let row_delta = meta.row_sequence - previous_row;
                if row_delta != 1 {
                    self.diagnostics.row_sequence_gaps = bump(self.diagnostics.row_sequence_gaps);
                }
                let expected = match (step as u64).checked_mul(row_delta) {
                    Some(delta) => match state.last_logical_cycle {
                        Some(previous) => previous.checked_add(delta),
                        None => None,
                    },
                    None => None,
                };
                if expected != Some(meta.logical_cycle_sequence) {
                    self.diagnostics.logical_cycle_faults = bump(self.diagnostics.logical_cycle_faults);
                }
            }
        }
        if meta.valid_flags & SOURCE_SEQUENCE_VALID != 0 {
            if let Some(previous) = state.last_source_sequence {
                if meta.source_sequence < previous {
                    self.diagnostics.source_sequence_faults = bump(self.diagnostics.source_sequence_faults);
                }
            }
        } else if source_required {
            self.diagnostics.source_sequence_faults = bump(self.diagnostics.source_sequence_faults);
        }
        if meta.valid_flags & APPLIED_SEQUENCE_VALID != 0 {
            if let Some(previous) = state.last_applied_sequence {
                if meta.applied_sequence < previous {
                    self.diagnostics.applied_sequence_faults = bump(self.diagnostics.applied_sequence_faults);
                }
            }
        } else if applied_required {
            self.diagnostics.applied_sequence_faults = bump(self.diagnostics.applied_sequence_faults);
        }
        let latest = match state.latest_logical_cycle {
            Some(previous) => if previous > meta.logical_cycle_sequence {
                previous
            } else {
                meta.logical_cycle_sequence
            },
            None => meta.logical_cycle_sequence,
        };
        let next = StreamSequenceState {
            last_row_sequence: Some(meta.row_sequence),
            last_logical_cycle: Some(meta.logical_cycle_sequence),
            latest_logical_cycle: Some(latest),
            committed_watermark: Some(latest),
            last_source_sequence: if meta.valid_flags & SOURCE_SEQUENCE_VALID != 0 {
                Some(meta.source_sequence)
            } else {
                state.last_source_sequence
            },
            last_applied_sequence: if meta.valid_flags & APPLIED_SEQUENCE_VALID != 0 {
                Some(meta.applied_sequence)
            } else {
                state.last_applied_sequence
            },
        };
        self.streams.insert(stream_id, next);
    }

    fn observe_stream(&mut self, stream_id: u16, domain: SampleDomain, step: u32, meta: SnapshotMeta)
        requires
            old(self).wf(),
        ensures
            final(self).wf(),
            final(self)@ == after_observe(old(self)@, stream_id, domain, step, meta),
    {
        self.observe_sequences(stream_id, domain, step, meta, false, false);
        if meta.valid_flags & SOURCE_SEQUENCE_VALID != 0 && meta.source_sequence > meta.logical_cycle_sequence {
            self.diagnostics.source_sequence_faults = bump(self.diagnostics.source_sequence_faults);
        }
        if meta.valid_flags & APPLIED_SEQUENCE_VALID != 0 && meta.applied_sequence >= meta.logical_cycle_sequence {
            self.diagnostics.applied_sequence_faults = bump(self.diagnostics.applied_sequence_faults);
        }
        self.update_gauges();
    }

    /// Checks one row of a stream without a stream table.
    pub fn observe(&mut self, descriptor: &StreamDescriptorR2, meta: SnapshotMeta)
        requires
            old(self).wf(),
        ensures
            final(self).wf(),
            final(self)@ == after_observe(
                old(self)@,
                descriptor.stream_id,
                descriptor.domain,
                descriptor.logical_cycle_step,
                meta,
            ),
    {
        self.observe_stream(descriptor.stream_id, descriptor.domain, descriptor.logical_cycle_step, meta);
    }

    /// Checks one row of a first-revision stream, whose logical cycle
    /// advances by one per row.
    pub fn observe_r1(&mut self, descriptor: &StreamDescriptor, meta: SnapshotMeta)
        requires
            old(self).wf(),
        ensures
            final(self).wf(),
            final(self)@ == after_observe(old(self)@, descriptor.stream_id, descriptor.domain, 1, meta),
    {
        self.observe_stream(descriptor.stream_id, descriptor.domain, 1, meta);
    }
}

impl Default for SnapshotValidator {
    fn default() -> (r: Self)
        ensures
            r.wf(),
            r@ == fresh_validator(MAX_CAUSAL_CACHE_ROWS),
    {
        Self::with_causal_capacity(MAX_CAUSAL_CACHE_ROWS)
    }
}

pub open spec fn relation_key_of(r: CausalRelation) -> RelationKey {
    RelationKey {
        input_stream_id: r.input_stream_id,
        result_stream_id: r.result_stream_id,
        application_stream_id: r.application_stream_id,
        result_input_offset: r.result_input_offset,
        application_result_offset: r.application_result_offset,
    }
}

/// `sequence + offset`, when it is representable.
pub open spec fn spec_add_offset(sequence: u64, offset: i16) -> Option<u64> {
    if sequence + offset < 0 || sequence + offset > u64::MAX {
        None
    } else {
        Some((sequence + offset) as u64)
    }
}

/// `sequence - offset`, when it is representable.
pub open spec fn spec_subtract_offset(sequence: u64, offset: i16) -> Option<u64> {
    if sequence - offset < 0 || sequence - offset > u64::MAX {
        None
    } else {
        Some((sequence - offset) as u64)
    }
}

/// Adds a signed offset to a sequence number; None when the result leaves
/// the range of `u64`.
pub fn add_offset(sequence: u64, offset: i16) -> (r: Option<u64>)
    ensures
        r == spec_add_offset(sequence, offset),
{
    if offset >= 0 {
        sequence.checked_add(offset as u64)
    } else {
        let magnitude = (0 - (offset as i32)) as u64;
        sequence.checked_sub(magnitude)
    }
}

/// Subtracts a signed offset from a sequence number; None when the result
/// leaves the range of `u64`.
pub fn subtract_offset(sequence: u64, offset: i16) -> (r: Option<u64>)
    ensures
        r == spec_subtract_offset(sequence, offset),
{
    if offset >= 0 {
        sequence.checked_sub(offset as u64)
    } else {
        let magnitude = (0 - (offset as i32)) as u64;
        sequence.checked_add(magnitude)
    }
}

/// A row of this stream must carry a source sequence: fast and control
/// streams, and streams that produce a relation's result.
pub open spec fn source_required(t: StreamTableR2V, stream_id: u16, domain: SampleDomain) -> bool {
    ||| domain is Fast32k
    ||| domain is Control8k
    ||| exists|i: int| 0 <= i < t.causal_relations.len() && #[trigger] t.causal_relations[i].result_stream_id == stream_id
}

/// A row of this stream must carry an applied sequence: streams bound to an
/// applied command, and streams that apply a relation's result.
pub open spec fn applied_required(t: StreamTableR2V, stream_id: u16) -> bool {
    ||| exists|i: int|
        0 <= i < t.bindings.len() && #[trigger] t.bindings[i].stream_id == stream_id && t.bindings[i].role
            is AppliedCommand
    ||| exists|i: int|
        0 <= i < t.causal_relations.len() && #[trigger] t.causal_relations[i].application_stream_id == stream_id
}

pub open spec fn touches(r: CausalRelation, stream_id: u16) -> bool {
    r.input_stream_id == stream_id || r.result_stream_id == stream_id || r.application_stream_id == stream_id
}

/// The stream takes part in some causal relation.
pub open spec fn participates(t: StreamTableR2V, stream_id: u16) -> bool {
    exists|i: int| 0 <= i < t.causal_relations.len() && touches(#[trigger] t.causal_relations[i], stream_id)
}

/// The relation's three streams are described, share one consistency group,
/// and the observed stream belongs to it.
pub open spec fn relation_group_matches(t: StreamTableR2V, r: CausalRelation, group: u16) -> bool {
    match (
        lookup_stream_r2(t.streams, r.input_stream_id),
        lookup_stream_r2(t.streams, r.result_stream_id),
        lookup_stream_r2(t.streams, r.application_stream_id),
    ) {
        (Some(i), Some(o), Some(a)) => i.consistency_group == o.consistency_group
            && o.consistency_group == a.consistency_group && group == i.consistency_group,
        _ => false,
    }
}

/// Cycles a match may wait in this group.
pub open spec fn group_reorder(t: StreamTableR2V, group: u16) -> u64 {
    match lookup_group(t.causal_groups, group) {
        Some(g) => g.max_reorder_cycles as u64,
        None => 0,
    }
}

pub open spec fn abs16(x: i16) -> nat {
    if x < 0 {
        (-x) as nat
    } else {
        x as nat
    }
}

/// Largest offset magnitude of the relations whose input stream lies in
/// `group`.
pub open spec fn offset_span(rels: Seq<CausalRelation>, streams: Seq<crate::protocol_v2_r2::StreamDescriptorR2V>, group: u16) -> nat
    decreases rels.len(),
{
    if rels.len() == 0 {
        0
    } else {
        let r = rels.last();
        let here = match lookup_stream_r2(streams, r.input_stream_id) {
            Some(s) => if s.consistency_group == group {
                if abs16(r.result_input_offset) > abs16(r.application_result_offset) {
                    abs16(r.result_input_offset)
                } else {
                    abs16(r.application_result_offset)
                }
            } else {
                0
            },
            None => 0,
        };
        let rest = offset_span(rels.drop_last(), streams, group);
        if here > rest {
            here
        } else {
            rest
        }
    }
}

/// Cached rows of a stream that fell out of its retention window.
pub open spec fn stale_rows(h: ValidatorView, stream_id: u16, cutoff: u64) -> Set<RowKey> {
    h.causal_rows.dom().filter(|k: RowKey| k.stream_id == stream_id && k.cycle < cutoff)
}

/// Drops the rows of the stream that lie more than the retention window
/// behind its latest cycle; the window is the group's reorder allowance,
/// the largest offset of the group's relations and one logical step.
pub open spec fn after_prune(h: ValidatorView, t: StreamTableR2V, stream_id: u16, group: u16, step: u32) -> (
    ValidatorView,
    Option<SnapshotError>,
) {
    match stream_state(h, stream_id).latest_logical_cycle {
        None => (h, None),
        Some(latest) => match lookup_group(t.causal_groups, group) {
            None => (h, Some(SnapshotError::UnknownCausalGroup)),
            Some(g) => {
                let retention = g.max_reorder_cycles + offset_span(t.causal_relations, t.streams, group) + step;
                let cutoff = if latest > retention {
                    (latest - retention) as u64
                } else {
                    0
                };
                let rows = h.causal_rows.remove_keys(stale_rows(h, stream_id, cutoff));
                (
                    ValidatorView {
                        causal_rows: rows,
                        diagnostics: SnapshotDiagnostics {
                            causal_cache_evictions: sat_n(
                                h.diagnostics.causal_cache_evictions,
                                h.causal_rows.len() - rows.len(),
                            ),
                            ..h.diagnostics
                        },
                        ..h
                    },
                    None,
                )
            },
        },
    }
}

/// Deadlines of this stream that its watermark has passed.
pub open spec fn expired(ds: Set<DeadlineKey>, stream_id: u16, watermark: u64) -> Set<DeadlineKey> {
    ds.filter(|d: DeadlineKey| d.stream_id == stream_id && d.deadline < watermark)
}

pub open spec fn pending_key_of(d: DeadlineKey) -> PendingKey {
    PendingKey { relation: d.relation, cycle: d.cycle }
}

/// The matches that expired deadlines stand for.
pub open spec fn pending_keys_of(e: Set<DeadlineKey>) -> Set<PendingKey> {
    Set::new(|p: PendingKey| exists|d: DeadlineKey| e.contains(d) && pending_key_of(d) == p)
}

pub open spec fn with_timeouts(dg: SnapshotDiagnostics, n: int) -> SnapshotDiagnostics {
    SnapshotDiagnostics {
        missing_causal_source: sat_n(dg.missing_causal_source, n),
        causal_match_timeouts: sat_n(dg.causal_match_timeouts, n),
        ..dg
    }
}

/// The watermark of a stream expires the result matches whose deadline it
/// passed; each one that was still pending counts as a timeout.
pub open spec fn expire_results(h: ValidatorView, stream_id: u16, watermark: u64) -> ValidatorView {
    let er = expired(h.result_deadlines, stream_id, watermark);
    let pr = h.pending_results.remove_keys(pending_keys_of(er));
    ValidatorView {
        result_deadlines: h.result_deadlines.difference(er),
        pending_results: pr,
        diagnostics: with_timeouts(h.diagnostics, h.pending_results.len() - pr.len()),
        ..h
    }
}

/// The same for application matches.
pub open spec fn expire_applications(h: ValidatorView, stream_id: u16, watermark: u64) -> ValidatorView {
    let ea = expired(h.application_deadlines, stream_id, watermark);
    let pa = h.pending_applications.remove_keys(pending_keys_of(ea));
    ValidatorView {
        application_deadlines: h.application_deadlines.difference(ea),
        pending_applications: pa,
        diagnostics: with_timeouts(h.diagnostics, h.pending_applications.len() - pa.len()),
        ..h
    }
}

/// Expiry of result matches, then of application matches.
pub open spec fn after_expiry(h: ValidatorView, stream_id: u16, watermark: u64) -> ValidatorView {
    expire_applications(expire_results(h, stream_id, watermark), stream_id, watermark)
}

pub open spec fn bump_source_mismatch(h: ValidatorView) -> ValidatorView {
    ValidatorView {
        diagnostics: SnapshotDiagnostics {
            causal_source_mismatch: sat1(h.diagnostics.causal_source_mismatch),
            ..h.diagnostics
        },
        ..h
    }
}

pub open spec fn bump_application_mismatch(h: ValidatorView) -> ValidatorView {
    ValidatorView {
        diagnostics: SnapshotDiagnostics {
            causal_application_mismatch: sat1(h.diagnostics.causal_application_mismatch),
            ..h.diagnostics
        },
        ..h
    }
}

/// A result matches its input when it carries a source sequence equal to the
/// input's logical cycle plus the relation's offset.
pub open spec fn result_matches(input: SnapshotMeta, result: SnapshotMeta, r: CausalRelation) -> bool {
    result.valid_flags & SOURCE_SEQUENCE_VALID != 0 && spec_add_offset(
        input.logical_cycle_sequence,
        r.result_input_offset,
    ) == Some(result.source_sequence)
}

/// An application matches its result when it carries an applied sequence
/// equal to the result's logical cycle plus the relation's offset.
pub open spec fn application_matches(result: SnapshotMeta, application: SnapshotMeta, r: CausalRelation) -> bool {
    application.valid_flags & APPLIED_SEQUENCE_VALID != 0 && spec_add_offset(
        result.logical_cycle_sequence,
        r.application_result_offset,
    ) == Some(application.applied_sequence)
}

pub open spec fn checked_result(h: ValidatorView, input: SnapshotMeta, result: SnapshotMeta, r: CausalRelation) -> ValidatorView {
    if result_matches(input, result, r) {
        h
    } else {
        bump_source_mismatch(h)
    }
}

pub open spec fn checked_application(
    h: ValidatorView,
    result: SnapshotMeta,
    application: SnapshotMeta,
    r: CausalRelation,
) -> ValidatorView {
    if application_matches(result, application, r) {
        h
    } else {
        bump_application_mismatch(h)
    }
}

pub open spec fn pending_overflowed(h: ValidatorView) -> ValidatorView {
    with_gauges(
        ValidatorView {
            diagnostics: SnapshotDiagnostics {
                causal_window_overflows: sat1(h.diagnostics.causal_window_overflows),
                ..h.diagnostics
            },
            ..h
        },
    )
}

/// A result row waits for its input until the input's cycle plus the
/// reorder allowance; a new wait also gets a deadline.
pub open spec fn after_pending_result(
    h: ValidatorView,
    key: RelationKey,
    cycle: u64,
    result: SnapshotMeta,
    source_stream_id: u16,
    max_reorder: u64,
) -> (ValidatorView, Option<SnapshotError>) {
    if pending_count(h) >= h.pending_capacity {
        (pending_overflowed(h), Some(SnapshotError::PendingMatchLimit))
    } else if cycle + max_reorder > u64::MAX {
        (h, Some(SnapshotError::ResultDeadlineOverflow))
    } else {
        let deadline = (cycle + max_reorder) as u64;
        let pk = PendingKey { relation: key, cycle };
        (
            ValidatorView {
                pending_results: h.pending_results.insert(pk, PendingResult { result, deadline_cycle: deadline }),
                result_deadlines: if h.pending_results.dom().contains(pk) {
                    h.result_deadlines
                } else {
                    h.result_deadlines.insert(
                        DeadlineKey { stream_id: source_stream_id, deadline, relation: key, cycle },
                    )
                },
                ..h
            },
            None,
        )
    }
}

/// An application row waits for its result in the same way.
pub open spec fn after_pending_application(
    h: ValidatorView,
    key: RelationKey,
    cycle: u64,
    application: SnapshotMeta,
    source_stream_id: u16,
    max_reorder: u64,
) -> (ValidatorView, Option<SnapshotError>) {
    if pending_count(h) >= h.pending_capacity {
        (pending_overflowed(h), Some(SnapshotError::PendingMatchLimit))
    } else if cycle + max_reorder > u64::MAX {
        (h, Some(SnapshotError::ApplicationDeadlineOverflow))
    } else {
        let deadline = (cycle + max_reorder) as u64;
        let pk = PendingKey { relation: key, cycle };
        (
            ValidatorView {
                pending_applications: h.pending_applications.insert(
                    pk,
                    PendingApplication { application, deadline_cycle: deadline },
                ),
                application_deadlines: if h.pending_applications.dom().contains(pk) {
                    h.application_deadlines
                } else {
                    h.application_deadlines.insert(
                        DeadlineKey { stream_id: source_stream_id, deadline, relation: key, cycle },
                    )
                },
                ..h
            },
            None,
        )
    }
}

/// An input row settles the result waiting for it.
pub open spec fn after_input_arrival(h: ValidatorView, key: RelationKey, cycle: u64, input: SnapshotMeta, r: CausalRelation) -> ValidatorView {
    let pk = PendingKey { relation: key, cycle };
    if h.pending_results.dom().contains(pk) {
        let p = h.pending_results[pk];
        checked_result(
            ValidatorView {
                pending_results: h.pending_results.remove(pk),
                result_deadlines: h.result_deadlines.remove(
                    DeadlineKey { stream_id: r.input_stream_id, deadline: p.deadline_cycle, relation: key, cycle },
                ),
                ..h
            },
            input,
            p.result,
            r,
        )
    } else {
        h
    }
}

/// A result row settles the application waiting for it.
pub open spec fn after_result_arrival(h: ValidatorView, key: RelationKey, cycle: u64, r: CausalRelation) -> ValidatorView {
    let pk = PendingKey { relation: key, cycle };
    if h.pending_applications.dom().contains(pk) {
        let p = h.pending_applications[pk];
        let h1 = ValidatorView {
            pending_applications: h.pending_applications.remove(pk),
            application_deadlines: h.application_deadlines.remove(
                DeadlineKey { stream_id: r.result_stream_id, deadline: p.deadline_cycle, relation: key, cycle },
            ),
            ..h
        };
        let rk = RowKey { stream_id: r.result_stream_id, cycle };
        if h.causal_rows.dom().contains(rk) {
            checked_application(h1, h.causal_rows[rk], p.application, r)
        } else {
            h1
        }
    } else {
        h
    }
}

pub open spec fn bump_causal_reorder(h: ValidatorView, b: bool) -> ValidatorView {
    ValidatorView {
        diagnostics: SnapshotDiagnostics {
            causal_sequence_reorder: bump_if(h.diagnostics.causal_sequence_reorder, b),
            ..h.diagnostics
        },
        ..h
    }
}

/// The result role of a row: it must not go back in cycles, its input must
/// be representable, and it is matched to its input now or later; it also
/// settles an application that waited for it. The flag says that the
/// relation's remaining roles are skipped.
pub open spec fn as_result(
    h: ValidatorView,
    t: StreamTableR2V,
    group: u16,
    meta: SnapshotMeta,
    r: CausalRelation,
) -> (ValidatorView, Option<SnapshotError>, bool) {
    let key = relation_key_of(r);
    let cycle = meta.logical_cycle_sequence;
    let h0 = bump_causal_reorder(
        ValidatorView { causal_last_result: h.causal_last_result.insert(key, cycle), ..h },
        h.causal_last_result.dom().contains(key) && cycle <= h.causal_last_result[key],
    );
    match spec_subtract_offset(meta.source_sequence, r.result_input_offset) {
        None => (bump_source_mismatch(h0), None, true),
        Some(expected) => {
            let ik = RowKey { stream_id: r.input_stream_id, cycle: expected };
            let step = if h0.causal_rows.dom().contains(ik) {
                (checked_result(h0, h0.causal_rows[ik], meta, r), None)
            } else {
                after_pending_result(h0, key, expected, meta, r.input_stream_id, group_reorder(t, group))
            };
            if step.1 is Some {
                (step.0, step.1, true)
            } else {
                (after_result_arrival(step.0, key, cycle, r), None, false)
            }
        },
    }
}

/// The application role of a row, in the same way.
pub open spec fn as_application(
    h: ValidatorView,
    t: StreamTableR2V,
    group: u16,
    meta: SnapshotMeta,
    r: CausalRelation,
) -> (ValidatorView, Option<SnapshotError>) {
    let key = relation_key_of(r);
    let cycle = meta.logical_cycle_sequence;
    let h0 = bump_causal_reorder(
        ValidatorView { causal_last_application: h.causal_last_application.insert(key, cycle), ..h },
        h.causal_last_application.dom().contains(key) && cycle <= h.causal_last_application[key],
    );
    match spec_subtract_offset(meta.applied_sequence, r.application_result_offset) {
        None => (bump_application_mismatch(h0), None),
        Some(expected) => {
            let rk = RowKey { stream_id: r.result_stream_id, cycle: expected };
            if h0.causal_rows.dom().contains(rk) {
                (checked_application(h0, h0.causal_rows[rk], meta, r), None)
            } else {
                after_pending_application(h0, key, expected, meta, r.result_stream_id, group_reorder(t, group))
            }
        },
    }
}

/// One relation applied to a cached row: a relation the stream takes no part
/// in leaves it alone; one whose streams are not all in the row's group counts
/// as a group mismatch.
pub open spec fn after_relation(
    h: ValidatorView,
    t: StreamTableR2V,
    stream_id: u16,
    group: u16,
    meta: SnapshotMeta,
    r: CausalRelation,
) -> (ValidatorView, Option<SnapshotError>) {
    if !touches(r, stream_id) {
        (h, None)
    } else if !relation_group_matches(t, r, group) {
        (
            ValidatorView {
                diagnostics: SnapshotDiagnostics {
                    causal_group_mismatch: sat1(h.diagnostics.causal_group_mismatch),
                    ..h.diagnostics
                },
                ..h
            },
            None,
        )
    } else {
        let res = if stream_id == r.result_stream_id {
            as_result(h, t, group, meta, r)
        } else {
            (h, None, false)
        };
        if res.2 {
            (res.0, res.1)
        } else {
            let h1 = if stream_id == r.input_stream_id {
                after_input_arrival(res.0, relation_key_of(r), meta.logical_cycle_sequence, meta, r)
            } else {
                res.0
            };
            if stream_id == r.application_stream_id {
                as_application(h1, t, group, meta, r)
            } else {
                (h1, None)
            }
        }
    }
}

/// The relations applied in table order, stopping at the first refusal.
pub open spec fn after_relations(
    h: ValidatorView,
    t: StreamTableR2V,
    stream_id: u16,
    group: u16,
    meta: SnapshotMeta,
    rels: Seq<CausalRelation>,
) -> (ValidatorView, Option<SnapshotError>)
    decreases rels.len(),
{
    if rels.len() == 0 {
        (h, None)
    } else {
        let step = after_relation(h, t, stream_id, group, meta, rels[0]);
        if step.1 is Some {
            step
        } else {
            after_relations(step.0, t, stream_id, group, meta, rels.drop_first())
        }
    }
}

/// A row observed against a stream table: the sequence checks with the
/// table's requirements; then, for a stream of a causal relation, expiry by
/// its watermark, pruning of its old rows, a duplicate-cycle check, the row
/// limit, caching of the row, and the relations in table order.
pub open spec fn after_observe_with_table(
    h: ValidatorView,
    t: StreamTableR2V,
    d: crate::protocol_v2_r2::StreamDescriptorR2V,
    meta: SnapshotMeta,
) -> (ValidatorView, Option<SnapshotError>) {
    let id = d.stream_id;
    let h1 = after_sequence_checks(
        h,
        id,
        d.domain,
        d.logical_cycle_step,
        meta,
        source_required(t, id, d.domain),
        applied_required(t, id),
    );
    if !participates(t, id) {
        (with_gauges(h1), None)
    } else {
        let h2 = after_expiry(h1, id, meta.logical_cycle_sequence);
        let pruned = after_prune(h2, t, id, d.consistency_group, d.logical_cycle_step);
        let h3 = pruned.0;
        let rk = RowKey { stream_id: id, cycle: meta.logical_cycle_sequence };
        if pruned.1 is Some {
            pruned
        } else if h3.causal_rows.dom().contains(rk) {
            (
                with_gauges(
                    ValidatorView {
                        diagnostics: SnapshotDiagnostics {
                            causal_duplicate_cycles: sat1(h3.diagnostics.causal_duplicate_cycles),
                            ..h3.diagnostics
                        },
                        ..h3
                    },
                ),
                None,
            )
        } else if h3.causal_rows.len() >= h3.causal_capacity {
            (
                with_gauges(
                    ValidatorView {
                        diagnostics: SnapshotDiagnostics {
                            causal_window_overflows: sat1(h3.diagnostics.causal_window_overflows),
                            ..h3.diagnostics
                        },
                        ..h3
                    },
                ),
                Some(SnapshotError::CachedRowLimit),
            )
        } else {
            let h4 = ValidatorView { causal_rows: h3.causal_rows.insert(rk, meta), ..h3 };
            let done = after_relations(h4, t, id, d.consistency_group, meta, t.causal_relations);
            if done.1 is Some {
                done
            } else {
                (with_gauges(done.0), None)
            }
        }
    }
}

pub open spec fn outcome(e: Option<SnapshotError>) -> Result<(), SnapshotError> {
    match e {
        Some(x) => Err(x),
        None => Ok(()),
    }
}

fn stream_source_required(table: &StreamTableR2, stream_id: u16, domain: SampleDomain) -> (r: bool)
    ensures
        r == source_required(table@, stream_id, domain),
{
    match domain {
        SampleDomain::Fast32k | SampleDomain::Control8k => return true,
        SampleDomain::Slow1k => {},
    }
    let mut i: usize = 0;
    while i < table.causal_relations.len()
        invariant
            0 <= i <= table@.causal_relations.len(),
            forall|j: int| 0 <= j < i ==> #[trigger] table@.causal_relations[j].result_stream_id != stream_id,
        decreases table@.causal_relations.len() - i,
    {
        if table.causal_relations[i].result_stream_id == stream_id {
            assert(table@.causal_relations[i as int].result_stream_id == stream_id);
            return true;
        }
        i = i + 1;
    }
    false
}

fn stream_applied_required(table: &StreamTableR2, stream_id: u16) -> (r: bool)
    ensures
        r == applied_required(table@, stream_id),
{
    let mut i: usize = 0;
    while i < table.bindings.len()
        invariant
            0 <= i <= table@.bindings.len(),
            forall|j: int|
                0 <= j < i ==> !(#[trigger] table@.bindings[j].stream_id == stream_id && table@.bindings[j].role
                    is AppliedCommand),
        decreases table@.bindings.len() - i,
    {
        let b = table.bindings[i];
        if b.stream_id == stream_id && matches!(b.role, SignalRole::AppliedCommand) {
            assert(table@.bindings[i as int].stream_id == stream_id);
            return true;
        }
        i = i + 1;
    }
    let mut k: usize = 0;
    while k < table.causal_relations.len()
        invariant
            0 <= k <= table@.causal_relations.len(),
            forall|j: int|
                0 <= j < table@.bindings.len() ==> !(#[trigger] table@.bindings[j].stream_id == stream_id
                    && table@.bindings[j].role is AppliedCommand),
            forall|j: int| 0 <= j < k ==> #[trigger] table@.causal_relations[j].application_stream_id != stream_id,
        decreases table@.causal_relations.len() - k,
    {
        if table.causal_relations[k].application_stream_id == stream_id {
            assert(table@.causal_relations[k as int].application_stream_id == stream_id);
            return true;
        }
        k = k + 1;
    }
    false
}

fn stream_participates(table: &StreamTableR2, stream_id: u16) -> (r: bool)
    ensures
        r == participates(table@, stream_id),
{
    let mut i: usize = 0;
    while i < table.causal_relations.len()
        invariant
            0 <= i <= table@.causal_relations.len(),
            forall|j: int| 0 <= j < i ==> !touches(#[trigger] table@.causal_relations[j], stream_id),
        decreases table@.causal_relations.len() - i,
    {
        let r = table.causal_relations[i];
        if r.input_stream_id == stream_id || r.result_stream_id == stream_id || r.application_stream_id
            == stream_id {
            assert(touches(table@.causal_relations[i as int], stream_id));
            return true;
        }
        i = i + 1;
    }
    false
}

fn group_matches(table: &StreamTableR2, r: &CausalRelation, group: u16) -> (b: bool)
    ensures
        b == relation_group_matches(table@, *r, group),
{
    let input = match table.stream(r.input_stream_id) {
        Some(x) => x,
        None => return false,
    };
    let result = match table.stream(r.result_stream_id) {
        Some(x) => x,
        None => return false,
    };
    let application = match table.stream(r.application_stream_id) {
        Some(x) => x,
        None => return false,
    };
    input.consistency_group == result.consistency_group && result.consistency_group
        == application.consistency_group && group == input.consistency_group
}

fn reorder_allowance(table: &StreamTableR2, group: u16) -> (r: u64)
    ensures
        r == group_reorder(table@, group),
{
    match table.group(group) {
        Some(g) => g.max_reorder_cycles as u64,
        None => 0,
    }
}

fn magnitude(x: i16) -> (r: u64)
    ensures
        r == abs16(x),
        r <= 32768,
{
    if x < 0 {
        (0 - (x as i32)) as u64
    } else {
        x as u64
    }
}

fn group_offset_span(table: &StreamTableR2, group: u16) -> (r: u64)
    ensures
        r == offset_span(table@.causal_relations, table@.streams, group),
        r <= 32768,
{
    let ghost rels = table@.causal_relations;
    let mut span: u64 = 0;
    let mut i: usize = 0;
    while i < table.causal_relations.len()
        invariant
            rels == table@.causal_relations,
            0 <= i <= rels.len(),
            span == offset_span(rels.take(i as int), table@.streams, group),
            span <= 32768,
        decreases rels.len() - i,
    {
        let r = table.causal_relations[i];
        let here = match table.stream(r.input_stream_id) {
            Some(s) => if s.consistency_group == group {
                let a = magnitude(r.result_input_offset);
                let b = magnitude(r.application_result_offset);
                if a > b {
                    a
                } else {
                    b
                }
            } else {
                0
            },
            None => 0,
        };
        proof {
            assert(rels.take(i + 1).drop_last() =~= rels.take(i as int));
            assert(rels.take(i + 1).last() == r);
        }
        if here > span {
            span = here;
        }
        i = i + 1;
    }
    assert(rels.take(i as int) =~= rels);
    span
}

pub open spec fn expired_prefix(keys: Seq<DeadlineKey>, i: int, stream_id: u16, watermark: u64) -> Set<DeadlineKey> {
    keys.take(i).to_set().filter(|d: DeadlineKey| d.stream_id == stream_id && d.deadline < watermark)
}

pub open spec fn stale_prefix(keys: Seq<RowKey>, i: int, stream_id: u16, cutoff: u64) -> Set<RowKey> {
    keys.take(i).to_set().filter(|k: RowKey| k.stream_id == stream_id && k.cycle < cutoff)
}

proof fn lemma_take_to_set<T>(s: Seq<T>, i: int)
    requires
        0 <= i < s.len(),
    ensures
        s.take(i + 1).to_set() == s.take(i).to_set().insert(s[i]),
{
    assert(s.take(i + 1) =~= s.take(i).push(s[i]));
    s.take(i).lemma_push_to_set_commute(s[i]);
}

impl SnapshotValidator {
    fn record_causal_timeout(&mut self)
        ensures
            final(self)@ == (ValidatorView { diagnostics: with_timeouts(old(self)@.diagnostics, 1), ..old(self)@ }),
            final(self).streams == old(self).streams,
            final(self).causal_rows == old(self).causal_rows,
            final(self).pending_results == old(self).pending_results,
            final(self).pending_applications == old(self).pending_applications,
            final(self).result_deadlines == old(self).result_deadlines,
            final(self).application_deadlines == old(self).application_deadlines,
            final(self).causal_last_result == old(self).causal_last_result,
            final(self).causal_last_application == old(self).causal_last_application,
            final(self).causal_capacity == old(self).causal_capacity,
            final(self).pending_capacity == old(self).pending_capacity,
    {
        self.diagnostics.missing_causal_source = bump(self.diagnostics.missing_causal_source);
        self.diagnostics.causal_match_timeouts = bump(self.diagnostics.causal_match_timeouts);
    }

    fn expire_result_deadlines(&mut self, stream_id: u16, watermark: u64)
        requires
            old(self).wf(),
        ensures
            final(self).wf(),
            final(self)@ == expire_results(old(self)@, stream_id, watermark),
    {
        let ghost h0 = self@;
        let keys = self.result_deadlines.keys();
        let ghost ks = keys@;
        proof {
            assert(ks.take(0).to_set() =~= Set::<DeadlineKey>::empty());
            assert(expired_prefix(ks, 0, stream_id, watermark) =~= Set::<DeadlineKey>::empty());
            assert(h0.result_deadlines.difference(Set::<DeadlineKey>::empty()) =~= h0.result_deadlines);
            assert(pending_keys_of(Set::<DeadlineKey>::empty()) =~= Set::<PendingKey>::empty());
            assert(h0.pending_results.remove_keys(Set::<PendingKey>::empty()) =~= h0.pending_results);
        }
        let mut i: usize = 0;
        while i < keys.len()
            invariant
                self.wf(),
                ks == keys@,
                ks.no_duplicates(),
                forall|k: DeadlineKey| ks.contains(k) <==> h0.result_deadlines.contains(k),
                0 <= i <= ks.len(),
                self@ == (ValidatorView {
                    result_deadlines: h0.result_deadlines.difference(expired_prefix(ks, i as int, stream_id, watermark)),
                    pending_results: h0.pending_results.remove_keys(
                        pending_keys_of(expired_prefix(ks, i as int, stream_id, watermark)),
                    ),
                    diagnostics: with_timeouts(h0.diagnostics, h0.pending_results.len() - self@.pending_results.len()),
                    ..h0
                }),
                self@.pending_results.len() <= h0.pending_results.len(),
                h0.pending_results.dom().finite(),
            decreases ks.len() - i,
        {
            let d = keys[i];
            let ghost before = self@;
            let ghost e0 = expired_prefix(ks, i as int, stream_id, watermark);
            let ghost e1 = expired_prefix(ks, i + 1, stream_id, watermark);
            proof {
                lemma_take_to_set(ks, i as int);
            }
            if d.stream_id == stream_id && d.deadline < watermark {
                self.result_deadlines.remove(&d);
                let pk = PendingKey { relation: d.relation, cycle: d.cycle };
                let removed = self.pending_results.remove(&pk);
                if removed.is_some() {
                    self.record_causal_timeout();
                }
                proof {
                    assert(e1 =~= e0.insert(d));
                    assert(h0.result_deadlines.difference(e1) =~= before.result_deadlines.remove(d));
                    assert forall|x: PendingKey| #[trigger] pending_keys_of(e1).contains(x) <==> pending_keys_of(e0).insert(pk).contains(x) by {
                        if pending_keys_of(e1).contains(x) {
                            let y = choose|y: DeadlineKey| e1.contains(y) && pending_key_of(y) == x;
                            if y != d {
                                assert(e0.contains(y) && pending_key_of(y) == x);
                                assert(pending_keys_of(e0).contains(x));
                            }
                        }
                        if pending_keys_of(e0).contains(x) {
                            let y = choose|y: DeadlineKey| e0.contains(y) && pending_key_of(y) == x;
                            assert(e1.contains(y) && pending_key_of(y) == x);
                            assert(pending_keys_of(e1).contains(x));
                        }
                        if x == pk {
                            assert(e1.contains(d) && pending_key_of(d) == x);
                            assert(pending_keys_of(e1).contains(x));
                        }
                    }
                    assert(pending_keys_of(e1) =~= pending_keys_of(e0).insert(pk));
                    assert(h0.pending_results.remove_keys(pending_keys_of(e1))
                        =~= before.pending_results.remove(pk));
                }
            } else {
                proof {
                    assert(e1 =~= e0);
                }
            }
            i = i + 1;
        }
        proof {
            assert(ks.take(ks.len() as int) =~= ks);
            assert(expired_prefix(ks, ks.len() as int, stream_id, watermark) =~= expired(
                h0.result_deadlines,
                stream_id,
                watermark,
            ));
        }
    }

    fn expire_application_deadlines(&mut self, stream_id: u16, watermark: u64)
        requires
            old(self).wf(),
        ensures
            final(self).wf(),
            final(self)@ == expire_applications(old(self)@, stream_id, watermark),
    {
        let ghost h0 = self@;
        let keys = self.application_deadlines.keys();
        let ghost ks = keys@;
        proof {
            assert(ks.take(0).to_set() =~= Set::<DeadlineKey>::empty());
            assert(expired_prefix(ks, 0, stream_id, watermark) =~= Set::<DeadlineKey>::empty());
            assert(h0.application_deadlines.difference(Set::<DeadlineKey>::empty()) =~= h0.application_deadlines);
            assert(pending_keys_of(Set::<DeadlineKey>::empty()) =~= Set::<PendingKey>::empty());
            assert(h0.pending_applications.remove_keys(Set::<PendingKey>::empty()) =~= h0.pending_applications);
        }
        let mut i: usize = 0;
        while i < keys.len()
            invariant
                self.wf(),
                ks == keys@,
                ks.no_duplicates(),
                forall|k: DeadlineKey| ks.contains(k) <==> h0.application_deadlines.contains(k),
                0 <= i <= ks.len(),
                self@ == (ValidatorView {
                    application_deadlines: h0.application_deadlines.difference(
                        expired_prefix(ks, i as int, stream_id, watermark),
                    ),
                    pending_applications: h0.pending_applications.remove_keys(
                        pending_keys_of(expired_prefix(ks, i as int, stream_id, watermark)),
                    ),
                    diagnostics: with_timeouts(
                        h0.diagnostics,
                        h0.pending_applications.len() - self@.pending_applications.len(),
                    ),
                    ..h0
                }),
                self@.pending_applications.len() <= h0.pending_applications.len(),
                h0.pending_applications.dom().finite(),
            decreases ks.len() - i,
        {
            let d = keys[i];
            let ghost before = self@;
            let ghost e0 = expired_prefix(ks, i as int, stream_id, watermark);
            let ghost e1 = expired_prefix(ks, i + 1, stream_id, watermark);
            proof {
                lemma_take_to_set(ks, i as int);
            }
            if d.stream_id == stream_id && d.deadline < watermark {
                self.application_deadlines.remove(&d);
                let pk = PendingKey { relation: d.relation, cycle: d.cycle };
                let removed = self.pending_applications.remove(&pk);
                if removed.is_some() {
                    self.record_causal_timeout();
                }
                proof {
                    assert(e1 =~= e0.insert(d));
                    assert(h0.application_deadlines.difference(e1) =~= before.application_deadlines.remove(d));
                    assert forall|x: PendingKey| #[trigger] pending_keys_of(e1).contains(x) <==> pending_keys_of(e0).insert(pk).contains(x) by {
                        if pending_keys_of(e1).contains(x) {
                            let y = choose|y: DeadlineKey| e1.contains(y) && pending_key_of(y) == x;
                            if y != d {
                                assert(e0.contains(y) && pending_key_of(y) == x);
                                assert(pending_keys_of(e0).contains(x));
                            }
                        }
                        if pending_keys_of(e0).contains(x) {
                            let y = choose|y: DeadlineKey| e0.contains(y) && pending_key_of(y) == x;
                            assert(e1.contains(y) && pending_key_of(y) == x);
                            assert(pending_keys_of(e1).contains(x));
                        }
                        if x == pk {
                            assert(e1.contains(d) && pending_key_of(d) == x);
                            assert(pending_keys_of(e1).contains(x));
                        }
                    }
                    assert(pending_keys_of(e1) =~= pending_keys_of(e0).insert(pk));
                    assert(h0.pending_applications.remove_keys(pending_keys_of(e1))
                        =~= before.pending_applications.remove(pk));
                }
            } else {
                proof {
                    assert(e1 =~= e0);
                }
            }
            i = i + 1;
        }
        proof {
            assert(ks.take(ks.len() as int) =~= ks);
            assert(expired_prefix(ks, ks.len() as int, stream_id, watermark) =~= expired(
                h0.application_deadlines,
                stream_id,
                watermark,
            ));
        }
    }

    fn prune_stream_rows(&mut self, table: &StreamTableR2, stream_id: u16, group: u16, step: u32) -> (r: Result<
        (),
        SnapshotError,
    >)
        requires
            old(self).wf(),
        ensures
            final(self).wf(),
            final(self)@ == after_prune(old(self)@, table@, stream_id, group, step).0,
            r == outcome(after_prune(old(self)@, table@, stream_id, group, step).1),
    {
        let ghost h0 = self@;
        let latest = match self.streams.get(&stream_id) {
            Some(st) => match st.latest_logical_cycle {
                Some(l) => l,
                None => return Ok(()),
            },
            None => return Ok(()),
        };
        let reorder = match table.group(group) {
            Some(g) => g.max_reorder_cycles as u64,
            None => return Err(SnapshotError::UnknownCausalGroup),
        };
        let span = group_offset_span(table, group);
        let retention = reorder + span + step as u64;
        let cutoff = latest.saturating_sub(retention);
        let keys = self.causal_rows.keys();
        let ghost ks = keys@;
        proof {
            assert(ks.take(0).to_set() =~= Set::<RowKey>::empty());
            assert(stale_prefix(ks, 0, stream_id, cutoff) =~= Set::<RowKey>::empty());
            assert(h0.causal_rows.remove_keys(Set::<RowKey>::empty()) =~= h0.causal_rows);
        }
        let mut i: usize = 0;
        while i < keys.len()
            invariant
                self.wf(),
                ks == keys@,
                ks.no_duplicates(),
                forall|k: RowKey| ks.contains(k) <==> h0.causal_rows.dom().contains(k),
                0 <= i <= ks.len(),
                self@ == (ValidatorView {
                    causal_rows: h0.causal_rows.remove_keys(stale_prefix(ks, i as int, stream_id, cutoff)),
                    diagnostics: SnapshotDiagnostics {
                        causal_cache_evictions: sat_n(
                            h0.diagnostics.causal_cache_evictions,
                            h0.causal_rows.len() - self@.causal_rows.len(),
                        ),
                        ..h0.diagnostics
                    },
                    ..h0
                }),
                self@.causal_rows.len() <= h0.causal_rows.len(),
                h0.causal_rows.dom().finite(),
            decreases ks.len() - i,
        {
            let k = keys[i];
            let ghost before = self@;
            let ghost e0 = stale_prefix(ks, i as int, stream_id, cutoff);
            let ghost e1 = stale_prefix(ks, i + 1, stream_id, cutoff);
            proof {
                lemma_take_to_set(ks, i as int);
            }
            if k.stream_id == stream_id && k.cycle < cutoff {
                let removed = self.causal_rows.remove(&k);
                if removed.is_some() {
                    self.diagnostics.causal_cache_evictions = bump(self.diagnostics.causal_cache_evictions);
                }
                proof {
                    assert(e1 =~= e0.insert(k));
                    assert(h0.causal_rows.remove_keys(e1) =~= before.causal_rows.remove(k));
                }
            } else {
                proof {
                    assert(e1 =~= e0);
                }
            }
            i = i + 1;
        }
        proof {
            assert(ks.take(ks.len() as int) =~= ks);
            assert(stale_prefix(ks, ks.len() as int, stream_id, cutoff) =~= stale_rows(h0, stream_id, cutoff));
        }
        Ok(())
    }

    fn pending_overflow(&mut self) -> (r: Result<(), SnapshotError>)
        requires
            old(self).wf(),
        ensures
            final(self).wf(),
            final(self)@ == pending_overflowed(old(self)@),
            r == Err::<(), SnapshotError>(SnapshotError::PendingMatchLimit),
    {
        self.diagnostics.causal_window_overflows = bump(self.diagnostics.causal_window_overflows);
        self.update_gauges();
        Err(SnapshotError::PendingMatchLimit)
    }

    fn insert_pending_result(
        &mut self,
        key: RelationKey,
        cycle: u64,
        result: SnapshotMeta,
        source_stream_id: u16,
        max_reorder: u64,
    ) -> (r: Result<(), SnapshotError>)
        requires
            old(self).wf(),
        ensures
            final(self).wf(),
            final(self)@ == after_pending_result(old(self)@, key, cycle, result, source_stream_id, max_reorder).0,
            r == outcome(after_pending_result(old(self)@, key, cycle, result, source_stream_id, max_reorder).1),
    {
        if self.pending_causal_match_count() >= self.pending_capacity {
            return self.pending_overflow();
        }
        let deadline = match cycle.checked_add(max_reorder) {
            Some(x) => x,
            None => return Err(SnapshotError::ResultDeadlineOverflow),
        };
        let pk = PendingKey { relation: key, cycle };
        let previous = self.pending_results.insert(pk, PendingResult { result, deadline_cycle: deadline });
        if previous.is_none() {
            self.result_deadlines.insert(
                DeadlineKey { stream_id: source_stream_id, deadline, relation: key, cycle },
                (),
            );
        }
        Ok(())
    }

    fn insert_pending_application(
        &mut self,
        key: RelationKey,
        cycle: u64,
        application: SnapshotMeta,
        source_stream_id: u16,
        max_reorder: u64,
    ) -> (r: Result<(), SnapshotError>)
        requires
            old(self).wf(),
        ensures
            final(self).wf(),
            final(self)@ == after_pending_application(
                old(self)@,
                key,
                cycle,
                application,
                source_stream_id,
                max_reorder,
            ).0,
            r == outcome(
                after_pending_application(old(self)@, key, cycle, application, source_stream_id, max_reorder).1,
            ),
    {
        if self.pending_causal_match_count() >= self.pending_capacity {
            return self.pending_overflow();
        }
        let deadline = match cycle.checked_add(max_reorder) {
            Some(x) => x,
            None => return Err(SnapshotError::ApplicationDeadlineOverflow),
        };
        let pk = PendingKey { relation: key, cycle };
        let previous = self.pending_applications.insert(
            pk,
            PendingApplication { application, deadline_cycle: deadline },
        );
        if previous.is_none() {
            self.application_deadlines.insert(
                DeadlineKey { stream_id: source_stream_id, deadline, relation: key, cycle },
                (),
            );
        }
        Ok(())
    }

    fn validate_result_match(&mut self, input: SnapshotMeta, result: SnapshotMeta, r: &CausalRelation)
        requires
            old(self).wf(),
        ensures
            final(self).wf(),
            final(self)@ == checked_result(old(self)@, input, result, *r),
    {
        let expected = add_offset(input.logical_cycle_sequence, r.result_input_offset);
        if result.valid_flags & SOURCE_SEQUENCE_VALID == 0 || expected != Some(result.source_sequence) {
            self.diagnostics.causal_source_mismatch = bump(self.diagnostics.causal_source_mismatch);
        }
    }

    fn validate_application_match(&mut self, result: SnapshotMeta, application: SnapshotMeta, r: &CausalRelation)
        requires
            old(self).wf(),
        ensures
            final(self).wf(),
            final(self)@ == checked_application(old(self)@, result, application, *r),
    {
        let expected = add_offset(result.logical_cycle_sequence, r.application_result_offset);
        if application.valid_flags & APPLIED_SEQUENCE_VALID == 0 || expected != Some(application.applied_sequence) {
            self.diagnostics.causal_application_mismatch = bump(self.diagnostics.causal_application_mismatch);
        }
    }

    fn resolve_pending_result(&mut self, key: RelationKey, cycle: u64, input: SnapshotMeta, r: &CausalRelation)
        requires
            old(self).wf(),
        ensures
            final(self).wf(),
            final(self)@ == after_input_arrival(old(self)@, key, cycle, input, *r),
    {
        let ghost h0 = self@;
        let pk = PendingKey { relation: key, cycle };
        if let Some(pending) = self.pending_results.remove(&pk) {
            let dk = DeadlineKey { stream_id: r.input_stream_id, deadline: pending.deadline_cycle, relation: key, cycle };
            self.result_deadlines.remove(&dk);
            assert(self@.result_deadlines =~= h0.result_deadlines.remove(dk));
            self.validate_result_match(input, pending.result, r);
        } else {
            assert(self@.pending_results =~= h0.pending_results);
        }
    }

    fn resolve_pending_application(&mut self, key: RelationKey, cycle: u64, r: &CausalRelation)
        requires
            old(self).wf(),
        ensures
            final(self).wf(),
            final(self)@ == after_result_arrival(old(self)@, key, cycle, *r),
    {
        let ghost h0 = self@;
        let pk = PendingKey { relation: key, cycle };
        if let Some(pending) = self.pending_applications.remove(&pk) {
            let dk = DeadlineKey { stream_id: r.result_stream_id, deadline: pending.deadline_cycle, relation: key, cycle };
            self.application_deadlines.remove(&dk);
            assert(self@.application_deadlines =~= h0.application_deadlines.remove(dk));
            if let Some(result) = self.causal_rows.get(&RowKey { stream_id: r.result_stream_id, cycle }) {
                self.validate_application_match(result, pending.application, r);
            }
        } else {
            assert(self@.pending_applications =~= h0.pending_applications);
        }
    }
}

fn relation_key(r: &CausalRelation) -> (k: RelationKey)
    ensures
        k == relation_key_of(*r),
{
    RelationKey {
        input_stream_id: r.input_stream_id,
        result_stream_id: r.result_stream_id,
        application_stream_id: r.application_stream_id,
        result_input_offset: r.result_input_offset,
        application_result_offset: r.application_result_offset,
    }
}

impl SnapshotValidator {
    fn observe_as_result(
        &mut self,
        table: &StreamTableR2,
        group: u16,
        meta: SnapshotMeta,
        r: &CausalRelation,
    ) -> (res: (Result<(), SnapshotError>, bool))
        requires
            old(self).wf(),
        ensures
            final(self).wf(),
            final(self)@ == as_result(old(self)@, table@, group, meta, *r).0,
            res.0 == outcome(as_result(old(self)@, table@, group, meta, *r).1),
            res.1 == as_result(old(self)@, table@, group, meta, *r).2,
    {
        let key = relation_key(r);
        let cycle = meta.logical_cycle_sequence;
        let previous = self.causal_last_result.insert(key, cycle);
        if let Some(p) = previous {
            if cycle <= p {
                self.diagnostics.causal_sequence_reorder = bump(self.diagnostics.causal_sequence_reorder);
            }
        }
        let expected = match subtract_offset(meta.source_sequence, r.result_input_offset) {
            Some(x) => x,
            None => {
                self.diagnostics.causal_source_mismatch = bump(self.diagnostics.causal_source_mismatch);
                return (Ok(()), true);
            },
        };
        match self.causal_rows.get(&RowKey { stream_id: r.input_stream_id, cycle: expected }) {
            Some(input) => {
                self.validate_result_match(input, meta, r);
            },
            None => {
                let reorder = reorder_allowance(table, group);
                match self.insert_pending_result(key, expected, meta, r.input_stream_id, reorder) {
                    Ok(()) => {},
                    Err(e) => return (Err(e), true),
                }
            },
        }
        self.resolve_pending_application(key, cycle, r);
        (Ok(()), false)
    }

    fn observe_as_application(
        &mut self,
        table: &StreamTableR2,
        group: u16,
        meta: SnapshotMeta,
        r: &CausalRelation,
    ) -> (res: Result<(), SnapshotError>)
        requires
            old(self).wf(),
        ensures
            final(self).wf(),
            final(self)@ == as_application(old(self)@, table@, group, meta, *r).0,
            res == outcome(as_application(old(self)@, table@, group, meta, *r).1),
    {
        let key = relation_key(r);
        let cycle = meta.logical_cycle_sequence;
        let previous = self.causal_last_application.insert(key, cycle);
        if let Some(p) = previous {
            if cycle <= p {
                self.diagnostics.causal_sequence_reorder = bump(self.diagnostics.causal_sequence_reorder);
            }
        }
        let expected = match subtract_offset(meta.applied_sequence, r.application_result_offset) {
            Some(x) => x,
            None => {
                self.diagnostics.causal_application_mismatch = bump(self.diagnostics.causal_application_mismatch);
                return Ok(());
            },
        };
        match self.causal_rows.get(&RowKey { stream_id: r.result_stream_id, cycle: expected }) {
            Some(result) => {
                self.validate_application_match(result, meta, r);
                Ok(())
            },
            None => {
                let reorder = reorder_allowance(table, group);
                self.insert_pending_application(key, expected, meta, r.result_stream_id, reorder)
            },
        }
    }

    fn observe_relation(
        &mut self,
        table: &StreamTableR2,
        stream_id: u16,
        group: u16,
        meta: SnapshotMeta,
        r: &CausalRelation,
    ) -> (res: Result<(), SnapshotError>)
        requires
            old(self).wf(),
        ensures
            final(self).wf(),
            final(self)@ == after_relation(old(self)@, table@, stream_id, group, meta, *r).0,
            res == outcome(after_relation(old(self)@, table@, stream_id, group, meta, *r).1),
    {
        if !(r.input_stream_id == stream_id || r.result_stream_id == stream_id || r.application_stream_id
            == stream_id) {
            return Ok(());
        }
        if !group_matches(table, r, group) {
            self.diagnostics.causal_group_mismatch = bump(self.diagnostics.causal_group_mismatch);
            return Ok(());
        }
        if stream_id == r.result_stream_id {
            let (res, stop) = self.observe_as_result(table, group, meta, r);
            if stop {
                return res;
            }
        }
        if stream_id == r.input_stream_id {
            self.resolve_pending_result(relation_key(r), meta.logical_cycle_sequence, meta, r);
        }
        if stream_id == r.application_stream_id {
            return self.observe_as_application(table, group, meta, r);
        }
        Ok(())
    }

    /// Checks one row of a stream against a stream table. Refused when the
    /// cached rows or the pending matches are at their limit, when a
    /// deadline leaves the range of cycles, or when the stream's group is not
    /// described; the checks made before the refusal stand.
    pub fn observe_with_table(
        &mut self,
        table: &StreamTableR2,
        descriptor: &StreamDescriptorR2,
        meta: SnapshotMeta,
    ) -> (r: Result<(), SnapshotError>)
        requires
            old(self).wf(),
        ensures
            final(self).wf(),
            final(self)@ == after_observe_with_table(old(self)@, table@, descriptor@, meta).0,
            r == outcome(after_observe_with_table(old(self)@, table@, descriptor@, meta).1),
    {
        let ghost h0 = self@;
        let stream_id = descriptor.stream_id;
        let group = descriptor.consistency_group;
        let source = stream_source_required(table, stream_id, descriptor.domain);
        let applied = stream_applied_required(table, stream_id);
        self.observe_sequences(stream_id, descriptor.domain, descriptor.logical_cycle_step, meta, source, applied);
        if !stream_participates(table, stream_id) {
            self.update_gauges();
            return Ok(());
        }
        self.expire_result_deadlines(stream_id, meta.logical_cycle_sequence);
        self.expire_application_deadlines(stream_id, meta.logical_cycle_sequence);
        match self.prune_stream_rows(table, stream_id, group, descriptor.logical_cycle_step) {
            Ok(()) => {},
            Err(e) => return Err(e),
        }
        let rk = RowKey { stream_id, cycle: meta.logical_cycle_sequence };
        if self.causal_rows.contains(&rk) {
            self.diagnostics.causal_duplicate_cycles = bump(self.diagnostics.causal_duplicate_cycles);
            self.update_gauges();
            return Ok(());
        }
        if self.causal_rows.len() >= self.causal_capacity {
            self.diagnostics.causal_window_overflows = bump(self.diagnostics.causal_window_overflows);
            self.update_gauges();
            return Err(SnapshotError::CachedRowLimit);
        }
        self.causal_rows.insert(rk, meta);
        let ghost h4 = self@;
        let ghost rels = table@.causal_relations;
        assert(rels.skip(0) =~= rels);
        let mut i: usize = 0;
        while i < table.causal_relations.len()
            invariant
                self.wf(),
                h0 == old(self)@,
                rels == table@.causal_relations,
                0 <= i <= rels.len(),
                after_observe_with_table(h0, table@, descriptor@, meta) == (if after_relations(
                    h4,
                    table@,
                    stream_id,
                    group,
                    meta,
                    rels,
                ).1 is Some {
                    after_relations(h4, table@, stream_id, group, meta, rels)
                } else {
                    (with_gauges(after_relations(h4, table@, stream_id, group, meta, rels).0), None)
                }),
                after_relations(h4, table@, stream_id, group, meta, rels) == after_relations(
                    self@,
                    table@,
                    stream_id,
                    group,
                    meta,
                    rels.skip(i as int),
                ),
            decreases rels.len() - i,
        {
            let r = table.causal_relations[i];
            let ghost before = self@;
            proof {
                assert(rels.skip(i as int)[0] == r);
                assert(rels.skip(i as int).drop_first() =~= rels.skip(i + 1));
            }
            match self.observe_relation(table, stream_id, group, meta, &r) {
                Ok(()) => {},
                Err(e) => {
                    proof {
                        let step = after_relation(before, table@, stream_id, group, meta, r);
                        assert(step.1 == Some(e));
                        assert(after_relations(before, table@, stream_id, group, meta, rels.skip(i as int)) == step);
                        assert(after_relations(h4, table@, stream_id, group, meta, rels) == step);
                        assert(self@ == step.0);
                    }
                    return Err(e);
                },
            }
            i = i + 1;
        }
        assert(rels.skip(i as int) =~= Seq::<CausalRelation>::empty());
        self.update_gauges();
        Ok(())
    }
}

impl SnapshotValidator {
    /// Whatever a validator has been shown, it caches at most its capacity
    /// of rows and holds at most its pending limit of matches, which never
    /// exceeds the protocol's.
    pub proof fn lemma_state_stays_bounded(&self)
        requires
            self.wf(),
        ensures
            validator_limits(self@),
            self@.causal_rows.len() <= self@.causal_capacity,
            pending_count(self@) <= MAX_CAUSAL_PENDING_MATCHES,
    {
    }
}

proof fn lemma_relations_not_row_limit(
    h: ValidatorView,
    t: StreamTableR2V,
    stream_id: u16,
    group: u16,
    meta: SnapshotMeta,
    rels: Seq<CausalRelation>,
)
    ensures
        after_relations(h, t, stream_id, group, meta, rels).1 != Some(SnapshotError::CachedRowLimit),
    decreases rels.len(),
{
    if rels.len() > 0 {
        let step = after_relation(h, t, stream_id, group, meta, rels[0]);
        lemma_relations_not_row_limit(step.0, t, stream_id, group, meta, rels.drop_first());
    }
}

/// A row refused at the cached-row limit is not cached, and no cached row is
/// replaced: every row cached afterwards was cached before with the same
/// metadata.
pub proof fn lemma_refused_row_overwrites_nothing(
    h: ValidatorView,
    t: StreamTableR2V,
    d: crate::protocol_v2_r2::StreamDescriptorR2V,
    meta: SnapshotMeta,
)
    requires
        after_observe_with_table(h, t, d, meta).1 == Some(SnapshotError::CachedRowLimit),
    ensures
        ({
            let after = after_observe_with_table(h, t, d, meta).0;
            &&& !after.causal_rows.dom().contains(RowKey { stream_id: d.stream_id, cycle: meta.logical_cycle_sequence })
            &&& forall|k: RowKey| #[trigger] after.causal_rows.dom().contains(k) ==> h.causal_rows.dom().contains(k)
                && after.causal_rows[k] == h.causal_rows[k]
        }),
{
    let id = d.stream_id;
    let h1 = after_sequence_checks(
        h,
        id,
        d.domain,
        d.logical_cycle_step,
        meta,
        source_required(t, id, d.domain),
        applied_required(t, id),
    );
    let h2 = after_expiry(h1, id, meta.logical_cycle_sequence);
    assert(h2.causal_rows == h.causal_rows);
    let pruned = after_prune(h2, t, id, d.consistency_group, d.logical_cycle_step);
    assert forall|k: RowKey| #[trigger] pruned.0.causal_rows.dom().contains(k) implies h.causal_rows.dom().contains(k)
        && pruned.0.causal_rows[k] == h.causal_rows[k] by {}
    let rk = RowKey { stream_id: id, cycle: meta.logical_cycle_sequence };
    assert(participates(t, id));
    assert(pruned.1 is None);
    assert(!pruned.0.causal_rows.dom().contains(rk));
    let h4 = ValidatorView { causal_rows: pruned.0.causal_rows.insert(rk, meta), ..pruned.0 };
    lemma_relations_not_row_limit(h4, t, id, d.consistency_group, meta, t.causal_relations);
    assert(pruned.0.causal_rows.len() >= pruned.0.causal_capacity);
    assert(after_observe_with_table(h, t, d, meta).0.causal_rows == pruned.0.causal_rows);
}

// ---------------------------------------------------------------------------
// Source sequences of a stream never go back unnoticed
// ---------------------------------------------------------------------------

/// A row that carries a valid source sequence behind the last valid source
/// sequence its stream showed counts exactly one source-sequence fault
/// (its source sequence not being also ahead of its own logical cycle).
pub proof fn lemma_backwards_source_sequence_counted(
    h: ValidatorView,
    stream_id: u16,
    domain: SampleDomain,
    step: u32,
    meta: SnapshotMeta,
    previous: u64,
)
    requires
        meta.valid_flags & SOURCE_SEQUENCE_VALID != 0,
        h.streams.dom().contains(stream_id),
        h.streams[stream_id].last_source_sequence == Some(previous),
        meta.source_sequence < previous,
        meta.source_sequence <= meta.logical_cycle_sequence,
        h.diagnostics.source_sequence_faults < u64::MAX,
    ensures
        after_observe(h, stream_id, domain, step, meta).diagnostics.source_sequence_faults
            == h.diagnostics.source_sequence_faults + 1,
{
}

/// A row whose valid source sequence does not go back, and is not ahead of
/// its logical cycle, leaves the source-sequence faults as they were.
pub proof fn lemma_forward_source_sequence_not_counted(
    h: ValidatorView,
    stream_id: u16,
    domain: SampleDomain,
    step: u32,
    meta: SnapshotMeta,
)
    requires
        meta.valid_flags & SOURCE_SEQUENCE_VALID != 0,
        h.streams.dom().contains(stream_id) ==> (h.streams[stream_id].last_source_sequence matches Some(p)
            ==> p <= meta.source_sequence),
        meta.source_sequence <= meta.logical_cycle_sequence,
    ensures
        after_observe(h, stream_id, domain, step, meta).diagnostics.source_sequence_faults
            == h.diagnostics.source_sequence_faults,
{
}

/// After a row, its stream remembers the row's source sequence when the row
/// carries a valid one, and the one it remembered before otherwise.
pub proof fn lemma_source_sequence_remembered(
    h: ValidatorView,
    stream_id: u16,
    domain: SampleDomain,
    step: u32,
    meta: SnapshotMeta,
)
    ensures
        after_observe(h, stream_id, domain, step, meta).streams.dom().contains(stream_id),
        after_observe(h, stream_id, domain, step, meta).streams[stream_id].last_source_sequence == if meta.valid_flags
            & SOURCE_SEQUENCE_VALID != 0 {
            Some(meta.source_sequence)
        } else if h.streams.dom().contains(stream_id) {
            h.streams[stream_id].last_source_sequence
        } else {
            None::<u64>
        },
{
}

/// Two rows of one stream, both with valid source sequences, the second
/// behind the first: the second counts exactly one source-sequence fault.
pub proof fn lemma_source_sequence_going_back_counted(
    h: ValidatorView,
    stream_id: u16,
    domain: SampleDomain,
    step: u32,
    first: SnapshotMeta,
    second: SnapshotMeta,
)
    requires
        first.valid_flags & SOURCE_SEQUENCE_VALID != 0,
        second.valid_flags & SOURCE_SEQUENCE_VALID != 0,
        second.source_sequence < first.source_sequence,
        second.source_sequence <= second.logical_cycle_sequence,
        after_observe(h, stream_id, domain, step, first).diagnostics.source_sequence_faults < u64::MAX,
    ensures
        ({
            let h1 = after_observe(h, stream_id, domain, step, first);
            after_observe(h1, stream_id, domain, step, second).diagnostics.source_sequence_faults
                == h1.diagnostics.source_sequence_faults + 1
        }),
{
    let h1 = after_observe(h, stream_id, domain, step, first);
    lemma_source_sequence_remembered(h, stream_id, domain, step, first);
    lemma_backwards_source_sequence_counted(h1, stream_id, domain, step, second, first.source_sequence);
}

/// A row whose valid applied sequence is behind the last valid applied
/// sequence of its stream counts exactly one applied-sequence fault (its
/// applied sequence being behind its own logical cycle).
pub proof fn lemma_backwards_applied_sequence_counted(
    h: ValidatorView,
    stream_id: u16,
    domain: SampleDomain,
    step: u32,
    meta: SnapshotMeta,
    previous: u64,
)
    requires
        meta.valid_flags & APPLIED_SEQUENCE_VALID != 0,
        h.streams.dom().contains(stream_id),
        h.streams[stream_id].last_applied_sequence == Some(previous),
        meta.applied_sequence < previous,
        meta.applied_sequence < meta.logical_cycle_sequence,
        h.diagnostics.applied_sequence_faults < u64::MAX,
    ensures
        after_observe(h, stream_id, domain, step, meta).diagnostics.applied_sequence_faults
            == h.diagnostics.applied_sequence_faults + 1,
{
}

/// Against the last row of its stream, a row with the same or an earlier
/// row sequence counts one reorder and no gap; a row more than one ahead
/// counts one gap and no reorder; the next row counts neither.
pub proof fn lemma_row_sequence_checked(
    h: ValidatorView,
    stream_id: u16,
    domain: SampleDomain,
    step: u32,
    meta: SnapshotMeta,
    last: u64,
)
    requires
        h.streams.dom().contains(stream_id),
        h.streams[stream_id].last_row_sequence == Some(last),
        h.diagnostics.row_sequence_reorders < u64::MAX,
        h.diagnostics.row_sequence_gaps < u64::MAX,
    ensures
        ({
            let d = after_observe(h, stream_id, domain, step, meta).diagnostics;
            &&& meta.row_sequence <= last ==> d.row_sequence_reorders == h.diagnostics.row_sequence_reorders + 1
                && d.row_sequence_gaps == h.diagnostics.row_sequence_gaps
            &&& meta.row_sequence > last + 1 ==> d.row_sequence_gaps == h.diagnostics.row_sequence_gaps + 1
                && d.row_sequence_reorders == h.diagnostics.row_sequence_reorders
            &&& meta.row_sequence == last + 1 ==> d.row_sequence_gaps == h.diagnostics.row_sequence_gaps
                && d.row_sequence_reorders == h.diagnostics.row_sequence_reorders
        }),
        after_observe(h, stream_id, domain, step, meta).streams[stream_id].last_row_sequence == Some(
            meta.row_sequence,
        ),
{
}

/// The next row of a stream must advance the logical cycle by the stream's
/// step: exactly that leaves the logical-cycle faults alone, anything else
/// counts one.
pub proof fn lemma_logical_cycle_checked(
    h: ValidatorView,
    stream_id: u16,
    domain: SampleDomain,
    step: u32,
    meta: SnapshotMeta,
    last_row: u64,
    last_cycle: u64,
)
    requires
        h.streams.dom().contains(stream_id),
        h.streams[stream_id].last_row_sequence == Some(last_row),
        h.streams[stream_id].last_logical_cycle == Some(last_cycle),
        meta.row_sequence == last_row + 1,
        last_cycle + step <= u64::MAX,
        h.diagnostics.logical_cycle_faults < u64::MAX,
    ensures
        meta.logical_cycle_sequence == last_cycle + step ==> after_observe(
            h,
            stream_id,
            domain,
            step,
            meta,
        ).diagnostics.logical_cycle_faults == h.diagnostics.logical_cycle_faults,
        meta.logical_cycle_sequence != last_cycle + step ==> after_observe(
            h,
            stream_id,
            domain,
            step,
            meta,
        ).diagnostics.logical_cycle_faults == h.diagnostics.logical_cycle_faults + 1,
{
}

/// A row that is not both valid and frozen counts one invalid row.
pub proof fn lemma_unfrozen_row_counted(
    h: ValidatorView,
    stream_id: u16,
    domain: SampleDomain,
    step: u32,
    meta: SnapshotMeta,
)
    requires
        meta.valid_flags & (SNAPSHOT_VALID | FROZEN_ROW) != (SNAPSHOT_VALID | FROZEN_ROW),
        h.diagnostics.invalid_snapshot_rows < u64::MAX,
    ensures
        after_observe(h, stream_id, domain, step, meta).diagnostics.invalid_snapshot_rows
            == h.diagnostics.invalid_snapshot_rows + 1,
{
}

} // verus!
