//! In-memory SCP1 V2 hardware-capture assembly.
//!
//! An assembler collects the CAPTURE_DATA blocks of one capture between its
//! CAPTURE_BEGIN and CAPTURE_END, refuses blocks that break the protocol
//! limits before buffering them, and hands out the blocks in block order only
//! when the END totals, the row continuity and the integrity summary agree.
//! Every END releases the buffered blocks, whatever its outcome.

use vstd::prelude::*;

use crate::capture_v2::{CaptureBegin, CaptureEnd, CaptureState};
use crate::messages_v2::{
    batch_header_ok, capture_data_ok, capture_integrity_summary, data_views, enc_capture_data,
    encode_capture_data, lemma_capture_data_ok, CaptureData, CaptureDataV,
    StreamSampleBatch, StreamSampleBatchV,
};
use crate::messages_v2::{blocks_encodable, sort_by_index, summary_input};
use crate::batch_r2::{
    batch_r2_encodable, enc_capture_data_r2, encode_capture_data_r2_payload, CaptureDataR2,
    CaptureDataR2V, StreamSampleBatchR2, StreamSampleBatchR2V,
};
use crate::codec::lemma_sort_by_key_sorted;
use crate::messages_r2::{data_r2_views, enc_blocks_r2, sort_r2_by_index, summary_input_r2};
use crate::protocol::Crc32c;
use crate::protocol_v2_r2::StreamDescriptorR2;
use crate::wire::{le32, put_u32};
use crate::protocol::{spec_crc32c, MAX_PAYLOAD_LEN};
use crate::protocol_v2::{
    CapturePhase, SampleDomain, StreamDescriptor, MAX_CAPTURE_BLOCKS, MAX_CAPTURE_BLOCK_ROWS,
    MAX_CAPTURE_PAYLOAD_BYTES, MAX_CAPTURE_ROWS,
};

verus! {

/// Why a capture operation was refused.
#[derive(Clone, Copy, Debug, PartialEq, Eq, Structural)]
pub enum CaptureError {
    /// CAPTURE_BEGIN names no capture id or an impossible row count.
    InvalidBegin,
    /// Data or END arrived while no capture was in progress.
    NotStarted,
    CaptureIdMismatch,
    DescriptorMismatch,
    TooManyBlocks,
    BlockTooLarge,
    RowOverflow,
    PayloadTooLarge,
    PayloadLengthOverflow,
    RowDiscontinuity,
    NonSuccessState,
    TotalsMismatch,
    MissingChunks,
    IntegrityMismatch,
}

/// The words `message` gives for each refusal.
pub open spec fn capture_error_text(e: CaptureError) -> Seq<char> {
    match e {
        CaptureError::InvalidBegin => "CaptureTooLarge: CAPTURE_BEGIN has an invalid id or row count"@,
        CaptureError::NotStarted => "capture message arrived before CAPTURE_BEGIN"@,
        CaptureError::CaptureIdMismatch => "capture id does not match CAPTURE_BEGIN"@,
        CaptureError::DescriptorMismatch => "CaptureDescriptorMismatch: capture block disagrees with the negotiated stream"@,
        CaptureError::TooManyBlocks => "CaptureTooManyBlocks: block index exceeds protocol limit"@,
        CaptureError::BlockTooLarge => "CaptureTooLarge: capture block row count exceeds protocol limit"@,
        CaptureError::RowOverflow => "CaptureRowOverflow: capture rows exceed CAPTURE_BEGIN row_count"@,
        CaptureError::PayloadTooLarge => "CaptureTooLarge: capture exceeds the 64 MiB limit"@,
        CaptureError::PayloadLengthOverflow => "CaptureTooLarge: payload length overflow"@,
        CaptureError::RowDiscontinuity => "CaptureRowDiscontinuity: capture rows are not continuous"@,
        CaptureError::NonSuccessState => "capture ended in non-success state"@,
        CaptureError::TotalsMismatch => "CAPTURE_END block or sample totals do not match uploaded data"@,
        CaptureError::MissingChunks => "capture upload is missing one or more chunks"@,
        CaptureError::IntegrityMismatch => "CaptureIntegrityMismatch: CAPTURE_END CRC32C does not match uploaded blocks"@,
    }
}

impl CaptureError {
    /// Human-readable description of the refusal.
    pub fn message(&self) -> (r: String)
        ensures
            r@ == capture_error_text(*self),
    {
        match self {
            CaptureError::InvalidBegin => "CaptureTooLarge: CAPTURE_BEGIN has an invalid id or row count".to_string(),
            CaptureError::NotStarted => "capture message arrived before CAPTURE_BEGIN".to_string(),
            CaptureError::CaptureIdMismatch => "capture id does not match CAPTURE_BEGIN".to_string(),
            CaptureError::DescriptorMismatch => "CaptureDescriptorMismatch: capture block disagrees with the negotiated stream".to_string(),
            CaptureError::TooManyBlocks => "CaptureTooManyBlocks: block index exceeds protocol limit".to_string(),
            CaptureError::BlockTooLarge => "CaptureTooLarge: capture block row count exceeds protocol limit".to_string(),
            CaptureError::RowOverflow => "CaptureRowOverflow: capture rows exceed CAPTURE_BEGIN row_count".to_string(),
            CaptureError::PayloadTooLarge => "CaptureTooLarge: capture exceeds the 64 MiB limit".to_string(),
            CaptureError::PayloadLengthOverflow => "CaptureTooLarge: payload length overflow".to_string(),
            CaptureError::RowDiscontinuity => "CaptureRowDiscontinuity: capture rows are not continuous".to_string(),
            CaptureError::NonSuccessState => "capture ended in non-success state".to_string(),
            CaptureError::TotalsMismatch => "CAPTURE_END block or sample totals do not match uploaded data".to_string(),
            CaptureError::MissingChunks => "capture upload is missing one or more chunks".to_string(),
            CaptureError::IntegrityMismatch => "CaptureIntegrityMismatch: CAPTURE_END CRC32C does not match uploaded blocks".to_string(),
        }
    }
}

#[derive(Clone, Copy, Debug, PartialEq, Eq, Structural)]
pub struct CaptureDiagnostics {
    pub capture_complete: bool,
    pub capture_missing_chunks: u32,
    pub capture_duplicate_chunks: u32,
    pub capture_reordered_chunks: u32,
    pub capture_row_discontinuities: u32,
    pub capture_descriptor_mismatches: u32,
    pub capture_integrity_mismatches: u32,
    pub capture_row_overflows: u32,
    pub capture_too_many_blocks: u32,
}

pub open spec fn zero_diagnostics() -> CaptureDiagnostics {
    CaptureDiagnostics {
        capture_complete: false,
        capture_missing_chunks: 0,
        capture_duplicate_chunks: 0,
        capture_reordered_chunks: 0,
        capture_row_discontinuities: 0,
        capture_descriptor_mismatches: 0,
        capture_integrity_mismatches: 0,
        capture_row_overflows: 0,
        capture_too_many_blocks: 0,
    }
}

impl Default for CaptureDiagnostics {
    fn default() -> (d: Self)
        ensures
            d == zero_diagnostics(),
    {
        CaptureDiagnostics {
            capture_complete: false,
            capture_missing_chunks: 0,
            capture_duplicate_chunks: 0,
            capture_reordered_chunks: 0,
            capture_row_discontinuities: 0,
            capture_descriptor_mismatches: 0,
            capture_integrity_mismatches: 0,
            capture_row_overflows: 0,
            capture_too_many_blocks: 0,
        }
    }
}

/// `x + 1`, clamped at `u32::MAX`.
pub open spec fn bump(x: u32) -> u32 {
    if x == u32::MAX {
        x
    } else {
        (x + 1) as u32
    }
}

fn bump_exec(x: u32) -> (r: u32)
    ensures
        r == bump(x),
{
    if x == u32::MAX {
        x
    } else {
        x + 1
    }
}

/// The stream shape every block of one capture must share.  A zero period
/// means the period is not fixed yet.
#[derive(Clone, Debug, PartialEq, Eq)]
pub struct CaptureDescriptor {
    pub stream_id: u16,
    pub stream_revision: u32,
    pub domain: SampleDomain,
    pub capture_phase: CapturePhase,
    pub consistency_group: u16,
    pub channel_ids: Vec<u16>,
    pub sample_period_ticks: u32,
}

pub struct CaptureDescriptorV {
    pub stream_id: u16,
    pub stream_revision: u32,
    pub domain: SampleDomain,
    pub capture_phase: CapturePhase,
    pub consistency_group: u16,
    pub channel_ids: Seq<u16>,
    pub sample_period_ticks: u32,
}

impl View for CaptureDescriptor {
    type V = CaptureDescriptorV;

    open spec fn view(&self) -> CaptureDescriptorV {
        CaptureDescriptorV {
            stream_id: self.stream_id,
            stream_revision: self.stream_revision,
            domain: self.domain,
            capture_phase: self.capture_phase,
            consistency_group: self.consistency_group,
            channel_ids: self.channel_ids@,
            sample_period_ticks: self.sample_period_ticks,
        }
    }
}

pub open spec fn descriptor_matches(d: CaptureDescriptorV, b: StreamSampleBatchV) -> bool {
    &&& d.stream_id == b.stream_id
    &&& d.stream_revision == b.stream_revision
    &&& d.domain == b.domain
    &&& d.capture_phase == b.capture_phase
    &&& d.consistency_group == b.consistency_group
    &&& d.channel_ids == b.channel_ids
    &&& (d.sample_period_ticks == 0 || d.sample_period_ticks == b.sample_period_ticks)
}

pub open spec fn observed_descriptor(b: StreamSampleBatchV) -> CaptureDescriptorV {
    CaptureDescriptorV {
        stream_id: b.stream_id,
        stream_revision: b.stream_revision,
        domain: b.domain,
        capture_phase: b.capture_phase,
        consistency_group: b.consistency_group,
        channel_ids: b.channel_ids,
        sample_period_ticks: b.sample_period_ticks,
    }
}

fn copy_u16s(v: &Vec<u16>) -> (r: Vec<u16>)
    ensures
        r@ == v@,
{
    let mut out: Vec<u16> = Vec::new();
    let mut i: usize = 0;
    while i < v.len()
        invariant
            i <= v@.len(),
            out@ == v@.subrange(0, i as int),
        decreases v.len() - i,
    {
        out.push(v[i]);
        assert(v@.subrange(0, i + 1) =~= v@.subrange(0, i as int).push(v@[i as int]));
        i = i + 1;
    }
    assert(v@.subrange(0, v@.len() as int) =~= v@);
    out
}

fn u16s_equal(a: &Vec<u16>, b: &Vec<u16>) -> (r: bool)
    ensures
        r == (a@ == b@),
{
    if a.len() != b.len() {
        return false;
    }
    let mut i: usize = 0;
    while i < a.len()
        invariant
            i <= a@.len(),
            a@.len() == b@.len(),
            forall|k: int| 0 <= k < i ==> a@[k] == b@[k],
        decreases a.len() - i,
    {
        if a[i] != b[i] {
            return false;
        }
        i = i + 1;
    }
    assert(a@ =~= b@);
    true
}

impl CaptureDescriptor {
    pub fn from_batch(batch: &StreamSampleBatch) -> (r: CaptureDescriptor)
        ensures
            r@ == observed_descriptor(batch@),
    {
        CaptureDescriptor {
            stream_id: batch.stream_id,
            stream_revision: batch.stream_revision,
            domain: batch.domain,
            capture_phase: batch.capture_phase,
            consistency_group: batch.consistency_group,
            channel_ids: copy_u16s(&batch.channel_ids),
            sample_period_ticks: batch.sample_period_ticks,
        }
    }

    /// The negotiated descriptor of `stream`; its period is learned from the
    /// first block and must then stay fixed.
    pub fn from_stream(stream: &StreamDescriptor, revision: u32) -> (r: CaptureDescriptor)
        ensures
            r@ == (CaptureDescriptorV {
                stream_id: stream.stream_id,
                stream_revision: revision,
                domain: stream.domain,
                capture_phase: stream.capture_phase,
                consistency_group: stream.consistency_group,
                channel_ids: stream.channel_ids@,
                sample_period_ticks: 0,
            }),
    {
        CaptureDescriptor {
            stream_id: stream.stream_id,
            stream_revision: revision,
            domain: stream.domain,
            capture_phase: stream.capture_phase,
            consistency_group: stream.consistency_group,
            channel_ids: copy_u16s(&stream.channel_ids),
            sample_period_ticks: 0,
        }
    }

    pub fn matches_batch(&self, batch: &StreamSampleBatch) -> (r: bool)
        ensures
            r == descriptor_matches(self@, batch@),
    {
        self.stream_id == batch.stream_id && self.stream_revision == batch.stream_revision
            && self.domain == batch.domain && self.capture_phase == batch.capture_phase
            && self.consistency_group == batch.consistency_group && u16s_equal(
            &self.channel_ids,
            &batch.channel_ids,
        ) && (self.sample_period_ticks == 0 || self.sample_period_ticks == batch.sample_period_ticks)
    }
}

// ---------------------------------------------------------------------------
// Model of the buffered blocks
// ---------------------------------------------------------------------------

pub open spec fn has_index(blocks: Seq<CaptureDataV>, idx: u32) -> bool {
    exists|i: int| 0 <= i < blocks.len() && (#[trigger] blocks[i]).block_index == idx
}

pub open spec fn strictly_sorted(blocks: Seq<CaptureDataV>) -> bool {
    forall|i: int, j: int| 0 <= i < j < blocks.len() ==> blocks[i].block_index < blocks[j].block_index
}

/// `d` placed among blocks kept in ascending block order.
pub open spec fn insert_sorted(blocks: Seq<CaptureDataV>, d: CaptureDataV) -> Seq<CaptureDataV>
    decreases blocks.len(),
{
    if blocks.len() == 0 {
        seq![d]
    } else if blocks.last().block_index < d.block_index {
        blocks.push(d)
    } else {
        insert_sorted(blocks.drop_last(), d).push(blocks.last())
    }
}

pub open spec fn rows_of(blocks: Seq<CaptureDataV>) -> int
    decreases blocks.len(),
{
    if blocks.len() == 0 {
        0
    } else {
        rows_of(blocks.drop_last()) + blocks.last().batch.row_count
    }
}

pub open spec fn bytes_of(blocks: Seq<CaptureDataV>) -> int
    decreases blocks.len(),
{
    if blocks.len() == 0 {
        0
    } else {
        bytes_of(blocks.drop_last()) + enc_capture_data(blocks.last()).len()
    }
}

pub open spec fn first_row(d: CaptureDataV) -> u64 {
    d.batch.row_metadata[0].row_sequence
}

pub open spec fn last_row(d: CaptureDataV) -> u64 {
    d.batch.row_metadata.last().row_sequence
}

/// Each block's first row follows the previous block's last row.
pub open spec fn rows_continuous(blocks: Seq<CaptureDataV>) -> bool {
    forall|i: int|
        0 <= i < blocks.len() - 1 ==> last_row(#[trigger] blocks[i]) < u64::MAX && last_row(blocks[i]) + 1
            == first_row(blocks[i + 1])
}

/// A block the assembler may hold.
pub open spec fn block_ok(d: CaptureDataV) -> bool {
    &&& capture_data_ok(d)
    &&& batch_header_ok(d.batch)
    &&& enc_capture_data(d).len() <= MAX_PAYLOAD_LEN
    &&& d.block_index < MAX_CAPTURE_BLOCKS
    &&& d.batch.row_count <= MAX_CAPTURE_BLOCK_ROWS
}

pub open spec fn blocks_ok(blocks: Seq<CaptureDataV>) -> bool {
    forall|i: int| 0 <= i < blocks.len() ==> block_ok(#[trigger] blocks[i])
}

/// Number of block indices below `n` that no buffered block carries.
pub open spec fn count_missing(blocks: Seq<CaptureDataV>, n: int) -> int
    decreases n,
{
    if n <= 0 {
        0
    } else {
        count_missing(blocks, n - 1) + if has_index(blocks, (n - 1) as u32) {
            0int
        } else {
            1int
        }
    }
}

// ---------------------------------------------------------------------------
// V2 assembler
// ---------------------------------------------------------------------------

pub struct CaptureAssembler {
    begin: Option<CaptureBegin>,
    blocks: Vec<CaptureData>,
    descriptor: Option<CaptureDescriptor>,
    expected_descriptor: Option<CaptureDescriptor>,
    expected_next_block: u32,
    total_rows: u32,
    total_payload_bytes: usize,
    diagnostics: CaptureDiagnostics,
}

/// Mathematical state of an assembler.
pub struct AssemblerView {
    pub begin: Option<CaptureBegin>,
    pub blocks: Seq<CaptureDataV>,
    pub descriptor: Option<CaptureDescriptorV>,
    pub expected_descriptor: Option<CaptureDescriptorV>,
    pub expected_next_block: u32,
    pub total_rows: u32,
    pub total_payload_bytes: usize,
    pub diagnostics: CaptureDiagnostics,
}

pub open spec fn opt_desc(d: Option<CaptureDescriptor>) -> Option<CaptureDescriptorV> {
    match d {
        Some(x) => Some(x@),
        None => None,
    }
}

impl View for CaptureAssembler {
    type V = AssemblerView;

    closed spec fn view(&self) -> AssemblerView {
        AssemblerView {
            begin: self.begin,
            blocks: data_views(self.blocks@),
            descriptor: opt_desc(self.descriptor),
            expected_descriptor: opt_desc(self.expected_descriptor),
            expected_next_block: self.expected_next_block,
            total_rows: self.total_rows,
            total_payload_bytes: self.total_payload_bytes,
            diagnostics: self.diagnostics,
        }
    }
}

/// The state's buffers are consistent: blocks in strictly ascending block
/// order, each within the protocol limits, totals that add up, and nothing
/// buffered outside a capture.
pub open spec fn assembler_wf(s: AssemblerView) -> bool {
    &&& strictly_sorted(s.blocks)
    &&& blocks_ok(s.blocks)
    &&& s.total_rows == rows_of(s.blocks)
    &&& s.total_payload_bytes == bytes_of(s.blocks)
    &&& s.total_payload_bytes <= MAX_CAPTURE_PAYLOAD_BYTES
    &&& match s.begin {
        Some(b) => 1 <= b.row_count <= MAX_CAPTURE_ROWS && b.capture_id != 0 && s.total_rows <= b.row_count,
        None => s.blocks.len() == 0 && s.total_rows == 0,
    }
}

/// Nothing is buffered and no capture is in progress.
pub open spec fn released(s: AssemblerView) -> bool {
    &&& s.begin is None
    &&& s.blocks.len() == 0
    &&& s.descriptor is None
    &&& s.expected_descriptor is None
    &&& s.expected_next_block == 0
    &&& s.total_rows == 0
    &&& s.total_payload_bytes == 0
}

pub open spec fn with_diag(s: AssemblerView, d: CaptureDiagnostics) -> AssemblerView {
    AssemblerView {
        begin: s.begin,
        blocks: s.blocks,
        descriptor: s.descriptor,
        expected_descriptor: s.expected_descriptor,
        expected_next_block: s.expected_next_block,
        total_rows: s.total_rows,
        total_payload_bytes: s.total_payload_bytes,
        diagnostics: d,
    }
}

pub open spec fn mismatch(d: CaptureDiagnostics) -> CaptureDiagnostics {
    CaptureDiagnostics { capture_descriptor_mismatches: bump(d.capture_descriptor_mismatches), ..d }
}

pub open spec fn max_u32(a: u32, b: u32) -> u32 {
    if a >= b {
        a
    } else {
        b
    }
}

/// The state after an accepted block is buffered, before the continuity
/// check.
pub open spec fn accepted(s: AssemblerView, d: CaptureDataV) -> AssemblerView {
    AssemblerView {
        begin: s.begin,
        blocks: insert_sorted(s.blocks, d),
        descriptor: if s.descriptor is None {
            Some(observed_descriptor(d.batch))
        } else {
            s.descriptor
        },
        expected_descriptor: s.expected_descriptor,
        expected_next_block: max_u32(s.expected_next_block, bump_index(d.block_index)),
        total_rows: (s.total_rows + d.batch.row_count) as u32,
        total_payload_bytes: (s.total_payload_bytes + enc_capture_data(d).len()) as usize,
        diagnostics: if d.block_index != s.expected_next_block {
            CaptureDiagnostics { capture_reordered_chunks: bump(s.diagnostics.capture_reordered_chunks), ..s.diagnostics }
        } else {
            s.diagnostics
        },
    }
}

/// `i + 1`, clamped at `u32::MAX`.
pub open spec fn bump_index(i: u32) -> u32 {
    bump(i)
}

/// What `push` does to the state, and the refusal if it refuses the block.
pub open spec fn spec_push(s: AssemblerView, d: CaptureDataV) -> (AssemblerView, Option<CaptureError>) {
    match s.begin {
        None => (s, Some(CaptureError::NotStarted)),
        Some(b) => if d.capture_id != b.capture_id {
            (s, Some(CaptureError::CaptureIdMismatch))
        } else if d.batch.stream_id != b.stream_id {
            (with_diag(s, mismatch(s.diagnostics)), Some(CaptureError::DescriptorMismatch))
        } else if d.block_index >= MAX_CAPTURE_BLOCKS {
            (
                with_diag(s, CaptureDiagnostics { capture_too_many_blocks: bump(s.diagnostics.capture_too_many_blocks), ..s.diagnostics }),
                Some(CaptureError::TooManyBlocks),
            )
        } else if d.batch.row_count > MAX_CAPTURE_BLOCK_ROWS {
            (
                with_diag(s, CaptureDiagnostics { capture_row_overflows: bump(s.diagnostics.capture_row_overflows), ..s.diagnostics }),
                Some(CaptureError::BlockTooLarge),
            )
        } else if has_index(s.blocks, d.block_index) {
            (
                with_diag(s, CaptureDiagnostics { capture_duplicate_chunks: bump(s.diagnostics.capture_duplicate_chunks), ..s.diagnostics }),
                None,
            )
        } else if !capture_data_ok(d) || enc_capture_data(d).len() > MAX_PAYLOAD_LEN {
            (s, Some(CaptureError::DescriptorMismatch))
        } else if s.expected_descriptor matches Some(e) && !descriptor_matches(e, d.batch) {
            (with_diag(s, mismatch(s.diagnostics)), Some(CaptureError::DescriptorMismatch))
        } else if s.descriptor matches Some(e) && !descriptor_matches(e, d.batch) {
            (with_diag(s, mismatch(s.diagnostics)), Some(CaptureError::DescriptorMismatch))
        } else {
            let s1 = AssemblerView {
                descriptor: if s.descriptor is None {
                    Some(observed_descriptor(d.batch))
                } else {
                    s.descriptor
                },
                ..s
            };
            let next_rows = s.total_rows + d.batch.row_count;
            if next_rows > b.row_count || next_rows > MAX_CAPTURE_ROWS {
                (
                    with_diag(s1, CaptureDiagnostics { capture_row_overflows: bump(s.diagnostics.capture_row_overflows), ..s.diagnostics }),
                    Some(CaptureError::RowOverflow),
                )
            } else if s.total_payload_bytes + enc_capture_data(d).len() > MAX_CAPTURE_PAYLOAD_BYTES {
                (s1, Some(CaptureError::PayloadTooLarge))
            } else {
                let s2 = accepted(s, d);
                if rows_continuous(s2.blocks) {
                    (s2, None)
                } else {
                    (
                        with_diag(s2, CaptureDiagnostics { capture_row_discontinuities: bump(s2.diagnostics.capture_row_discontinuities), ..s2.diagnostics }),
                        Some(CaptureError::RowDiscontinuity),
                    )
                }
            }
        },
    }
}

// --- lemmas on the block model ----------------------------------------------

#[verifier::rlimit(60)]
#[verifier::spinoff_prover]
proof fn lemma_insert_sorted(blocks: Seq<CaptureDataV>, d: CaptureDataV, pos: int)
    requires
        strictly_sorted(blocks),
        0 <= pos <= blocks.len(),
        forall|i: int| 0 <= i < pos ==> (#[trigger] blocks[i]).block_index < d.block_index,
        forall|i: int| pos <= i < blocks.len() ==> (#[trigger] blocks[i]).block_index > d.block_index,
    ensures
        insert_sorted(blocks, d) == blocks.insert(pos, d),
        strictly_sorted(blocks.insert(pos, d)),
        rows_of(insert_sorted(blocks, d)) == rows_of(blocks) + d.batch.row_count,
        bytes_of(insert_sorted(blocks, d)) == bytes_of(blocks) + enc_capture_data(d).len(),
    decreases blocks.len(),
{
    if blocks.len() == 0 {
        assert(seq![d] =~= blocks.insert(pos, d));
        assert(seq![d].drop_last() =~= Seq::<CaptureDataV>::empty());
        assert(seq![d].last() == d);
        assert(rows_of(seq![d]) == rows_of(seq![d].drop_last()) + d.batch.row_count);
        assert(bytes_of(seq![d]) == bytes_of(seq![d].drop_last()) + enc_capture_data(d).len());
    } else if pos == blocks.len() {
        assert(blocks[blocks.len() - 1].block_index < d.block_index);
        assert(blocks.push(d) =~= blocks.insert(pos, d));
        assert(blocks.push(d).drop_last() =~= blocks);
        assert(blocks.push(d).last() == d);
        assert(rows_of(blocks.push(d)) == rows_of(blocks) + d.batch.row_count);
        assert(bytes_of(blocks.push(d)) == bytes_of(blocks) + enc_capture_data(d).len());
    } else {
        let init = blocks.drop_last();
        assert forall|i: int| 0 <= i < pos implies (#[trigger] init[i]).block_index < d.block_index by {
            assert(init[i] == blocks[i]);
        }
        assert forall|i: int| pos <= i < init.len() implies (#[trigger] init[i]).block_index > d.block_index by {
            assert(init[i] == blocks[i]);
        }
        assert(strictly_sorted(init)) by {
            assert forall|i: int, j: int| 0 <= i < j < init.len() implies init[i].block_index < init[j].block_index by {
                assert(init[i] == blocks[i] && init[j] == blocks[j]);
            }
        }
        lemma_insert_sorted(init, d, pos);
        assert(init.insert(pos, d).push(blocks.last()) =~= blocks.insert(pos, d));
        assert(blocks.last() == blocks[blocks.len() - 1]);
        assert(blocks[blocks.len() - 1].block_index > d.block_index);
        assert(insert_sorted(blocks, d) == insert_sorted(init, d).push(blocks.last()));
        assert(insert_sorted(blocks, d).drop_last() =~= insert_sorted(init, d));
        assert(insert_sorted(blocks, d).last() == blocks.last());
        let x = insert_sorted(blocks, d);
        assert(rows_of(x) == rows_of(x.drop_last()) + x.last().batch.row_count);
        assert(bytes_of(x) == bytes_of(x.drop_last()) + enc_capture_data(x.last()).len());
        assert(rows_of(blocks) == rows_of(init) + blocks.last().batch.row_count);
        assert(bytes_of(blocks) == bytes_of(init) + enc_capture_data(blocks.last()).len());
    }
    let r = blocks.insert(pos, d);
    assert forall|i: int, j: int| 0 <= i < j < r.len() implies r[i].block_index < r[j].block_index by {
        if j < pos {
            assert(r[i] == blocks[i] && r[j] == blocks[j]);
        } else if j == pos {
            assert(r[j] == d);
            assert(r[i] == blocks[i]);
        } else if i < pos {
            assert(r[i] == blocks[i] && r[j] == blocks[j - 1]);
        } else if i == pos {
            assert(r[i] == d && r[j] == blocks[j - 1]);
        } else {
            assert(r[i] == blocks[i - 1] && r[j] == blocks[j - 1]);
        }
    }
}

proof fn lemma_blocks_ok_insert(blocks: Seq<CaptureDataV>, d: CaptureDataV, pos: int)
    requires
        blocks_ok(blocks),
        block_ok(d),
        0 <= pos <= blocks.len(),
    ensures
        blocks_ok(blocks.insert(pos, d)),
{
    let r = blocks.insert(pos, d);
    assert forall|i: int| 0 <= i < r.len() implies block_ok(#[trigger] r[i]) by {
        if i < pos {
            assert(r[i] == blocks[i]);
        } else if i > pos {
            assert(r[i] == blocks[i - 1]);
        }
    }
}

impl CaptureAssembler {
    /// Whether a block with index `idx` is buffered, and where a block with
    /// that index belongs in block order.
    fn locate(&self, idx: u32) -> (r: (bool, usize))
        requires
            strictly_sorted(self@.blocks),
        ensures
            r.0 == has_index(self@.blocks, idx),
            r.1 <= self@.blocks.len(),
            forall|i: int| 0 <= i < r.1 ==> (#[trigger] self@.blocks[i]).block_index < idx,
            !r.0 ==> forall|i: int| r.1 <= i < self@.blocks.len() ==> (#[trigger] self@.blocks[i]).block_index > idx,
    {
        let ghost v = self@.blocks;
        let mut i: usize = 0;
        while i < self.blocks.len()
            invariant
                v == self@.blocks,
                v.len() == self.blocks@.len(),
                strictly_sorted(v),
                i <= v.len(),
                forall|k: int| 0 <= k < i ==> (#[trigger] v[k]).block_index < idx,
            decreases self.blocks.len() - i,
        {
            assert(v[i as int] == self.blocks@[i as int]@);
            let bi = self.blocks[i].block_index;
            if bi == idx {
                return (true, i);
            }
            if bi > idx {
                assert forall|k: int| i <= k < v.len() implies (#[trigger] v[k]).block_index > idx by {
                    if k > i {
                        assert(v[i as int].block_index < v[k].block_index);
                    }
                }
                return (false, i);
            }
            i = i + 1;
        }
        (false, i)
    }

    /// Whether consecutive buffered blocks continue each other's rows.
    fn continuous(&self) -> (r: bool)
        requires
            blocks_ok(self@.blocks),
        ensures
            r == rows_continuous(self@.blocks),
    {
        let ghost v = self@.blocks;
        let n = self.blocks.len();
        if n < 2 {
            return true;
        }
        let mut i: usize = 0;
        while i + 1 < n
            invariant
                v == self@.blocks,
                n == v.len(),
                n >= 2,
                i + 1 <= n,
                blocks_ok(v),
                forall|k: int| 0 <= k < i ==> last_row(#[trigger] v[k]) < u64::MAX && last_row(v[k]) + 1 == first_row(v[k + 1]),
            decreases n - i,
        {
            assert(v[i as int] == self.blocks@[i as int]@);
            assert(v[i + 1] == self.blocks@[i + 1]@);
            assert(block_ok(v[i as int]) && block_ok(v[i + 1]));
            let prev = &self.blocks[i].batch.row_metadata;
            let next = &self.blocks[i + 1].batch.row_metadata;
            let last = prev[prev.len() - 1].row_sequence;
            let first = next[0].row_sequence;
            if last == u64::MAX || last + 1 != first {
                return false;
            }
            i = i + 1;
        }
        true
    }

    fn release_buffers(&mut self)
        ensures
            released(final(self)@),
            final(self)@.diagnostics == old(self)@.diagnostics,
            assembler_wf(final(self)@),
    {
        self.begin = None;
        self.blocks = Vec::new();
        self.descriptor = None;
        self.expected_descriptor = None;
        self.expected_next_block = 0;
        self.total_rows = 0;
        self.total_payload_bytes = 0;
        assert(data_views(self.blocks@) =~= Seq::<CaptureDataV>::empty());
    }
}

impl Default for CaptureAssembler {
    fn default() -> (a: Self)
        ensures
            released(a@),
            assembler_wf(a@),
            a@.diagnostics == zero_diagnostics(),
    {
        let a = CaptureAssembler {
            begin: None,
            blocks: Vec::new(),
            descriptor: None,
            expected_descriptor: None,
            expected_next_block: 0,
            total_rows: 0,
            total_payload_bytes: 0,
            diagnostics: CaptureDiagnostics::default(),
        };
        assert(data_views(a.blocks@) =~= Seq::<CaptureDataV>::empty());
        a
    }
}

// --- begin / push / finish -------------------------------------------------

/// `x + n`, clamped at `u32::MAX`.
pub open spec fn sat_add(x: u32, n: int) -> u32 {
    if x + n > u32::MAX {
        u32::MAX
    } else {
        (x + n) as u32
    }
}

/// The state right after a CAPTURE_BEGIN is accepted.
pub open spec fn begun(b: CaptureBegin, expected: Option<CaptureDescriptorV>) -> AssemblerView {
    AssemblerView {
        begin: Some(b),
        blocks: Seq::empty(),
        descriptor: None,
        expected_descriptor: expected,
        expected_next_block: 0,
        total_rows: 0,
        total_payload_bytes: 0,
        diagnostics: zero_diagnostics(),
    }
}

pub open spec fn begin_ok(b: CaptureBegin) -> bool {
    b.capture_id != 0 && 1 <= b.row_count <= MAX_CAPTURE_ROWS
}

/// What `finish` does to the diagnostics, and the refusal if it refuses the
/// END.
pub open spec fn spec_finish(s: AssemblerView, end: CaptureEnd) -> (CaptureDiagnostics, Option<CaptureError>) {
    let d0 = s.diagnostics;
    match s.begin {
        None => (d0, Some(CaptureError::NotStarted)),
        Some(b) => if end.capture_id != b.capture_id {
            (d0, Some(CaptureError::CaptureIdMismatch))
        } else if end.state != CaptureState::Complete {
            (d0, Some(CaptureError::NonSuccessState))
        } else if end.total_blocks > MAX_CAPTURE_BLOCKS {
            (d0, Some(CaptureError::TooManyBlocks))
        } else {
            let d1 = CaptureDiagnostics {
                capture_missing_chunks: sat_add(d0.capture_missing_chunks, count_missing(s.blocks, end.total_blocks as int)),
                ..d0
            };
            if end.uploaded_rows != s.total_rows || end.dropped_rows != 0 {
                (d1, Some(CaptureError::RowOverflow))
            } else if s.blocks.len() != end.total_blocks || s.total_rows != end.total_samples
                || s.total_rows != b.row_count {
                (d1, Some(CaptureError::TotalsMismatch))
            } else if d1.capture_missing_chunks != 0 {
                (d1, Some(CaptureError::MissingChunks))
            } else if !rows_continuous(s.blocks) {
                (
                    CaptureDiagnostics { capture_row_discontinuities: bump(d1.capture_row_discontinuities), ..d1 },
                    Some(CaptureError::RowDiscontinuity),
                )
            } else if s.blocks.len() == 0 || b.trigger_row_seq < first_row(s.blocks[0])
                || b.trigger_row_seq > last_row(s.blocks.last()) {
                (d1, Some(CaptureError::RowDiscontinuity))
            } else if !(blocks_encodable(sort_by_index(s.blocks)) && summary_input(b.capture_id, s.blocks).len()
                <= MAX_CAPTURE_PAYLOAD_BYTES) {
                (d1, Some(CaptureError::IntegrityMismatch))
            } else if end.integrity_summary != spec_crc32c(summary_input(b.capture_id, s.blocks)) {
                (
                    CaptureDiagnostics { capture_integrity_mismatches: bump(d1.capture_integrity_mismatches), ..d1 },
                    Some(CaptureError::IntegrityMismatch),
                )
            } else {
                (CaptureDiagnostics { capture_complete: true, ..d1 }, None)
            }
        },
    }
}

/// A completed capture: the blocks' batches in block order.
#[derive(Clone, Debug, PartialEq, Eq)]
pub struct AssembledCapture {
    pub begin: CaptureBegin,
    pub blocks: Vec<StreamSampleBatch>,
    pub diagnostics: CaptureDiagnostics,
}

pub open spec fn batches_of(blocks: Seq<CaptureDataV>) -> Seq<StreamSampleBatchV> {
    blocks.map_values(|d: CaptureDataV| d.batch)
}

pub open spec fn batch_views(v: Seq<StreamSampleBatch>) -> Seq<StreamSampleBatchV> {
    v.map_values(|b: StreamSampleBatch| b@)
}

impl CaptureAssembler {
    /// Starts a capture: a non-zero id and 1..=MAX_CAPTURE_ROWS rows.  The
    /// buffers and the diagnostics start afresh.
    pub fn begin(&mut self, begin: CaptureBegin) -> (r: Result<(), CaptureError>)
        ensures
            r is Ok <==> begin_ok(begin),
            r is Ok ==> final(self)@ == begun(begin, None),
            r matches Err(e) ==> e == CaptureError::InvalidBegin && final(self)@ == old(self)@,
            assembler_wf(old(self)@) ==> assembler_wf(final(self)@),
    {
        if begin.capture_id == 0 || begin.row_count == 0 || begin.row_count > MAX_CAPTURE_ROWS {
            return Err(CaptureError::InvalidBegin);
        }
        self.begin = Some(begin);
        self.blocks = Vec::new();
        self.descriptor = None;
        self.expected_descriptor = None;
        self.expected_next_block = 0;
        self.total_rows = 0;
        self.total_payload_bytes = 0;
        self.diagnostics = CaptureDiagnostics::default();
        assert(data_views(self.blocks@) =~= Seq::<CaptureDataV>::empty());
        Ok(())
    }

    /// Starts a capture with the descriptor negotiated in STREAM_TABLE; every
    /// block must then match it.
    pub fn begin_with_descriptor(&mut self, begin: CaptureBegin, stream: &StreamDescriptor, stream_revision: u32) -> (r: Result<(), CaptureError>)
        ensures
            r is Ok <==> begin.stream_id == stream.stream_id && begin_ok(begin),
            r is Ok ==> final(self)@ == begun(
                begin,
                Some(
                    CaptureDescriptorV {
                        stream_id: stream.stream_id,
                        stream_revision: stream_revision,
                        domain: stream.domain,
                        capture_phase: stream.capture_phase,
                        consistency_group: stream.consistency_group,
                        channel_ids: stream.channel_ids@,
                        sample_period_ticks: 0,
                    },
                ),
            ),
            r matches Err(e) ==> final(self)@ == old(self)@ && (e == CaptureError::DescriptorMismatch
                <==> begin.stream_id != stream.stream_id) && (e == CaptureError::DescriptorMismatch
                || e == CaptureError::InvalidBegin),
            assembler_wf(old(self)@) ==> assembler_wf(final(self)@),
    {
        if begin.stream_id != stream.stream_id {
            return Err(CaptureError::DescriptorMismatch);
        }
        self.begin(begin)?;
        self.expected_descriptor = Some(CaptureDescriptor::from_stream(stream, stream_revision));
        Ok(())
    }

    /// Buffers one CAPTURE_DATA block; see `spec_push` for every outcome.
    /// Limits are checked before the block is buffered; a duplicate block is
    /// counted and otherwise ignored.
    #[verifier::rlimit(60)]
    #[verifier::spinoff_prover]
    pub fn push(&mut self, data: CaptureData) -> (r: Result<(), CaptureError>)
        requires
            assembler_wf(old(self)@),
        ensures
            assembler_wf(final(self)@),
            final(self)@ == spec_push(old(self)@, data@).0,
            match r {
                Ok(()) => spec_push(old(self)@, data@).1 is None,
                Err(e) => spec_push(old(self)@, data@).1 == Some(e),
            },
    {
        let ghost s = self@;
        let begin = match self.begin {
            Some(b) => b,
            None => {
                return Err(CaptureError::NotStarted);
            },
        };
        if data.capture_id != begin.capture_id {
            return Err(CaptureError::CaptureIdMismatch);
        }
        if data.batch.stream_id != begin.stream_id {
            self.diagnostics.capture_descriptor_mismatches = bump_exec(self.diagnostics.capture_descriptor_mismatches);
            return Err(CaptureError::DescriptorMismatch);
        }
        if data.block_index >= MAX_CAPTURE_BLOCKS {
            self.diagnostics.capture_too_many_blocks = bump_exec(self.diagnostics.capture_too_many_blocks);
            return Err(CaptureError::TooManyBlocks);
        }
        if data.batch.row_count > MAX_CAPTURE_BLOCK_ROWS {
            self.diagnostics.capture_row_overflows = bump_exec(self.diagnostics.capture_row_overflows);
            return Err(CaptureError::BlockTooLarge);
        }
        let (present, pos) = self.locate(data.block_index);
        if present {
            self.diagnostics.capture_duplicate_chunks = bump_exec(self.diagnostics.capture_duplicate_chunks);
            return Ok(());
        }
        let mut payload: Vec<u8> = Vec::new();
        if encode_capture_data(&data, &mut payload).is_err() {
            return Err(CaptureError::DescriptorMismatch);
        }
        assert(payload@ =~= enc_capture_data(data@));
        if payload.len() > MAX_PAYLOAD_LEN {
            return Err(CaptureError::DescriptorMismatch);
        }
        let payload_bytes = payload.len();
        match &self.expected_descriptor {
            Some(expected) => {
                if !expected.matches_batch(&data.batch) {
                    self.diagnostics.capture_descriptor_mismatches = bump_exec(self.diagnostics.capture_descriptor_mismatches);
                    return Err(CaptureError::DescriptorMismatch);
                }
            },
            None => {},
        }
        match &self.descriptor {
            Some(existing) => {
                if !existing.matches_batch(&data.batch) {
                    self.diagnostics.capture_descriptor_mismatches = bump_exec(self.diagnostics.capture_descriptor_mismatches);
                    return Err(CaptureError::DescriptorMismatch);
                }
            },
            None => {
                self.descriptor = Some(CaptureDescriptor::from_batch(&data.batch));
            },
        }
        proof {
            lemma_capture_data_ok(data@);
        }
        let next_rows = self.total_rows as u64 + data.batch.row_count as u64;
        if next_rows > begin.row_count as u64 || next_rows > MAX_CAPTURE_ROWS as u64 {
            self.diagnostics.capture_row_overflows = bump_exec(self.diagnostics.capture_row_overflows);
            return Err(CaptureError::RowOverflow);
        }
        if payload_bytes > MAX_CAPTURE_PAYLOAD_BYTES - self.total_payload_bytes {
            return Err(CaptureError::PayloadTooLarge);
        }
        if data.block_index != self.expected_next_block {
            self.diagnostics.capture_reordered_chunks = bump_exec(self.diagnostics.capture_reordered_chunks);
        }
        let next_index = bump_exec(data.block_index);
        if next_index > self.expected_next_block {
            self.expected_next_block = next_index;
        }
        self.total_rows = next_rows as u32;
        self.total_payload_bytes = self.total_payload_bytes + payload_bytes;
        let ghost d = data@;
        let ghost old_blocks = data_views(self.blocks@);
        self.blocks.insert(pos, data);
        proof {
            assert(data_views(self.blocks@) =~= old_blocks.insert(pos as int, d));
            lemma_insert_sorted(old_blocks, d, pos as int);
            lemma_blocks_ok_insert(old_blocks, d, pos as int);
        }
        if !self.continuous() {
            self.diagnostics.capture_row_discontinuities = bump_exec(self.diagnostics.capture_row_discontinuities);
            return Err(CaptureError::RowDiscontinuity);
        }
        Ok(())
    }
}

proof fn lemma_count_missing_nonneg(blocks: Seq<CaptureDataV>, n: int)
    ensures
        count_missing(blocks, n) >= 0,
    decreases n,
{
    if n > 0 {
        lemma_count_missing_nonneg(blocks, n - 1);
    }
}

impl CaptureAssembler {
    /// Counts the block indices below `n` that are not buffered.
    fn note_missing(&mut self, n: u32)
        requires
            strictly_sorted(old(self)@.blocks),
        ensures
            final(self)@ == with_diag(
                old(self)@,
                CaptureDiagnostics {
                    capture_missing_chunks: sat_add(old(self)@.diagnostics.capture_missing_chunks, count_missing(old(self)@.blocks, n as int)),
                    ..old(self)@.diagnostics
                },
            ),
    {
        let ghost s = self@;
        let mut k: u32 = 0;
        while k < n
            invariant
                k <= n,
                strictly_sorted(self@.blocks),
                self@ == with_diag(
                    s,
                    CaptureDiagnostics {
                        capture_missing_chunks: sat_add(s.diagnostics.capture_missing_chunks, count_missing(s.blocks, k as int)),
                        ..s.diagnostics
                    },
                ),
            decreases n - k,
        {
            let (present, _) = self.locate(k);
            proof {
                assert(count_missing(s.blocks, k + 1) == count_missing(s.blocks, k as int) + if has_index(s.blocks, k) {
                    0int
                } else {
                    1int
                });
                lemma_count_missing_nonneg(s.blocks, k as int);
            }
            if !present {
                self.diagnostics.capture_missing_chunks = bump_exec(self.diagnostics.capture_missing_chunks);
            }
            k = k + 1;
        }
    }

    /// The checks of `finish`, without the release of the buffers.
    #[verifier::rlimit(60)]
    #[verifier::spinoff_prover]
    fn finish_inner(&mut self, end: CaptureEnd) -> (r: Result<AssembledCapture, CaptureError>)
        requires
            assembler_wf(old(self)@),
        ensures
            final(self)@.diagnostics == spec_finish(old(self)@, end).0,
            match r {
                Ok(c) => spec_finish(old(self)@, end).1 is None && old(self)@.begin == Some(c.begin)
                    && batch_views(c.blocks@) == batches_of(old(self)@.blocks) && c.diagnostics
                    == spec_finish(old(self)@, end).0,
                Err(e) => spec_finish(old(self)@, end).1 == Some(e),
            },
    {
        let ghost s = self@;
        let begin = match self.begin {
            Some(b) => b,
            None => {
                return Err(CaptureError::NotStarted);
            },
        };
        if end.capture_id != begin.capture_id {
            return Err(CaptureError::CaptureIdMismatch);
        }
        if end.state != CaptureState::Complete {
            return Err(CaptureError::NonSuccessState);
        }
        if end.total_blocks > MAX_CAPTURE_BLOCKS {
            return Err(CaptureError::TooManyBlocks);
        }
        self.note_missing(end.total_blocks);
        let sample_count = self.total_rows;
        if end.uploaded_rows != sample_count || end.dropped_rows != 0 {
            return Err(CaptureError::RowOverflow);
        }
        if self.blocks.len() != end.total_blocks as usize || sample_count != end.total_samples
            || sample_count != begin.row_count {
            return Err(CaptureError::TotalsMismatch);
        }
        if self.diagnostics.capture_missing_chunks != 0 {
            return Err(CaptureError::MissingChunks);
        }
        if !self.continuous() {
            self.diagnostics.capture_row_discontinuities = bump_exec(self.diagnostics.capture_row_discontinuities);
            return Err(CaptureError::RowDiscontinuity);
        }
        let n = self.blocks.len();
        if n == 0 {
            return Err(CaptureError::RowDiscontinuity);
        }
        assert(self@.blocks[0] == self.blocks@[0]@);
        assert(self@.blocks.last() == self.blocks@[n - 1]@);
        assert(block_ok(self@.blocks[0]) && block_ok(self@.blocks[n - 1]));
        let first = self.blocks[0].batch.row_metadata[0].row_sequence;
        let last_rows = &self.blocks[n - 1].batch.row_metadata;
        let last = last_rows[last_rows.len() - 1].row_sequence;
        if begin.trigger_row_seq < first || begin.trigger_row_seq > last {
            return Err(CaptureError::RowDiscontinuity);
        }
        let actual = match capture_integrity_summary(begin.capture_id, self.blocks.as_slice()) {
            Ok(c) => c,
            Err(_) => {
                return Err(CaptureError::IntegrityMismatch);
            },
        };
        if end.integrity_summary != actual {
            self.diagnostics.capture_integrity_mismatches = bump_exec(self.diagnostics.capture_integrity_mismatches);
            return Err(CaptureError::IntegrityMismatch);
        }
        self.diagnostics.capture_complete = true;
        let ghost all = self@.blocks;
        let mut taken: Vec<CaptureData> = Vec::new();
        std::mem::swap(&mut taken, &mut self.blocks);
        let mut out: Vec<StreamSampleBatch> = Vec::new();
        while taken.len() > 0
            invariant
                batch_views(out@) + batches_of(data_views(taken@)) == batches_of(all),
            decreases taken.len(),
        {
            let ghost before = taken@;
            let d = taken.remove(0);
            proof {
                assert(data_views(taken@) =~= data_views(before).drop_first());
                assert(batches_of(data_views(before)) =~= seq![d.batch@] + batches_of(data_views(taken@)));
            }
            let ghost out_before = out@;
            out.push(d.batch);
            proof {
                assert(batch_views(out@) =~= batch_views(out_before).push(d.batch@));
                assert(batch_views(out@) + batches_of(data_views(taken@)) =~= batch_views(out_before) + (
                seq![d.batch@] + batches_of(data_views(taken@))));
            }
        }
        assert(batches_of(data_views(taken@)) =~= Seq::<StreamSampleBatchV>::empty());
        assert(batch_views(out@) =~= batches_of(all));
        Ok(AssembledCapture { begin, blocks: out, diagnostics: self.diagnostics })
    }

    /// Ends the capture.  Whatever the outcome, the buffered blocks are
    /// released; on success the blocks' batches come back in block order.
    pub fn finish(&mut self, end: CaptureEnd) -> (r: Result<AssembledCapture, CaptureError>)
        requires
            assembler_wf(old(self)@),
        ensures
            released(final(self)@),
            assembler_wf(final(self)@),
            final(self)@.diagnostics == spec_finish(old(self)@, end).0,
            match r {
                Ok(c) => spec_finish(old(self)@, end).1 is None && old(self)@.begin == Some(c.begin)
                    && batch_views(c.blocks@) == batches_of(old(self)@.blocks) && c.diagnostics
                    == spec_finish(old(self)@, end).0,
                Err(e) => spec_finish(old(self)@, end).1 == Some(e),
            },
    {
        let result = self.finish_inner(end);
        self.release_buffers();
        result
    }

    /// The device reset: buffers are released and the capture is not
    /// complete.
    pub fn device_reset(&mut self)
        ensures
            released(final(self)@),
            assembler_wf(final(self)@),
            final(self)@.diagnostics == (CaptureDiagnostics { capture_complete: false, ..old(self)@.diagnostics }),
    {
        self.release_buffers();
        self.diagnostics.capture_complete = false;
    }

    pub fn diagnostics(&self) -> (r: &CaptureDiagnostics)
        ensures
            *r == self@.diagnostics,
    {
        &self.diagnostics
    }

    pub fn buffered_block_count(&self) -> (r: usize)
        ensures
            r == self@.blocks.len(),
    {
        self.blocks.len()
    }

    pub fn buffered_payload_bytes(&self) -> (r: usize)
        ensures
            r == self@.total_payload_bytes,
    {
        self.total_payload_bytes
    }
}

// ---------------------------------------------------------------------------
// R2 assembler with an incremental integrity summary
// ---------------------------------------------------------------------------

/// Adds a block's payload to the bytes already buffered, with room for the
/// four capture-id bytes of the integrity summary, or refuses it: an
/// overflowing length is `PayloadLengthOverflow`, a total beyond the 64 MiB
/// capture limit is `PayloadTooLarge`.
pub fn checked_r2_capture_payload_total(current: usize, block: usize) -> (r: Result<usize, CaptureError>)
    ensures
        match r {
            Ok(n) => n == current + block && 4 + current + block <= MAX_CAPTURE_PAYLOAD_BYTES,
            Err(e) => if 4 + current + block > usize::MAX {
                e == CaptureError::PayloadLengthOverflow
            } else {
                e == CaptureError::PayloadTooLarge && 4 + current + block > MAX_CAPTURE_PAYLOAD_BYTES
            },
        },
{
    let buffered = match current.checked_add(block) {
        Some(v) => v,
        None => {
            return Err(CaptureError::PayloadLengthOverflow);
        },
    };
    let integrity_input = match buffered.checked_add(4) {
        Some(v) => v,
        None => {
            return Err(CaptureError::PayloadLengthOverflow);
        },
    };
    if integrity_input > MAX_CAPTURE_PAYLOAD_BYTES {
        return Err(CaptureError::PayloadTooLarge);
    }
    Ok(buffered)
}

/// The negotiated identity every R2 block of a capture must carry.
#[derive(Clone, Copy, Debug, PartialEq, Eq, Structural)]
pub struct ExpectedStream {
    pub stream_id: u16,
    pub stream_revision: u32,
    pub domain: SampleDomain,
    pub capture_phase: CapturePhase,
    pub consistency_group: u16,
}

pub open spec fn stream_matches(e: ExpectedStream, b: StreamSampleBatchR2V) -> bool {
    &&& b.stream_id == e.stream_id
    &&& b.stream_revision == e.stream_revision
    &&& b.domain == e.domain
    &&& b.capture_phase == e.capture_phase
    &&& b.consistency_group == e.consistency_group
}

struct CaptureBlockR2 {
    data: CaptureDataR2,
    encoded_payload: Option<Vec<u8>>,
}

/// A block keeps its encoded payload exactly until the summary absorbs it.
spec fn block_payload_ok(b: CaptureBlockR2, next_crc_block: u32) -> bool {
    &&& (b.encoded_payload is Some <==> b.data.block_index >= next_crc_block)
    &&& (b.encoded_payload matches Some(p) ==> p@ == enc_capture_data_r2(b.data@))
}

pub struct CaptureAssemblerR2 {
    begin: Option<CaptureBegin>,
    blocks: Vec<CaptureBlockR2>,
    expected_stream: Option<ExpectedStream>,
    expected_next_block: u32,
    next_crc_block: u32,
    crc: Crc32c,
    total_rows: u32,
    total_payload_bytes: usize,
    diagnostics: CaptureDiagnostics,
}

/// Mathematical state of an R2 assembler; `crc` holds the bytes absorbed by
/// the incremental integrity summary.
pub struct AssemblerR2View {
    pub begin: Option<CaptureBegin>,
    pub blocks: Seq<CaptureDataR2V>,
    pub expected_stream: Option<ExpectedStream>,
    pub expected_next_block: u32,
    pub next_crc_block: u32,
    pub crc: Seq<u8>,
    pub total_rows: u32,
    pub total_payload_bytes: usize,
    pub diagnostics: CaptureDiagnostics,
}

impl View for CaptureAssemblerR2 {
    type V = AssemblerR2View;

    closed spec fn view(&self) -> AssemblerR2View {
        AssemblerR2View {
            begin: self.begin,
            blocks: self.blocks@.map_values(|b: CaptureBlockR2| b.data@),
            expected_stream: self.expected_stream,
            expected_next_block: self.expected_next_block,
            next_crc_block: self.next_crc_block,
            crc: self.crc@,
            total_rows: self.total_rows,
            total_payload_bytes: self.total_payload_bytes,
            diagnostics: self.diagnostics,
        }
    }
}

pub open spec fn has_index_r2(blocks: Seq<CaptureDataR2V>, idx: u32) -> bool {
    exists|i: int| 0 <= i < blocks.len() && (#[trigger] blocks[i]).block_index == idx
}

pub open spec fn sorted_r2(blocks: Seq<CaptureDataR2V>) -> bool {
    forall|i: int, j: int| 0 <= i < j < blocks.len() ==> blocks[i].block_index < blocks[j].block_index
}

pub open spec fn block_r2_ok(d: CaptureDataR2V) -> bool {
    &&& batch_r2_encodable(d.batch)
    &&& 1 <= d.batch.row_count <= MAX_CAPTURE_BLOCK_ROWS
    &&& d.block_index < MAX_CAPTURE_BLOCKS
}

pub open spec fn rows_of_r2(blocks: Seq<CaptureDataR2V>) -> int
    decreases blocks.len(),
{
    if blocks.len() == 0 {
        0
    } else {
        rows_of_r2(blocks.drop_last()) + blocks.last().batch.row_count
    }
}

pub open spec fn bytes_of_r2(blocks: Seq<CaptureDataR2V>) -> int
    decreases blocks.len(),
{
    if blocks.len() == 0 {
        0
    } else {
        bytes_of_r2(blocks.drop_last()) + enc_capture_data_r2(blocks.last()).len()
    }
}

/// The end of the run of consecutive block indices present from `c` on.
pub open spec fn crc_frontier(blocks: Seq<CaptureDataR2V>, c: u32) -> u32
    decreases MAX_CAPTURE_BLOCKS - c,
{
    if c < MAX_CAPTURE_BLOCKS && has_index_r2(blocks, c) {
        crc_frontier(blocks, (c + 1) as u32)
    } else {
        c
    }
}

/// The R2 buffers are consistent; during a capture the summary has absorbed
/// the capture id and the payloads of blocks `0..next_crc_block`, which are
/// exactly the first buffered blocks, and block `next_crc_block` has not
/// arrived.
pub open spec fn assembler_r2_wf(s: AssemblerR2View) -> bool {
    &&& sorted_r2(s.blocks)
    &&& forall|i: int| 0 <= i < s.blocks.len() ==> block_r2_ok(#[trigger] s.blocks[i])
    &&& s.total_rows == rows_of_r2(s.blocks)
    &&& s.total_payload_bytes == bytes_of_r2(s.blocks)
    &&& 4 + s.total_payload_bytes <= MAX_CAPTURE_PAYLOAD_BYTES
    &&& s.next_crc_block <= s.blocks.len()
    &&& forall|i: int| 0 <= i < s.next_crc_block ==> (#[trigger] s.blocks[i]).block_index == i
    &&& !has_index_r2(s.blocks, s.next_crc_block)
    &&& match s.begin {
        Some(b) => begin_ok(b) && s.total_rows <= b.row_count && s.crc == le32(b.capture_id) + enc_blocks_r2(
            s.blocks.take(s.next_crc_block as int),
        ),
        None => s.blocks.len() == 0 && s.total_rows == 0 && s.next_crc_block == 0,
    }
}

impl CaptureAssemblerR2 {
    /// The assembler's consistency: the model's and the retained payloads'.
    pub closed spec fn well_formed(&self) -> bool {
        &&& assembler_r2_wf(self@)
        &&& self.crc.wf()
        &&& forall|i: int| 0 <= i < self.blocks@.len() ==> block_payload_ok(#[trigger] self.blocks@[i], self.next_crc_block)
    }

    /// What a well-formed assembler keeps: one block per block index in
    /// index order, the buffered rows and payload bytes summed over those
    /// blocks, and both within the capture limits.
    pub proof fn lemma_well_formed_limits(&self)
        requires
            self.well_formed(),
        ensures
            assembler_r2_wf(self@),
            sorted_r2(self@.blocks),
            self@.total_rows == rows_of_r2(self@.blocks),
            self@.total_payload_bytes == bytes_of_r2(self@.blocks),
            4 + self@.total_payload_bytes <= MAX_CAPTURE_PAYLOAD_BYTES,
            self@.total_rows <= MAX_CAPTURE_ROWS,
    {
    }
}

/// The R2 state with no capture in progress.
pub open spec fn released_r2(s: AssemblerR2View) -> bool {
    &&& s.begin is None
    &&& s.blocks.len() == 0
    &&& s.expected_stream is None
    &&& s.expected_next_block == 0
    &&& s.next_crc_block == 0
    &&& s.crc == Seq::<u8>::empty()
    &&& s.total_rows == 0
    &&& s.total_payload_bytes == 0
}

pub open spec fn with_diag_r2(s: AssemblerR2View, d: CaptureDiagnostics) -> AssemblerR2View {
    AssemblerR2View { diagnostics: d, ..s }
}

/// `d` placed among blocks kept in ascending block order.
pub open spec fn insert_sorted_r2(blocks: Seq<CaptureDataR2V>, d: CaptureDataR2V) -> Seq<CaptureDataR2V>
    decreases blocks.len(),
{
    if blocks.len() == 0 {
        seq![d]
    } else if blocks.last().block_index < d.block_index {
        blocks.push(d)
    } else {
        insert_sorted_r2(blocks.drop_last(), d).push(blocks.last())
    }
}

pub open spec fn first_row_r2(d: CaptureDataR2V) -> u64 {
    d.batch.row_metadata[0].row_sequence
}

pub open spec fn last_row_r2(d: CaptureDataR2V) -> u64 {
    d.batch.row_metadata.last().row_sequence
}

/// `b`'s rows are continued by `a`'s.
pub open spec fn continues(a: CaptureDataR2V, b: CaptureDataR2V) -> bool {
    last_row_r2(a) < u64::MAX && last_row_r2(a) + 1 == first_row_r2(b)
}

/// The buffered block just before `d` in block order does not lead into it.
pub open spec fn predecessor_breaks(blocks: Seq<CaptureDataR2V>, d: CaptureDataR2V) -> bool {
    exists|i: int|
        0 <= i < blocks.len() && (#[trigger] blocks[i]).block_index + 1 == d.block_index && !continues(blocks[i], d)
}

/// The buffered block just after `d` in block order does not follow it.
pub open spec fn successor_breaks(blocks: Seq<CaptureDataR2V>, d: CaptureDataR2V) -> bool {
    exists|i: int|
        0 <= i < blocks.len() && (#[trigger] blocks[i]).block_index == d.block_index + 1 && !continues(d, blocks[i])
}

pub open spec fn accepted_r2(s: AssemblerR2View, d: CaptureDataR2V) -> AssemblerR2View {
    let blocks = insert_sorted_r2(s.blocks, d);
    let c = crc_frontier(blocks, s.next_crc_block);
    AssemblerR2View {
        begin: s.begin,
        blocks: blocks,
        expected_stream: s.expected_stream,
        expected_next_block: max_u32(s.expected_next_block, bump(d.block_index)),
        next_crc_block: c,
        crc: le32(s.begin->Some_0.capture_id) + enc_blocks_r2(blocks.take(c as int)),
        total_rows: (s.total_rows + d.batch.row_count) as u32,
        total_payload_bytes: (s.total_payload_bytes + enc_capture_data_r2(d).len()) as usize,
        diagnostics: if d.block_index != s.expected_next_block {
            CaptureDiagnostics { capture_reordered_chunks: bump(s.diagnostics.capture_reordered_chunks), ..s.diagnostics }
        } else {
            s.diagnostics
        },
    }
}

/// What the R2 `push` does to the state, and the refusal if it refuses the
/// block.
pub open spec fn spec_push_r2(s: AssemblerR2View, d: CaptureDataR2V) -> (AssemblerR2View, Option<CaptureError>) {
    if !batch_r2_encodable(d.batch) {
        (s, Some(CaptureError::DescriptorMismatch))
    } else {
        match s.begin {
            None => (s, Some(CaptureError::NotStarted)),
            Some(b) => if d.capture_id != b.capture_id || d.batch.stream_id != b.stream_id {
                (with_diag_r2(s, mismatch(s.diagnostics)), Some(CaptureError::DescriptorMismatch))
            } else if d.block_index >= MAX_CAPTURE_BLOCKS {
                (
                    with_diag_r2(s, CaptureDiagnostics { capture_too_many_blocks: bump(s.diagnostics.capture_too_many_blocks), ..s.diagnostics }),
                    Some(CaptureError::TooManyBlocks),
                )
            } else if d.batch.row_count == 0 || d.batch.row_count > MAX_CAPTURE_BLOCK_ROWS {
                (
                    with_diag_r2(s, CaptureDiagnostics { capture_row_overflows: bump(s.diagnostics.capture_row_overflows), ..s.diagnostics }),
                    Some(CaptureError::BlockTooLarge),
                )
            } else if has_index_r2(s.blocks, d.block_index) {
                (
                    with_diag_r2(s, CaptureDiagnostics { capture_duplicate_chunks: bump(s.diagnostics.capture_duplicate_chunks), ..s.diagnostics }),
                    None,
                )
            } else {
                match s.expected_stream {
                    None => (s, Some(CaptureError::DescriptorMismatch)),
                    Some(e) => if !stream_matches(e, d.batch) {
                        (with_diag_r2(s, mismatch(s.diagnostics)), Some(CaptureError::DescriptorMismatch))
                    } else if s.total_rows + d.batch.row_count > b.row_count || s.total_rows + d.batch.row_count
                        > MAX_CAPTURE_ROWS {
                        (
                            with_diag_r2(s, CaptureDiagnostics { capture_row_overflows: bump(s.diagnostics.capture_row_overflows), ..s.diagnostics }),
                            Some(CaptureError::RowOverflow),
                        )
                    } else if 4 + s.total_payload_bytes + enc_capture_data_r2(d).len() > usize::MAX {
                        (s, Some(CaptureError::PayloadLengthOverflow))
                    } else if 4 + s.total_payload_bytes + enc_capture_data_r2(d).len() > MAX_CAPTURE_PAYLOAD_BYTES {
                        (s, Some(CaptureError::PayloadTooLarge))
                    } else if predecessor_breaks(s.blocks, d) || successor_breaks(s.blocks, d) {
                        (
                            with_diag_r2(s, CaptureDiagnostics { capture_row_discontinuities: bump(s.diagnostics.capture_row_discontinuities), ..s.diagnostics }),
                            Some(CaptureError::RowDiscontinuity),
                        )
                    } else {
                        (accepted_r2(s, d), None)
                    },
                }
            },
        }
    }
}

// --- R2 lemmas ----------------------------------------------------------------

#[verifier::rlimit(60)]
#[verifier::spinoff_prover]
proof fn lemma_insert_sorted_r2(blocks: Seq<CaptureDataR2V>, d: CaptureDataR2V, pos: int)
    requires
        sorted_r2(blocks),
        0 <= pos <= blocks.len(),
        forall|i: int| 0 <= i < pos ==> (#[trigger] blocks[i]).block_index < d.block_index,
        forall|i: int| pos <= i < blocks.len() ==> (#[trigger] blocks[i]).block_index > d.block_index,
    ensures
        insert_sorted_r2(blocks, d) == blocks.insert(pos, d),
        sorted_r2(blocks.insert(pos, d)),
        rows_of_r2(insert_sorted_r2(blocks, d)) == rows_of_r2(blocks) + d.batch.row_count,
        bytes_of_r2(insert_sorted_r2(blocks, d)) == bytes_of_r2(blocks) + enc_capture_data_r2(d).len(),
    decreases blocks.len(),
{
    if blocks.len() == 0 {
        assert(seq![d] =~= blocks.insert(pos, d));
        assert(seq![d].drop_last() =~= Seq::<CaptureDataR2V>::empty());
        assert(seq![d].last() == d);
        assert(rows_of_r2(seq![d]) == rows_of_r2(seq![d].drop_last()) + d.batch.row_count);
        assert(bytes_of_r2(seq![d]) == bytes_of_r2(seq![d].drop_last()) + enc_capture_data_r2(d).len());
    } else if pos == blocks.len() {
        assert(blocks[blocks.len() - 1].block_index < d.block_index);
        assert(blocks.push(d) =~= blocks.insert(pos, d));
        assert(blocks.push(d).drop_last() =~= blocks);
        assert(blocks.push(d).last() == d);
        assert(rows_of_r2(blocks.push(d)) == rows_of_r2(blocks) + d.batch.row_count);
        assert(bytes_of_r2(blocks.push(d)) == bytes_of_r2(blocks) + enc_capture_data_r2(d).len());
    } else {
        let init = blocks.drop_last();
        assert forall|i: int| 0 <= i < pos implies (#[trigger] init[i]).block_index < d.block_index by {
            assert(init[i] == blocks[i]);
        }
        assert forall|i: int| pos <= i < init.len() implies (#[trigger] init[i]).block_index > d.block_index by {
            assert(init[i] == blocks[i]);
        }
        assert(sorted_r2(init)) by {
            assert forall|i: int, j: int| 0 <= i < j < init.len() implies init[i].block_index < init[j].block_index by {
                assert(init[i] == blocks[i] && init[j] == blocks[j]);
            }
        }
        lemma_insert_sorted_r2(init, d, pos);
        assert(init.insert(pos, d).push(blocks.last()) =~= blocks.insert(pos, d));
        assert(blocks[blocks.len() - 1].block_index > d.block_index);
        assert(insert_sorted_r2(blocks, d) == insert_sorted_r2(init, d).push(blocks.last()));
        let x = insert_sorted_r2(blocks, d);
        assert(x.drop_last() =~= insert_sorted_r2(init, d));
        assert(x.last() == blocks.last());
        assert(rows_of_r2(x) == rows_of_r2(x.drop_last()) + x.last().batch.row_count);
        assert(bytes_of_r2(x) == bytes_of_r2(x.drop_last()) + enc_capture_data_r2(x.last()).len());
        assert(rows_of_r2(blocks) == rows_of_r2(init) + blocks.last().batch.row_count);
        assert(bytes_of_r2(blocks) == bytes_of_r2(init) + enc_capture_data_r2(blocks.last()).len());
    }
    let r = blocks.insert(pos, d);
    assert forall|i: int, j: int| 0 <= i < j < r.len() implies r[i].block_index < r[j].block_index by {
        if j < pos {
            assert(r[i] == blocks[i] && r[j] == blocks[j]);
        } else if j == pos {
            assert(r[j] == d);
            assert(r[i] == blocks[i]);
        } else if i < pos {
            assert(r[i] == blocks[i] && r[j] == blocks[j - 1]);
        } else if i == pos {
            assert(r[i] == d && r[j] == blocks[j - 1]);
        } else {
            assert(r[i] == blocks[i - 1] && r[j] == blocks[j - 1]);
        }
    }
}

proof fn lemma_enc_blocks_r2_take(blocks: Seq<CaptureDataR2V>, c: int)
    requires
        0 <= c < blocks.len(),
    ensures
        enc_blocks_r2(blocks.take(c + 1)) == enc_blocks_r2(blocks.take(c)) + enc_capture_data_r2(blocks[c]),
{
    assert(blocks.take(c + 1).drop_last() =~= blocks.take(c));
    assert(blocks.take(c + 1).last() == blocks[c]);
}

impl CaptureAssemblerR2 {
    fn release_buffers(&mut self)
        ensures
            released_r2(final(self)@),
            final(self)@.diagnostics == old(self)@.diagnostics,
            final(self).well_formed(),
    {
        self.begin = None;
        self.blocks = Vec::new();
        self.expected_stream = None;
        self.expected_next_block = 0;
        self.next_crc_block = 0;
        self.crc = Crc32c::new();
        self.total_rows = 0;
        self.total_payload_bytes = 0;
        assert(self@.blocks =~= Seq::<CaptureDataR2V>::empty());
    }

    /// Whether a block with index `idx` is buffered, and where a block with
    /// that index belongs in block order.
    fn locate(&self, idx: u32) -> (r: (bool, usize))
        requires
            sorted_r2(self@.blocks),
        ensures
            r.0 == has_index_r2(self@.blocks, idx),
            r.1 <= self@.blocks.len(),
            forall|i: int| 0 <= i < r.1 ==> (#[trigger] self@.blocks[i]).block_index < idx,
            !r.0 ==> forall|i: int| r.1 <= i < self@.blocks.len() ==> (#[trigger] self@.blocks[i]).block_index > idx,
    {
        let ghost v = self@.blocks;
        let mut i: usize = 0;
        while i < self.blocks.len()
            invariant
                v == self@.blocks,
                v.len() == self.blocks@.len(),
                sorted_r2(v),
                i <= v.len(),
                forall|k: int| 0 <= k < i ==> (#[trigger] v[k]).block_index < idx,
            decreases self.blocks.len() - i,
        {
            assert(v[i as int] == self.blocks@[i as int].data@);
            let bi = self.blocks[i].data.block_index;
            if bi == idx {
                return (true, i);
            }
            if bi > idx {
                assert forall|k: int| i <= k < v.len() implies (#[trigger] v[k]).block_index > idx by {
                    if k > i {
                        assert(v[i as int].block_index < v[k].block_index);
                    }
                }
                return (false, i);
            }
            i = i + 1;
        }
        (false, i)
    }
}

impl Default for CaptureAssemblerR2 {
    fn default() -> (a: Self)
        ensures
            released_r2(a@),
            a.well_formed(),
            a@.diagnostics == zero_diagnostics(),
    {
        let a = CaptureAssemblerR2 {
            begin: None,
            blocks: Vec::new(),
            expected_stream: None,
            expected_next_block: 0,
            next_crc_block: 0,
            crc: Crc32c::new(),
            total_rows: 0,
            total_payload_bytes: 0,
            diagnostics: CaptureDiagnostics::default(),
        };
        assert(a@.blocks =~= Seq::<CaptureDataR2V>::empty());
        a
    }
}

impl CaptureAssemblerR2 {
    /// The summary has absorbed the capture id `id` and the payloads of the
    /// blocks before `next_crc_block`, which are blocks `0..next_crc_block`;
    /// exactly the later blocks still hold their encoded payloads.
    closed spec fn crc_consistent(&self, id: u32) -> bool {
        &&& self.crc.wf()
        &&& self.next_crc_block <= self@.blocks.len()
        &&& forall|i: int| 0 <= i < self.next_crc_block ==> (#[trigger] self@.blocks[i]).block_index == i
        &&& self.crc@ == le32(id) + enc_blocks_r2(self@.blocks.take(self.next_crc_block as int))
        &&& forall|i: int| 0 <= i < self.blocks@.len() ==> block_payload_ok(#[trigger] self.blocks@[i], self.next_crc_block)
    }

    /// The fields outside the summary agree.
    closed spec fn same_but_summary(&self, other: &Self) -> bool {
        &&& self@.blocks == other@.blocks
        &&& self.begin == other.begin
        &&& self.expected_stream == other.expected_stream
        &&& self.expected_next_block == other.expected_next_block
        &&& self.total_rows == other.total_rows
        &&& self.total_payload_bytes == other.total_payload_bytes
        &&& self.diagnostics == other.diagnostics
    }

    /// Absorbs the payload of block `next_crc_block`.
    #[verifier::rlimit(60)]
    #[verifier::spinoff_prover]
    fn absorb_next(&mut self, Ghost(id): Ghost<u32>)
        requires
            old(self).crc_consistent(id),
            sorted_r2(old(self)@.blocks),
            old(self).next_crc_block < MAX_CAPTURE_BLOCKS,
            (old(self).next_crc_block as int) < old(self)@.blocks.len(),
            old(self)@.blocks[old(self).next_crc_block as int].block_index == old(self).next_crc_block,
        ensures
            final(self).crc_consistent(id),
            final(self).same_but_summary(old(self)),
            final(self).next_crc_block == old(self).next_crc_block + 1,
    {
        let c = self.next_crc_block as usize;
        let ghost v = self@.blocks;
        let ghost before = self.blocks@;
        assert(v[c as int] == before[c as int].data@);
        assert(block_payload_ok(before[c as int], c as u32));
        let blk = self.blocks.remove(c);
        let CaptureBlockR2 { data, encoded_payload } = blk;
        let payload = match encoded_payload {
            Some(p) => p,
            None => Vec::new(),
        };
        assert(payload@ == enc_capture_data_r2(v[c as int]));
        self.crc.update(payload.as_slice());
        let ghost nb = CaptureBlockR2 { data, encoded_payload: None };
        self.blocks.insert(c, CaptureBlockR2 { data, encoded_payload: None });
        self.next_crc_block = (c + 1) as u32;
        proof {
            assert(self.blocks@ =~= before.update(c as int, nb));
            assert(self@.blocks =~= v);
            lemma_enc_blocks_r2_take(v, c as int);
            assert(self.crc@ =~= le32(id) + enc_blocks_r2(v.take(c + 1)));
            assert forall|i: int| 0 <= i < self.blocks@.len() implies block_payload_ok(#[trigger] self.blocks@[i], self.next_crc_block) by {
                if i != c {
                    assert(self.blocks@[i] == before[i]);
                    assert(block_payload_ok(before[i], c as u32));
                    assert(v[i] == before[i].data@);
                    if i < c {
                        assert(v[i].block_index < v[c as int].block_index);
                    } else {
                        assert(v[c as int].block_index < v[i].block_index);
                    }
                }
            }
        }
    }

    /// Absorbs the payloads of the blocks that now continue the summary.
    fn advance_crc(&mut self, Ghost(id): Ghost<u32>)
        requires
            old(self).crc_consistent(id),
            sorted_r2(old(self)@.blocks),
            forall|i: int| 0 <= i < old(self)@.blocks.len() ==> block_r2_ok(#[trigger] old(self)@.blocks[i]),
        ensures
            final(self).crc_consistent(id),
            final(self).same_but_summary(old(self)),
            final(self).next_crc_block == crc_frontier(old(self)@.blocks, old(self).next_crc_block),
            !has_index_r2(final(self)@.blocks, final(self).next_crc_block),
    {
        let ghost v = self@.blocks;
        let ghost c0 = self.next_crc_block;
        while (self.next_crc_block as usize) < self.blocks.len()
            && self.blocks[self.next_crc_block as usize].data.block_index == self.next_crc_block
            invariant
                self.crc_consistent(id),
                self.same_but_summary(old(self)),
                self@.blocks == v,
                sorted_r2(v),
                forall|i: int| 0 <= i < v.len() ==> block_r2_ok(#[trigger] v[i]),
                crc_frontier(v, c0) == crc_frontier(v, self.next_crc_block),
            decreases self.blocks.len() - self.next_crc_block as usize,
        {
            let c = self.next_crc_block;
            assert(v[c as int] == self.blocks@[c as int].data@);
            assert(block_r2_ok(v[c as int]));
            assert(has_index_r2(v, c));
            self.absorb_next(Ghost(id));
            proof {
                assert(crc_frontier(v, c) == crc_frontier(v, (c + 1) as u32));
            }
        }
        proof {
            let c = self.next_crc_block;
            if (c as int) < v.len() {
                assert(v[c as int] == self.blocks@[c as int].data@);
            }
            lemma_frontier_stop(v, c);
        }
    }
}

proof fn lemma_frontier_stop(v: Seq<CaptureDataR2V>, c: u32)
    requires
        sorted_r2(v),
        c <= v.len(),
        forall|i: int| 0 <= i < c ==> (#[trigger] v[i]).block_index == i,
        !((c as int) < v.len() && v[c as int].block_index == c),
    ensures
        !has_index_r2(v, c),
        crc_frontier(v, c) == c,
{
    if has_index_r2(v, c) {
        let k = choose|k: int| 0 <= k < v.len() && (#[trigger] v[k]).block_index == c;
        if k < c {
            assert(v[k].block_index == k);
        } else if k > c {
            assert(v[c as int].block_index < v[k].block_index);
            if c > 0 {
                assert(v[c - 1].block_index == c - 1);
                assert(v[c - 1].block_index < v[c as int].block_index);
            }
        }
    }
}

/// The R2 state right after a CAPTURE_BEGIN is accepted.
pub open spec fn begun_r2(b: CaptureBegin, e: ExpectedStream) -> AssemblerR2View {
    AssemblerR2View {
        begin: Some(b),
        blocks: Seq::empty(),
        expected_stream: Some(e),
        expected_next_block: 0,
        next_crc_block: 0,
        crc: le32(b.capture_id),
        total_rows: 0,
        total_payload_bytes: 0,
        diagnostics: zero_diagnostics(),
    }
}

/// What the R2 `finish` does to the diagnostics, and the refusal if it
/// refuses the END.
pub open spec fn spec_finish_r2(s: AssemblerR2View, end: CaptureEnd) -> (CaptureDiagnostics, Option<CaptureError>) {
    let d0 = s.diagnostics;
    match s.begin {
        None => (d0, Some(CaptureError::NotStarted)),
        Some(b) => if end.capture_id != b.capture_id || end.state != CaptureState::Complete {
            (d0, Some(CaptureError::NonSuccessState))
        } else if end.total_blocks != s.blocks.len() || end.total_blocks > MAX_CAPTURE_BLOCKS
            || end.uploaded_rows != s.total_rows || end.total_samples != s.total_rows || end.dropped_rows
            != 0 || s.total_rows != b.row_count {
            (d0, Some(CaptureError::TotalsMismatch))
        } else if s.next_crc_block != end.total_blocks {
            (CaptureDiagnostics { capture_missing_chunks: bump(d0.capture_missing_chunks), ..d0 }, Some(CaptureError::MissingChunks))
        } else if spec_crc32c(s.crc) != end.integrity_summary {
            (
                CaptureDiagnostics { capture_integrity_mismatches: bump(d0.capture_integrity_mismatches), ..d0 },
                Some(CaptureError::IntegrityMismatch),
            )
        } else if s.blocks.len() == 0 || b.trigger_row_seq < first_row_r2(s.blocks[0]) || b.trigger_row_seq
            > last_row_r2(s.blocks.last()) {
            (d0, Some(CaptureError::RowDiscontinuity))
        } else {
            (CaptureDiagnostics { capture_complete: true, ..d0 }, None)
        },
    }
}

/// A completed R2 capture: the blocks' batches in block order.
#[derive(Clone, Debug, PartialEq, Eq)]
pub struct AssembledCaptureR2 {
    pub begin: CaptureBegin,
    pub blocks: Vec<StreamSampleBatchR2>,
    pub diagnostics: CaptureDiagnostics,
}

pub open spec fn batches_of_r2(blocks: Seq<CaptureDataR2V>) -> Seq<StreamSampleBatchR2V> {
    blocks.map_values(|d: CaptureDataR2V| d.batch)
}

pub open spec fn batch_r2_views(v: Seq<StreamSampleBatchR2>) -> Seq<StreamSampleBatchR2V> {
    v.map_values(|b: StreamSampleBatchR2| b@)
}

impl CaptureAssemblerR2 {
    /// Starts an R2 capture for the negotiated `stream`: a non-zero id,
    /// 1..=MAX_CAPTURE_ROWS rows, and the stream the BEGIN names.  The
    /// summary starts with the capture id.
    pub fn begin_with_descriptor(&mut self, begin: CaptureBegin, stream: &StreamDescriptorR2, stream_revision: u32) -> (r: Result<(), CaptureError>)
        requires
            old(self).well_formed(),
        ensures
            final(self).well_formed(),
            r is Ok <==> begin_ok(begin) && begin.stream_id == stream.stream_id,
            r is Ok ==> final(self)@ == begun_r2(
                begin,
                ExpectedStream {
                    stream_id: stream.stream_id,
                    stream_revision: stream_revision,
                    domain: stream.domain,
                    capture_phase: stream.capture_phase,
                    consistency_group: stream.consistency_group,
                },
            ),
            r matches Err(e) ==> e == CaptureError::DescriptorMismatch && final(self)@ == old(self)@,
    {
        if begin.capture_id == 0 || begin.row_count == 0 || begin.row_count > MAX_CAPTURE_ROWS
            || begin.stream_id != stream.stream_id {
            return Err(CaptureError::DescriptorMismatch);
        }
        self.release_buffers();
        let mut id_bytes: Vec<u8> = Vec::new();
        put_u32(&mut id_bytes, begin.capture_id);
        self.crc = Crc32c::new();
        self.crc.update(id_bytes.as_slice());
        assert(self.crc@ =~= le32(begin.capture_id));
        self.expected_stream = Some(
            ExpectedStream {
                stream_id: stream.stream_id,
                stream_revision,
                domain: stream.domain,
                capture_phase: stream.capture_phase,
                consistency_group: stream.consistency_group,
            },
        );
        self.begin = Some(begin);
        self.diagnostics = CaptureDiagnostics::default();
        assert(self@.blocks =~= Seq::<CaptureDataR2V>::empty());
        assert(self@.blocks.take(0) =~= Seq::<CaptureDataR2V>::empty());
        assert(self.crc@ =~= le32(begin.capture_id) + enc_blocks_r2(self@.blocks.take(0)));
        Ok(())
    }

    /// Every check of `push` before a block is buffered.  `Ok(None)` is a
    /// duplicate, counted; `Ok(Some(pos))` is the block's place in block order.
    #[verifier::rlimit(60)]
    #[verifier::spinoff_prover]
    fn push_checks(&mut self, data: &CaptureDataR2, payload_len: usize) -> (r: Result<Option<usize>, CaptureError>)
        requires
            old(self).well_formed(),
            batch_r2_encodable(data@.batch),
            payload_len == enc_capture_data_r2(data@).len(),
        ensures
            final(self).well_formed(),
            match r {
                Ok(None) => final(self)@ == spec_push_r2(old(self)@, data@).0 && spec_push_r2(old(self)@, data@).1 is None,
                Ok(Some(pos)) => final(self)@ == old(self)@ && spec_push_r2(old(self)@, data@) == (accepted_r2(old(self)@, data@), None::<CaptureError>)
                    && old(self)@.begin is Some && old(self)@.expected_stream is Some
                    && pos <= old(self)@.blocks.len()
                    && (forall|i: int| 0 <= i < pos ==> (#[trigger] old(self)@.blocks[i]).block_index < data@.block_index)
                    && (forall|i: int| pos <= i < old(self)@.blocks.len() ==> (#[trigger] old(self)@.blocks[i]).block_index > data@.block_index)
                    && block_r2_ok(data@) && !has_index_r2(old(self)@.blocks, data@.block_index)
                    && old(self)@.total_rows + data@.batch.row_count <= old(self)@.begin->Some_0.row_count
                    && 4 + old(self)@.total_payload_bytes + payload_len <= MAX_CAPTURE_PAYLOAD_BYTES,
                Err(e) => final(self)@ == spec_push_r2(old(self)@, data@).0 && spec_push_r2(old(self)@, data@).1 == Some(e),
            },
    {
        let begin = match self.begin {
            Some(b) => b,
            None => {
                return Err(CaptureError::NotStarted);
            },
        };
        if data.capture_id != begin.capture_id || data.batch.stream_id != begin.stream_id {
            self.diagnostics.capture_descriptor_mismatches = bump_exec(self.diagnostics.capture_descriptor_mismatches);
            return Err(CaptureError::DescriptorMismatch);
        }
        if data.block_index >= MAX_CAPTURE_BLOCKS {
            self.diagnostics.capture_too_many_blocks = bump_exec(self.diagnostics.capture_too_many_blocks);
            return Err(CaptureError::TooManyBlocks);
        }
        if data.batch.row_count == 0 || data.batch.row_count > MAX_CAPTURE_BLOCK_ROWS {
            self.diagnostics.capture_row_overflows = bump_exec(self.diagnostics.capture_row_overflows);
            return Err(CaptureError::BlockTooLarge);
        }
        let (present, pos) = self.locate(data.block_index);
        if present {
            self.diagnostics.capture_duplicate_chunks = bump_exec(self.diagnostics.capture_duplicate_chunks);
            return Ok(None);
        }
        let expected = match self.expected_stream {
            Some(e) => e,
            None => {
                return Err(CaptureError::DescriptorMismatch);
            },
        };
        if data.batch.stream_id != expected.stream_id || data.batch.stream_revision != expected.stream_revision
            || data.batch.domain != expected.domain || data.batch.capture_phase != expected.capture_phase
            || data.batch.consistency_group != expected.consistency_group {
            self.diagnostics.capture_descriptor_mismatches = bump_exec(self.diagnostics.capture_descriptor_mismatches);
            return Err(CaptureError::DescriptorMismatch);
        }
        let next_rows = self.total_rows as u64 + data.batch.row_count as u64;
        if next_rows > begin.row_count as u64 || next_rows > MAX_CAPTURE_ROWS as u64 {
            self.diagnostics.capture_row_overflows = bump_exec(self.diagnostics.capture_row_overflows);
            return Err(CaptureError::RowOverflow);
        }
        checked_r2_capture_payload_total(self.total_payload_bytes, payload_len)?;
        let ghost v = self@.blocks;
        let ghost d = data@;
        let first = data.batch.row_metadata[0].row_sequence;
        let last = data.batch.row_metadata[data.batch.row_metadata.len() - 1].row_sequence;
        if pos > 0 {
            let prev = &self.blocks[pos - 1].data;
            assert(v[pos - 1] == prev@);
            assert(block_r2_ok(v[pos - 1]));
            let prev_rows = &prev.batch.row_metadata;
            let prev_last = prev_rows[prev_rows.len() - 1].row_sequence;
            if prev.block_index + 1 == data.block_index && (prev_last == u64::MAX || prev_last + 1 != first) {
                proof {
                    assert(predecessor_breaks(v, d));
                }
                self.diagnostics.capture_row_discontinuities = bump_exec(self.diagnostics.capture_row_discontinuities);
                return Err(CaptureError::RowDiscontinuity);
            }
        }
        if pos < self.blocks.len() {
            let next = &self.blocks[pos].data;
            assert(v[pos as int] == next@);
            assert(block_r2_ok(v[pos as int]));
            let next_first = next.batch.row_metadata[0].row_sequence;
            if data.block_index + 1 == next.block_index && (last == u64::MAX || last + 1 != next_first) {
                proof {
                    assert(successor_breaks(v, d));
                }
                self.diagnostics.capture_row_discontinuities = bump_exec(self.diagnostics.capture_row_discontinuities);
                return Err(CaptureError::RowDiscontinuity);
            }
        }
        proof {
            assert(!predecessor_breaks(v, d)) by {
                if predecessor_breaks(v, d) {
                    let k = choose|k: int| 0 <= k < v.len() && (#[trigger] v[k]).block_index + 1 == d.block_index && !continues(v[k], d);
                    if k < pos - 1 {
                        assert(v[k].block_index < v[pos - 1].block_index);
                    }
                }
            }
            assert(!successor_breaks(v, d)) by {
                if successor_breaks(v, d) {
                    let k = choose|k: int| 0 <= k < v.len() && (#[trigger] v[k]).block_index == d.block_index + 1 && !continues(d, v[k]);
                    if k > pos {
                        assert(v[pos as int].block_index < v[k].block_index);
                    }
                }
            }
        }
        Ok(Some(pos))
    }

    /// Buffers an accepted block at `pos`, before the summary advances.
    #[verifier::rlimit(80)]
    #[verifier::spinoff_prover]
    fn insert_block(&mut self, data: CaptureDataR2, payload: Vec<u8>, pos: usize)
        requires
            old(self).well_formed(),
            old(self)@.begin is Some,
            payload@ == enc_capture_data_r2(data@),
            block_r2_ok(data@),
            !has_index_r2(old(self)@.blocks, data@.block_index),
            pos <= old(self)@.blocks.len(),
            forall|i: int| 0 <= i < pos ==> (#[trigger] old(self)@.blocks[i]).block_index < data@.block_index,
            forall|i: int| pos <= i < old(self)@.blocks.len() ==> (#[trigger] old(self)@.blocks[i]).block_index > data@.block_index,
            old(self)@.total_rows + data@.batch.row_count <= old(self)@.begin->Some_0.row_count,
            4 + old(self)@.total_payload_bytes + payload@.len() <= MAX_CAPTURE_PAYLOAD_BYTES,
        ensures
            final(self).crc_consistent(old(self)@.begin->Some_0.capture_id),
            sorted_r2(final(self)@.blocks),
            forall|i: int| 0 <= i < final(self)@.blocks.len() ==> block_r2_ok(#[trigger] final(self)@.blocks[i]),
            final(self)@ == (AssemblerR2View {
                blocks: insert_sorted_r2(old(self)@.blocks, data@),
                expected_next_block: max_u32(old(self)@.expected_next_block, bump(data@.block_index)),
                total_rows: (old(self)@.total_rows + data@.batch.row_count) as u32,
                total_payload_bytes: (old(self)@.total_payload_bytes + enc_capture_data_r2(data@).len()) as usize,
                diagnostics: if data@.block_index != old(self)@.expected_next_block {
                    CaptureDiagnostics { capture_reordered_chunks: bump(old(self)@.diagnostics.capture_reordered_chunks), ..old(self)@.diagnostics }
                } else {
                    old(self)@.diagnostics
                },
                ..old(self)@
            }),
            final(self)@.total_rows == rows_of_r2(final(self)@.blocks),
            final(self)@.total_payload_bytes == bytes_of_r2(final(self)@.blocks),
    {
        let ghost v = self@.blocks;
        let ghost d = data@;
        if data.block_index != self.expected_next_block {
            self.diagnostics.capture_reordered_chunks = bump_exec(self.diagnostics.capture_reordered_chunks);
        }
        let next_index = bump_exec(data.block_index);
        if next_index > self.expected_next_block {
            self.expected_next_block = next_index;
        }
        self.total_rows = self.total_rows + data.batch.row_count as u32;
        self.total_payload_bytes = self.total_payload_bytes + payload.len();
        let ghost before = self.blocks@;
        self.blocks.insert(pos, CaptureBlockR2 { data, encoded_payload: Some(payload) });
        proof {
            assert(self@.blocks =~= v.insert(pos as int, d));
            lemma_insert_sorted_r2(v, d, pos as int);
            assert forall|i: int| 0 <= i < self@.blocks.len() implies block_r2_ok(#[trigger] self@.blocks[i]) by {
                if i < pos {
                    assert(self@.blocks[i] == v[i]);
                } else if i > pos {
                    assert(self@.blocks[i] == v[i - 1]);
                }
            }
            assert(pos >= self.next_crc_block) by {
                if (pos as int) < self.next_crc_block {
                    assert(v[pos as int].block_index == pos);
                }
            }
            assert(d.block_index >= self.next_crc_block) by {
                if d.block_index < self.next_crc_block {
                    assert(v[d.block_index as int].block_index == d.block_index);
                }
            }
            assert(self@.blocks.take(self.next_crc_block as int) =~= v.take(self.next_crc_block as int));
            assert forall|i: int| 0 <= i < self.next_crc_block implies (#[trigger] self@.blocks[i]).block_index == i by {
                assert(self@.blocks[i] == v[i]);
            }
            assert forall|i: int| 0 <= i < self.blocks@.len() implies block_payload_ok(#[trigger] self.blocks@[i], self.next_crc_block) by {
                if i < pos {
                    assert(self.blocks@[i] == before[i]);
                } else if i > pos {
                    assert(self.blocks@[i] == before[i - 1]);
                }
            }
        }
    }

    /// Buffers an accepted block at `pos` and advances the summary.
    fn accept(&mut self, data: CaptureDataR2, payload: Vec<u8>, pos: usize)
        requires
            old(self).well_formed(),
            old(self)@.begin is Some,
            payload@ == enc_capture_data_r2(data@),
            block_r2_ok(data@),
            !has_index_r2(old(self)@.blocks, data@.block_index),
            pos <= old(self)@.blocks.len(),
            forall|i: int| 0 <= i < pos ==> (#[trigger] old(self)@.blocks[i]).block_index < data@.block_index,
            forall|i: int| pos <= i < old(self)@.blocks.len() ==> (#[trigger] old(self)@.blocks[i]).block_index > data@.block_index,
            old(self)@.total_rows + data@.batch.row_count <= old(self)@.begin->Some_0.row_count,
            4 + old(self)@.total_payload_bytes + payload@.len() <= MAX_CAPTURE_PAYLOAD_BYTES,
        ensures
            final(self).well_formed(),
            final(self)@ == accepted_r2(old(self)@, data@),
    {
        let ghost id = self@.begin->Some_0.capture_id;
        self.insert_block(data, payload, pos);
        self.advance_crc(Ghost(id));
    }

    /// Buffers one CAPTURE_DATA_R2 block; see `spec_push_r2` for every
    /// outcome.  The block's encoded payload joins the integrity summary as
    /// soon as every earlier block has arrived.
    pub fn push(&mut self, data: CaptureDataR2) -> (r: Result<(), CaptureError>)
        requires
            old(self).well_formed(),
        ensures
            final(self).well_formed(),
            final(self)@ == spec_push_r2(old(self)@, data@).0,
            match r {
                Ok(()) => spec_push_r2(old(self)@, data@).1 is None,
                Err(e) => spec_push_r2(old(self)@, data@).1 == Some(e),
            },
    {
        let payload = match encode_capture_data_r2_payload(&data) {
            Ok(p) => p,
            Err(_) => {
                return Err(CaptureError::DescriptorMismatch);
            },
        };
        match self.push_checks(&data, payload.len()) {
            Ok(None) => Ok(()),
            Ok(Some(pos)) => {
                self.accept(data, payload, pos);
                Ok(())
            },
            Err(e) => Err(e),
        }
    }
}

impl CaptureAssemblerR2 {
    /// The checks of `finish`, without the release of the buffers.
    #[verifier::rlimit(60)]
    #[verifier::spinoff_prover]
    fn finish_inner(&mut self, end: CaptureEnd) -> (r: Result<AssembledCaptureR2, CaptureError>)
        requires
            old(self).well_formed(),
        ensures
            final(self)@.diagnostics == spec_finish_r2(old(self)@, end).0,
            match r {
                Ok(c) => spec_finish_r2(old(self)@, end).1 is None && old(self)@.begin == Some(c.begin)
                    && batch_r2_views(c.blocks@) == batches_of_r2(old(self)@.blocks) && c.diagnostics
                    == spec_finish_r2(old(self)@, end).0,
                Err(e) => spec_finish_r2(old(self)@, end).1 == Some(e),
            },
    {
        let begin = match self.begin {
            Some(b) => b,
            None => {
                return Err(CaptureError::NotStarted);
            },
        };
        if end.capture_id != begin.capture_id || end.state != CaptureState::Complete {
            return Err(CaptureError::NonSuccessState);
        }
        if end.total_blocks as usize != self.blocks.len() || end.total_blocks > MAX_CAPTURE_BLOCKS
            || end.uploaded_rows != self.total_rows || end.total_samples != self.total_rows
            || end.dropped_rows != 0 || self.total_rows != begin.row_count {
            return Err(CaptureError::TotalsMismatch);
        }
        if self.next_crc_block != end.total_blocks {
            self.diagnostics.capture_missing_chunks = bump_exec(self.diagnostics.capture_missing_chunks);
            return Err(CaptureError::MissingChunks);
        }
        if self.crc.finalize() != end.integrity_summary {
            self.diagnostics.capture_integrity_mismatches = bump_exec(self.diagnostics.capture_integrity_mismatches);
            return Err(CaptureError::IntegrityMismatch);
        }
        let n = self.blocks.len();
        if n == 0 {
            return Err(CaptureError::RowDiscontinuity);
        }
        let ghost v = self@.blocks;
        assert(v[0] == self.blocks@[0].data@);
        assert(v.last() == self.blocks@[n - 1].data@);
        assert(block_r2_ok(v[0]) && block_r2_ok(v[n - 1]));
        let first = self.blocks[0].data.batch.row_metadata[0].row_sequence;
        let last_rows = &self.blocks[n - 1].data.batch.row_metadata;
        let last = last_rows[last_rows.len() - 1].row_sequence;
        if begin.trigger_row_seq < first || begin.trigger_row_seq > last {
            return Err(CaptureError::RowDiscontinuity);
        }
        self.diagnostics.capture_complete = true;
        let mut taken: Vec<CaptureBlockR2> = Vec::new();
        std::mem::swap(&mut taken, &mut self.blocks);
        let mut out: Vec<StreamSampleBatchR2> = Vec::new();
        while taken.len() > 0
            invariant
                batch_r2_views(out@) + batches_of_r2(taken@.map_values(|b: CaptureBlockR2| b.data@))
                    == batches_of_r2(v),
            decreases taken.len(),
        {
            let ghost before = taken@;
            let blk = taken.remove(0);
            let ghost rest = taken@.map_values(|b: CaptureBlockR2| b.data@);
            proof {
                assert(rest =~= before.map_values(|b: CaptureBlockR2| b.data@).drop_first());
                assert(batches_of_r2(before.map_values(|b: CaptureBlockR2| b.data@)) =~= seq![blk.data.batch@]
                    + batches_of_r2(rest));
            }
            let ghost out_before = out@;
            out.push(blk.data.batch);
            proof {
                assert(batch_r2_views(out@) =~= batch_r2_views(out_before).push(blk.data.batch@));
                assert(batch_r2_views(out@) + batches_of_r2(rest) =~= batch_r2_views(out_before) + (
                seq![blk.data.batch@] + batches_of_r2(rest)));
            }
        }
        assert(batches_of_r2(taken@.map_values(|b: CaptureBlockR2| b.data@)) =~= Seq::<StreamSampleBatchR2V>::empty());
        assert(batch_r2_views(out@) =~= batches_of_r2(v));
        Ok(AssembledCaptureR2 { begin, blocks: out, diagnostics: self.diagnostics })
    }

    /// Ends the capture.  Whatever the outcome, the buffered blocks are
    /// released; on success the blocks' batches come back in block order.
    pub fn finish(&mut self, end: CaptureEnd) -> (r: Result<AssembledCaptureR2, CaptureError>)
        requires
            old(self).well_formed(),
        ensures
            final(self).well_formed(),
            released_r2(final(self)@),
            final(self)@.diagnostics == spec_finish_r2(old(self)@, end).0,
            match r {
                Ok(c) => spec_finish_r2(old(self)@, end).1 is None && old(self)@.begin == Some(c.begin)
                    && batch_r2_views(c.blocks@) == batches_of_r2(old(self)@.blocks) && c.diagnostics
                    == spec_finish_r2(old(self)@, end).0,
                Err(e) => spec_finish_r2(old(self)@, end).1 == Some(e),
            },
    {
        let result = self.finish_inner(end);
        self.release_buffers();
        result
    }

    /// The device reset: buffers are released and the capture is not
    /// complete.
    pub fn device_reset(&mut self)
        ensures
            final(self).well_formed(),
            released_r2(final(self)@),
            final(self)@.diagnostics == (CaptureDiagnostics { capture_complete: false, ..old(self)@.diagnostics }),
    {
        self.release_buffers();
        self.diagnostics.capture_complete = false;
    }

    pub fn diagnostics(&self) -> (r: &CaptureDiagnostics)
        ensures
            *r == self@.diagnostics,
    {
        &self.diagnostics
    }

    pub fn buffered_block_count(&self) -> (r: usize)
        ensures
            r == self@.blocks.len(),
    {
        self.blocks.len()
    }

    pub fn buffered_rows(&self) -> (r: u32)
        ensures
            r == self@.total_rows,
    {
        self.total_rows
    }

    pub fn buffered_payload_bytes(&self) -> (r: usize)
        ensures
            r == self@.total_payload_bytes,
    {
        self.total_payload_bytes
    }
}

// ---------------------------------------------------------------------------
// Laws of completed captures
// ---------------------------------------------------------------------------

proof fn lemma_index_lower_bound(blocks: Seq<CaptureDataV>, i: int)
    requires
        0 <= i < blocks.len(),
        strictly_sorted(blocks),
    ensures
        blocks[i].block_index >= i,
    decreases i,
{
    if i > 0 {
        lemma_index_lower_bound(blocks, i - 1);
    }
}

proof fn lemma_exact_at(blocks: Seq<CaptureDataV>, i: int)
    requires
        0 <= i < blocks.len(),
        strictly_sorted(blocks),
        forall|v: u32| 0 <= v < blocks.len() ==> #[trigger] has_index(blocks, v),
    ensures
        blocks[i].block_index == i,
    decreases i,
{
    lemma_index_lower_bound(blocks, i);
    assert(has_index(blocks, i as u32));
    let p = choose|p: int| 0 <= p < blocks.len() && (#[trigger] blocks[p]).block_index == i as u32;
    if p < i {
        lemma_exact_at(blocks, p);
    } else if p > i {
        assert(blocks[i].block_index < blocks[p].block_index);
    }
}

proof fn lemma_count_missing_zero(blocks: Seq<CaptureDataV>, n: int)
    requires
        count_missing(blocks, n) == 0,
    ensures
        forall|v: u32| 0 <= v < n ==> #[trigger] has_index(blocks, v),
    decreases n,
{
    if n > 0 {
        lemma_count_missing_nonneg(blocks, n - 1);
        lemma_count_missing_zero(blocks, n - 1);
    }
}

/// Law: a V2 capture that `finish` accepts holds exactly the blocks
/// `0..total_blocks` in order, their rows continue each other, and together
/// they carry the rows CAPTURE_BEGIN announced.
pub proof fn lemma_v2_completed_capture(s: AssemblerView, end: CaptureEnd)
    requires
        assembler_wf(s),
        spec_finish(s, end).1 is None,
    ensures
        s.blocks.len() == end.total_blocks,
        forall|i: int| 0 <= i < s.blocks.len() ==> (#[trigger] s.blocks[i]).block_index == i,
        rows_continuous(s.blocks),
        rows_of(s.blocks) == s.begin->Some_0.row_count,
        end.integrity_summary == spec_crc32c(summary_input(s.begin->Some_0.capture_id, s.blocks)),
{
    let n = s.blocks.len() as int;
    lemma_count_missing_nonneg(s.blocks, end.total_blocks as int);
    lemma_count_missing_zero(s.blocks, n);
    assert forall|i: int| 0 <= i < s.blocks.len() implies (#[trigger] s.blocks[i]).block_index == i by {
        lemma_exact_at(s.blocks, i);
    }
}

/// Law: when an R2 capture is accepted, the summary the assembler built
/// incrementally, block by block as they became contiguous, is the summary
/// of the whole capture, and the capture holds exactly the blocks
/// `0..total_blocks` in order.
pub proof fn lemma_r2_incremental_summary(s: AssemblerR2View, end: CaptureEnd)
    requires
        assembler_r2_wf(s),
        spec_finish_r2(s, end).1 is None,
    ensures
        s.blocks.len() == end.total_blocks,
        forall|i: int| 0 <= i < s.blocks.len() ==> (#[trigger] s.blocks[i]).block_index == i,
        end.integrity_summary == spec_crc32c(summary_input_r2(s.begin->Some_0.capture_id, s.blocks)),
{
    let n = s.blocks.len() as int;
    assert(s.blocks.take(n) =~= s.blocks);
    lemma_sort_by_key_sorted(s.blocks, |d: CaptureDataR2V| d.block_index);
}


/// A block whose index is already buffered is only counted as a duplicate:
/// the push succeeds, the buffers and totals stay as they were, and only
/// the duplicate counter moves.
pub proof fn lemma_duplicate_block_r2(s: AssemblerR2View, d: CaptureDataR2V)
    requires
        s.begin matches Some(b) && d.capture_id == b.capture_id && d.batch.stream_id == b.stream_id,
        d.block_index < MAX_CAPTURE_BLOCKS,
        1 <= d.batch.row_count <= MAX_CAPTURE_BLOCK_ROWS,
        batch_r2_encodable(d.batch),
        has_index_r2(s.blocks, d.block_index),
    ensures
        spec_push_r2(s, d).1 is None,
        spec_push_r2(s, d).0.blocks == s.blocks,
        spec_push_r2(s, d).0.total_rows == s.total_rows,
        spec_push_r2(s, d).0.total_payload_bytes == s.total_payload_bytes,
        spec_push_r2(s, d).0.diagnostics == (CaptureDiagnostics {
            capture_duplicate_chunks: bump(s.diagnostics.capture_duplicate_chunks),
            ..s.diagnostics
        }),
{
}

// ---------------------------------------------------------------------------
// What an accepted capture is
// ---------------------------------------------------------------------------

/// `finish` accepts only the capture that began, whole and continuous:
/// every announced block arrived, the row counts of the begin, the blocks
/// and the end agree and nothing was dropped, the trigger row lies between
/// the first row of the first block and the last row of the last block,
/// and the end's integrity summary is the CRC of the capture's blocks; the
/// capture is then reported complete.
pub proof fn lemma_finish_accepts_only_whole_captures(s: AssemblerView, end: CaptureEnd)
    requires
        spec_finish(s, end).1 is None,
    ensures
        match s.begin {
            Some(b) => {
                &&& end.capture_id == b.capture_id
                &&& end.state == CaptureState::Complete
                &&& s.blocks.len() == end.total_blocks
                &&& s.blocks.len() > 0
                &&& s.total_rows == b.row_count
                &&& end.total_samples == s.total_rows
                &&& end.uploaded_rows == s.total_rows
                &&& end.dropped_rows == 0
                &&& rows_continuous(s.blocks)
                &&& s.blocks[0].batch.row_metadata[0].row_sequence <= b.trigger_row_seq
                &&& b.trigger_row_seq <= s.blocks.last().batch.row_metadata.last().row_sequence
                &&& end.integrity_summary == spec_crc32c(summary_input(b.capture_id, s.blocks))
            },
            None => false,
        },
        spec_finish(s, end).0.capture_complete,
{
}

/// The R2 `finish` accepts only the capture that began, whole: every
/// announced block arrived in order, the row counts of the begin, the blocks
/// and the end agree and nothing was dropped, the end's integrity summary is
/// the CRC of what was received, and the trigger row lies between the first
/// row of the first block and the last row of the last block.
pub proof fn lemma_finish_r2_accepts_only_whole_captures(s: AssemblerR2View, end: CaptureEnd)
    requires
        spec_finish_r2(s, end).1 is None,
    ensures
        match s.begin {
            Some(b) => {
                &&& end.capture_id == b.capture_id
                &&& end.state == CaptureState::Complete
                &&& s.blocks.len() == end.total_blocks
                &&& s.next_crc_block == end.total_blocks
                &&& s.blocks.len() > 0
                &&& s.total_rows == b.row_count
                &&& end.total_samples == s.total_rows
                &&& end.uploaded_rows == s.total_rows
                &&& end.dropped_rows == 0
                &&& s.blocks[0].batch.row_metadata[0].row_sequence <= b.trigger_row_seq
                &&& b.trigger_row_seq <= s.blocks.last().batch.row_metadata.last().row_sequence
                &&& end.integrity_summary == spec_crc32c(s.crc)
            },
            None => false,
        },
        spec_finish_r2(s, end).0.capture_complete,
{
}

} // verus!
