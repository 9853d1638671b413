//! R2 per-row metadata codecs.  `Explicit` writes every row in full;
//! `AffineWithOverrides` writes the first row's affine base (row and logical
//! sequences advance by fixed steps, source and applied sequences keep fixed
//! signed distances from the logical sequence, flags stay constant) and then
//! only the fields of the rows that depart from it.

use vstd::prelude::*;

use crate::codec::{enc_list, lemma_parse_list_fail, parse_list};
use crate::messages_v2::{decode_meta, f_meta, g_meta};
use crate::protocol::{invalid_error, ProtocolError};
use crate::reader::PayloadReader;
use crate::snapshot::{put_snapshot_meta, SnapshotMeta};
use crate::wire::{
    from_le16, from_le32, from_le64, le16, le32, le64, le_i64, lemma_i64_roundtrip, lemma_le16_roundtrip,
    lemma_le32_roundtrip, lemma_le64_roundtrip, put_i64, put_u16, put_u32, put_u64,
};

verus! {

pub const OVERRIDE_ROW_SEQUENCE: u16 = 1;

pub const OVERRIDE_LOGICAL_CYCLE: u16 = 2;

pub const OVERRIDE_SOURCE_SEQUENCE: u16 = 4;

pub const OVERRIDE_APPLIED_SEQUENCE: u16 = 8;

pub const OVERRIDE_VALID_FLAGS: u16 = 16;

pub const OVERRIDE_KNOWN_MASK: u16 = 31;

#[derive(Clone, Copy, Debug, PartialEq, Eq, Structural)]
pub enum MetadataEncodingR2 {
    AffineWithOverrides,
    Explicit,
}

impl MetadataEncodingR2 {
    pub open spec fn spec_code(self) -> u8 {
        match self {
            MetadataEncodingR2::AffineWithOverrides => 0,
            MetadataEncodingR2::Explicit => 1,
        }
    }

    pub open spec fn spec_from_code(b: u8) -> Option<MetadataEncodingR2> {
        if b == 0 {
            Some(MetadataEncodingR2::AffineWithOverrides)
        } else if b == 1 {
            Some(MetadataEncodingR2::Explicit)
        } else {
            None
        }
    }

    pub fn code(self) -> (r: u8)
        ensures
            r == self.spec_code(),
    {
        match self {
            MetadataEncodingR2::AffineWithOverrides => 0,
            MetadataEncodingR2::Explicit => 1,
        }
    }

    pub fn from_code(value: u8) -> (r: Result<MetadataEncodingR2, ProtocolError>)
        ensures
            match Self::spec_from_code(value) {
                Some(d) => r == Ok::<MetadataEncodingR2, ProtocolError>(d),
                None => r matches Err(e) && e is InvalidPayload,
            },
    {
        match value {
            0 => Ok(MetadataEncodingR2::AffineWithOverrides),
            1 => Ok(MetadataEncodingR2::Explicit),
            _ => Err(invalid_error("unknown R2 metadata encoding")),
        }
    }
}

// ---------------------------------------------------------------------------
// Checked arithmetic of the affine base
// ---------------------------------------------------------------------------

pub open spec fn in_u64(x: int) -> bool {
    0 <= x <= u64::MAX
}

pub open spec fn in_i64(x: int) -> bool {
    i64::MIN <= x <= i64::MAX
}

/// `first + step * offset`, or `LengthOverflow` when it leaves `u64`.
pub fn checked_affine(first: u64, step: u32, offset: u64) -> (r: Result<u64, ProtocolError>)
    ensures
        match r {
            Ok(v) => v == first + step * offset,
            Err(e) => !in_u64(first + step * offset) && e is LengthOverflow,
        },
{
    let s = step as u64;
    match s.checked_mul(offset) {
        Some(delta) => match first.checked_add(delta) {
            Some(v) => Ok(v),
            None => Err(ProtocolError::LengthOverflow),
        },
        None => {
            proof {
                assert(first + step * offset > u64::MAX) by (nonlinear_arith)
                    requires
                        s * offset > u64::MAX,
                        s == step,
                ;
            }
            Err(ProtocolError::LengthOverflow)
        },
    }
}

/// `value - base` as a signed distance, or `LengthOverflow` when it leaves
/// `i64`.
pub fn signed_delta(value: u64, base: u64) -> (r: Result<i64, ProtocolError>)
    ensures
        match r {
            Ok(v) => v == value - base,
            Err(e) => !in_i64(value - base) && e is LengthOverflow,
        },
{
    if value >= base {
        let d = value - base;
        if d > 0x7fff_ffff_ffff_ffffu64 {
            return Err(ProtocolError::LengthOverflow);
        }
        Ok(d as i64)
    } else {
        let d = base - value;
        if d > 0x8000_0000_0000_0000u64 {
            return Err(ProtocolError::LengthOverflow);
        }
        if d == 0x8000_0000_0000_0000u64 {
            Ok(i64::MIN)
        } else {
            Ok(-(d as i64))
        }
    }
}

/// `value + delta`, or `LengthOverflow` when it leaves `u64`.
pub fn add_signed(value: u64, delta: i64) -> (r: Result<u64, ProtocolError>)
    ensures
        match r {
            Ok(v) => v == value + delta,
            Err(e) => !in_u64(value + delta) && e is LengthOverflow,
        },
{
    if delta >= 0 {
        match value.checked_add(delta as u64) {
            Some(v) => Ok(v),
            None => Err(ProtocolError::LengthOverflow),
        }
    } else {
        let magnitude: u64 = if delta == i64::MIN {
            0x8000_0000_0000_0000u64
        } else {
            (-delta) as u64
        };
        match value.checked_sub(magnitude) {
            Some(v) => Ok(v),
            None => Err(ProtocolError::LengthOverflow),
        }
    }
}

// ---------------------------------------------------------------------------
// Affine model of a batch's rows
// ---------------------------------------------------------------------------

/// The rows' affine base and expected values.  `rows[0]` fixes the base.
pub open spec fn source_delta(rows: Seq<SnapshotMeta>) -> int {
    rows[0].source_sequence - rows[0].logical_cycle_sequence
}

pub open spec fn applied_delta(rows: Seq<SnapshotMeta>) -> int {
    rows[0].applied_sequence - rows[0].logical_cycle_sequence
}

pub open spec fn exp_row(rows: Seq<SnapshotMeta>, row_step: u32, i: int) -> int {
    rows[0].row_sequence + row_step * i
}

pub open spec fn exp_logical(rows: Seq<SnapshotMeta>, logical_step: u32, i: int) -> int {
    rows[0].logical_cycle_sequence + logical_step * i
}

/// Every expected value of every row fits the wire types: the affine form
/// of the rows can be written.
pub open spec fn affine_fits(rows: Seq<SnapshotMeta>, row_step: u32, logical_step: u32) -> bool {
    &&& rows.len() >= 1
    &&& in_i64(source_delta(rows))
    &&& in_i64(applied_delta(rows))
    &&& forall|i: int| 0 <= i < rows.len() ==> #[trigger] row_fits(rows, row_step, logical_step, i)
}

/// The predictions of row `i` fit the wire types.
pub open spec fn row_fits(rows: Seq<SnapshotMeta>, row_step: u32, logical_step: u32, i: int) -> bool {
    &&& in_u64(exp_row(rows, row_step, i))
    &&& in_u64(exp_logical(rows, logical_step, i))
    &&& in_u64(exp_logical(rows, logical_step, i) + source_delta(rows))
    &&& in_u64(exp_logical(rows, logical_step, i) + applied_delta(rows))
}

/// The row an affine base predicts at offset `i`.
pub open spec fn expected_meta(
    first_row: u64,
    row_step: u32,
    first_logical: u64,
    logical_step: u32,
    sd: i64,
    ad: i64,
    flags: u32,
    i: int,
) -> SnapshotMeta {
    SnapshotMeta {
        row_sequence: (first_row + row_step * i) as u64,
        logical_cycle_sequence: (first_logical + logical_step * i) as u64,
        source_sequence: (first_logical + logical_step * i + sd) as u64,
        applied_sequence: (first_logical + logical_step * i + ad) as u64,
        valid_flags: flags,
    }
}

pub open spec fn bit_if(c: bool, b: u16) -> u16 {
    if c {
        b
    } else {
        0
    }
}

/// The fields of `row` that depart from the affine prediction `e`.
pub open spec fn override_mask(row: SnapshotMeta, e: SnapshotMeta) -> u16 {
    bit_if(row.row_sequence != e.row_sequence, OVERRIDE_ROW_SEQUENCE) | bit_if(
        row.logical_cycle_sequence != e.logical_cycle_sequence,
        OVERRIDE_LOGICAL_CYCLE,
    ) | bit_if(row.source_sequence != e.source_sequence, OVERRIDE_SOURCE_SEQUENCE) | bit_if(
        row.applied_sequence != e.applied_sequence,
        OVERRIDE_APPLIED_SEQUENCE,
    ) | bit_if(row.valid_flags != e.valid_flags, OVERRIDE_VALID_FLAGS)
}

pub open spec fn has_flag(mask: u16, bit: u16) -> bool {
    mask & bit != 0
}

/// The override values of `row` for the fields in `mask`, in field order.
pub open spec fn enc_override_values(mask: u16, row: SnapshotMeta) -> Seq<u8> {
    (if has_flag(mask, OVERRIDE_ROW_SEQUENCE) {
        le64(row.row_sequence)
    } else {
        Seq::empty()
    }) + (if has_flag(mask, OVERRIDE_LOGICAL_CYCLE) {
        le64(row.logical_cycle_sequence)
    } else {
        Seq::empty()
    }) + (if has_flag(mask, OVERRIDE_SOURCE_SEQUENCE) {
        le64(row.source_sequence)
    } else {
        Seq::empty()
    }) + (if has_flag(mask, OVERRIDE_APPLIED_SEQUENCE) {
        le64(row.applied_sequence)
    } else {
        Seq::empty()
    }) + (if has_flag(mask, OVERRIDE_VALID_FLAGS) {
        le32(row.valid_flags)
    } else {
        Seq::empty()
    })
}

/// The affine prediction of row `i` of `rows` under the given steps.
pub open spec fn predicted(rows: Seq<SnapshotMeta>, row_step: u32, logical_step: u32, i: int) -> SnapshotMeta {
    expected_meta(
        rows[0].row_sequence,
        row_step,
        rows[0].logical_cycle_sequence,
        logical_step,
        source_delta(rows) as i64,
        applied_delta(rows) as i64,
        rows[0].valid_flags,
        i,
    )
}

/// Override records of rows `0..k`: offset, mask, values, for each row whose
/// mask is not zero.
pub open spec fn enc_overrides(rows: Seq<SnapshotMeta>, row_step: u32, logical_step: u32, k: int) -> Seq<u8>
    decreases k,
{
    if k <= 0 {
        Seq::empty()
    } else {
        let m = override_mask(rows[k - 1], predicted(rows, row_step, logical_step, k - 1));
        enc_overrides(rows, row_step, logical_step, k - 1) + if m == 0 {
            Seq::empty()
        } else {
            le16((k - 1) as u16) + le16(m) + enc_override_values(m, rows[k - 1])
        }
    }
}

pub open spec fn override_count(rows: Seq<SnapshotMeta>, row_step: u32, logical_step: u32, k: int) -> int
    decreases k,
{
    if k <= 0 {
        0
    } else {
        override_count(rows, row_step, logical_step, k - 1) + if override_mask(
            rows[k - 1],
            predicted(rows, row_step, logical_step, k - 1),
        ) == 0 {
            0int
        } else {
            1int
        }
    }
}

/// AFFINE_WITH_OVERRIDES metadata: the 48-byte base, then the overrides.
pub open spec fn enc_affine(rows: Seq<SnapshotMeta>, row_step: u32, logical_step: u32) -> Seq<u8> {
    le64(rows[0].row_sequence) + le32(row_step) + le64(rows[0].logical_cycle_sequence) + le32(
        logical_step,
    ) + le_i64(source_delta(rows) as i64) + le_i64(applied_delta(rows) as i64) + le32(
        rows[0].valid_flags,
    ) + le16(override_count(rows, row_step, logical_step, rows.len() as int) as u16) + le16(0)
        + enc_overrides(rows, row_step, logical_step, rows.len() as int)
}

/// The metadata section of a batch in the given encoding.
pub open spec fn enc_metadata(
    encoding: MetadataEncodingR2,
    rows: Seq<SnapshotMeta>,
    row_step: u32,
    logical_step: u32,
) -> Seq<u8> {
    match encoding {
        MetadataEncodingR2::Explicit => enc_list(rows, g_meta()),
        MetadataEncodingR2::AffineWithOverrides => enc_affine(rows, row_step, logical_step),
    }
}

/// The metadata can be written: the affine form needs every prediction to
/// fit.
pub open spec fn metadata_encodable(
    encoding: MetadataEncodingR2,
    rows: Seq<SnapshotMeta>,
    row_step: u32,
    logical_step: u32,
) -> bool {
    encoding == MetadataEncodingR2::AffineWithOverrides ==> affine_fits(rows, row_step, logical_step)
}

// ---------------------------------------------------------------------------
// Grammar of the metadata section
// ---------------------------------------------------------------------------

pub open spec fn flag_len(mask: u16, bit: u16, w: int) -> int {
    if has_flag(mask, bit) {
        w
    } else {
        0
    }
}

/// Reads the override values of the fields in `mask` at `p`, replacing
/// those fields of `row`.
pub open spec fn parse_override_values(s: Seq<u8>, p: int, mask: u16, row: SnapshotMeta) -> Option<(SnapshotMeta, int)> {
    let o2 = p + flag_len(mask, OVERRIDE_ROW_SEQUENCE, 8);
    let o3 = o2 + flag_len(mask, OVERRIDE_LOGICAL_CYCLE, 8);
    let o4 = o3 + flag_len(mask, OVERRIDE_SOURCE_SEQUENCE, 8);
    let o5 = o4 + flag_len(mask, OVERRIDE_APPLIED_SEQUENCE, 8);
    let end = o5 + flag_len(mask, OVERRIDE_VALID_FLAGS, 4);
    if p < 0 || end > s.len() {
        None
    } else {
        Some(
            (
                SnapshotMeta {
                    row_sequence: if has_flag(mask, OVERRIDE_ROW_SEQUENCE) {
                        from_le64(s.subrange(p, p + 8))
                    } else {
                        row.row_sequence
                    },
                    logical_cycle_sequence: if has_flag(mask, OVERRIDE_LOGICAL_CYCLE) {
                        from_le64(s.subrange(o2, o2 + 8))
                    } else {
                        row.logical_cycle_sequence
                    },
                    source_sequence: if has_flag(mask, OVERRIDE_SOURCE_SEQUENCE) {
                        from_le64(s.subrange(o3, o3 + 8))
                    } else {
                        row.source_sequence
                    },
                    applied_sequence: if has_flag(mask, OVERRIDE_APPLIED_SEQUENCE) {
                        from_le64(s.subrange(o4, o4 + 8))
                    } else {
                        row.applied_sequence
                    },
                    valid_flags: if has_flag(mask, OVERRIDE_VALID_FLAGS) {
                        from_le32(s.subrange(o5, o5 + 4))
                    } else {
                        row.valid_flags
                    },
                },
                end,
            ),
        )
    }
}

/// Applies `k` override records starting at `p`; offsets must increase and
/// stay below the row count, masks must be non-zero and known.
pub open spec fn parse_overrides(s: Seq<u8>, p: int, rows: Seq<SnapshotMeta>, k: nat, prev: int) -> Option<(Seq<SnapshotMeta>, int)>
    decreases k,
{
    if k == 0 {
        Some((rows, p))
    } else if p < 0 || p + 4 > s.len() {
        None
    } else {
        let off = from_le16(s.subrange(p, p + 2));
        let mask = from_le16(s.subrange(p + 2, p + 4));
        if off >= rows.len() || off <= prev || mask == 0 || mask & !OVERRIDE_KNOWN_MASK != 0 {
            None
        } else {
            match parse_override_values(s, p + 4, mask, rows[off as int]) {
                Some((row, q)) => parse_overrides(s, q, rows.update(off as int, row), (k - 1) as nat, off as int),
                None => None,
            }
        }
    }
}

/// Every prediction of the first `n` rows fits the wire types.
pub open spec fn predictions_fit(
    first_row: u64,
    row_step: u32,
    first_logical: u64,
    logical_step: u32,
    sd: i64,
    ad: i64,
    n: int,
) -> bool {
    forall|i: int|
        0 <= i < n ==> {
            &&& in_u64(#[trigger] (first_row + row_step * i))
            &&& in_u64(first_logical + logical_step * i)
            &&& in_u64(first_logical + logical_step * i + sd)
            &&& in_u64(first_logical + logical_step * i + ad)
        }
}

/// The step between the first two values, `1` for fewer than two rows.
pub open spec fn infer_step(a0: u64, a1: u64, n: int) -> Option<u32> {
    if n < 2 {
        Some(1)
    } else if a1 < a0 {
        None
    } else if a1 - a0 > u32::MAX {
        None
    } else {
        Some((a1 - a0) as u32)
    }
}

/// Row step, logical step, and rows of a metadata section, if it is valid.
pub open spec fn parse_metadata(encoding: MetadataEncodingR2, row_count: u16, s: Seq<u8>) -> Option<(u32, u32, Seq<SnapshotMeta>)> {
    match encoding {
        MetadataEncodingR2::Explicit => if s.len() != row_count * 36 {
            None
        } else {
            match parse_list(s, 0, row_count as nat, f_meta()) {
                Some((rows, _)) => {
                    let rs = infer_step(rows[0].row_sequence, rows[1].row_sequence, row_count as int);
                    let ls = infer_step(
                        rows[0].logical_cycle_sequence,
                        rows[1].logical_cycle_sequence,
                        row_count as int,
                    );
                    if rs is None || ls is None {
                        None
                    } else {
                        Some((rs->Some_0, ls->Some_0, rows))
                    }
                },
                None => None,
            }
        },
        MetadataEncodingR2::AffineWithOverrides => if s.len() < 48 {
            None
        } else {
            let first_row = from_le64(s.subrange(0, 8));
            let row_step = from_le32(s.subrange(8, 12));
            let first_logical = from_le64(s.subrange(12, 20));
            let logical_step = from_le32(s.subrange(20, 24));
            let sd = from_le64(s.subrange(24, 32)) as i64;
            let ad = from_le64(s.subrange(32, 40)) as i64;
            let flags = from_le32(s.subrange(40, 44));
            let count = from_le16(s.subrange(44, 46));
            if from_le16(s.subrange(46, 48)) != 0 || row_step == 0 || logical_step == 0 || count
                > row_count || !predictions_fit(
                first_row,
                row_step,
                first_logical,
                logical_step,
                sd,
                ad,
                row_count as int,
            ) {
                None
            } else {
                let base = Seq::new(
                    row_count as nat,
                    |i: int|
                        expected_meta(
                            first_row,
                            row_step,
                            first_logical,
                            logical_step,
                            sd,
                            ad,
                            flags,
                            i,
                        ),
                );
                match parse_overrides(s, 48, base, count as nat, -1) {
                    Some((rows, q)) => if q == s.len() {
                        Some((row_step, logical_step, rows))
                    } else {
                        None
                    },
                    None => None,
                }
            }
        },
    }
}

// ---------------------------------------------------------------------------
// Encoder
// ---------------------------------------------------------------------------

/// The affine prediction at offset `i`, or `LengthOverflow`.
fn predict(
    first_row: u64,
    row_step: u32,
    first_logical: u64,
    logical_step: u32,
    sd: i64,
    ad: i64,
    flags: u32,
    i: u64,
) -> (r: Result<SnapshotMeta, ProtocolError>)
    ensures
        match r {
            Ok(m) => m == expected_meta(first_row, row_step, first_logical, logical_step, sd, ad, flags, i as int)
                && in_u64(first_row + row_step * i) && in_u64(first_logical + logical_step * i)
                && in_u64(first_logical + logical_step * i + sd) && in_u64(first_logical + logical_step * i + ad),
            Err(e) => e is LengthOverflow && !(in_u64(first_row + row_step * i) && in_u64(
                first_logical + logical_step * i,
            ) && in_u64(first_logical + logical_step * i + sd) && in_u64(
                first_logical + logical_step * i + ad,
            )),
        },
{
    let logical = checked_affine(first_logical, logical_step, i)?;
    let row = checked_affine(first_row, row_step, i)?;
    let source = add_signed(logical, sd)?;
    let applied = add_signed(logical, ad)?;
    Ok(
        SnapshotMeta {
            row_sequence: row,
            logical_cycle_sequence: logical,
            source_sequence: source,
            applied_sequence: applied,
            valid_flags: flags,
        },
    )
}

fn mask_of(row: SnapshotMeta, e: SnapshotMeta) -> (m: u16)
    ensures
        m == override_mask(row, e),
{
    (if row.row_sequence != e.row_sequence {
        1u16
    } else {
        0u16
    }) | (if row.logical_cycle_sequence != e.logical_cycle_sequence {
        2u16
    } else {
        0u16
    }) | (if row.source_sequence != e.source_sequence {
        4u16
    } else {
        0u16
    }) | (if row.applied_sequence != e.applied_sequence {
        8u16
    } else {
        0u16
    }) | (if row.valid_flags != e.valid_flags {
        16u16
    } else {
        0u16
    })
}

fn put_override_values(bytes: &mut Vec<u8>, mask: u16, row: SnapshotMeta)
    ensures
        final(bytes)@ == old(bytes)@ + enc_override_values(mask, row),
{
    let ghost start = bytes@;
    let ghost a: Seq<u8> = if has_flag(mask, OVERRIDE_ROW_SEQUENCE) { le64(row.row_sequence) } else { Seq::empty() };
    let ghost b: Seq<u8> = if has_flag(mask, OVERRIDE_LOGICAL_CYCLE) { le64(row.logical_cycle_sequence) } else { Seq::empty() };
    let ghost c: Seq<u8> = if has_flag(mask, OVERRIDE_SOURCE_SEQUENCE) { le64(row.source_sequence) } else { Seq::empty() };
    let ghost d: Seq<u8> = if has_flag(mask, OVERRIDE_APPLIED_SEQUENCE) { le64(row.applied_sequence) } else { Seq::empty() };
    let ghost f: Seq<u8> = if has_flag(mask, OVERRIDE_VALID_FLAGS) { le32(row.valid_flags) } else { Seq::empty() };
    if mask & OVERRIDE_ROW_SEQUENCE != 0 {
        put_u64(bytes, row.row_sequence);
    }
    assert(bytes@ =~= start + a);
    if mask & OVERRIDE_LOGICAL_CYCLE != 0 {
        put_u64(bytes, row.logical_cycle_sequence);
    }
    assert(bytes@ =~= start + a + b);
    if mask & OVERRIDE_SOURCE_SEQUENCE != 0 {
        put_u64(bytes, row.source_sequence);
    }
    assert(bytes@ =~= start + a + b + c);
    if mask & OVERRIDE_APPLIED_SEQUENCE != 0 {
        put_u64(bytes, row.applied_sequence);
    }
    assert(bytes@ =~= start + a + b + c + d);
    if mask & OVERRIDE_VALID_FLAGS != 0 {
        put_u32(bytes, row.valid_flags);
    }
    assert(bytes@ =~= start + (a + b + c + d + f));
}

/// The override masks of all rows, or `LengthOverflow` when some
/// prediction leaves the wire types.
#[verifier::loop_isolation(false)]
fn affine_masks(rows: &Vec<SnapshotMeta>, row_step: u32, logical_step: u32, sd: i64, ad: i64) -> (r: Result<(Vec<u16>, usize), ProtocolError>)
    requires
        1 <= rows@.len() <= 4096,
        sd == source_delta(rows@),
        ad == applied_delta(rows@),
    ensures
        match r {
            Ok((masks, count)) => affine_fits(rows@, row_step, logical_step) && masks@.len() == rows@.len()
                && count as int == override_count(rows@, row_step, logical_step, rows@.len() as int)
                && count <= rows@.len()
                && forall|j: int| 0 <= j < rows@.len() ==> #[trigger] masks@[j] == override_mask(rows@[j], predicted(rows@, row_step, logical_step, j)),
            Err(e) => e is LengthOverflow && !affine_fits(rows@, row_step, logical_step),
        },
{
    let ghost rs = rows@;
    let first = rows[0];
    let mut masks: Vec<u16> = Vec::new();
    let mut count: usize = 0;
    let mut i: usize = 0;
    while i < rows.len()
        invariant
            i <= rows@.len(),
            rs == rows@,
            masks@.len() == i,
            count as int == override_count(rs, row_step, logical_step, i as int),
            count <= i,
            forall|j: int| 0 <= j < i ==> #[trigger] masks@[j] == override_mask(rs[j], predicted(rs, row_step, logical_step, j)),
            forall|j: int| 0 <= j < i ==> #[trigger] row_fits(rs, row_step, logical_step, j),
        decreases rows.len() - i,
    {
        let e = match predict(
            first.row_sequence,
            row_step,
            first.logical_cycle_sequence,
            logical_step,
            sd,
            ad,
            first.valid_flags,
            i as u64,
        ) {
            Ok(e) => e,
            Err(err) => {
                proof {
                    assert(!row_fits(rs, row_step, logical_step, i as int));
                }
                return Err(err);
            },
        };
        assert(e == predicted(rs, row_step, logical_step, i as int));
        assert(row_fits(rs, row_step, logical_step, i as int));
        let m = mask_of(rows[i], e);
        let ghost before = masks@;
        masks.push(m);
        if m != 0 {
            count = count + 1;
        }
        proof {
            assert forall|j: int| 0 <= j < i + 1 implies #[trigger] masks@[j] == override_mask(rs[j], predicted(rs, row_step, logical_step, j)) by {
                if j < i {
                    assert(masks@[j] == before[j]);
                }
            }
            assert forall|j: int| 0 <= j < i + 1 implies #[trigger] row_fits(rs, row_step, logical_step, j) by {
                if j < i {
                    assert(row_fits(rs, row_step, logical_step, j));
                }
            }
        }
        i = i + 1;
    }
    Ok((masks, count))
}

fn encode_affine(rows: &Vec<SnapshotMeta>, row_step: u32, logical_step: u32, bytes: &mut Vec<u8>) -> (r: Result<(), ProtocolError>)
    requires
        1 <= rows@.len() <= 4096,
    ensures
        r is Ok <==> affine_fits(rows@, row_step, logical_step),
        r is Ok ==> final(bytes)@ == old(bytes)@ + enc_affine(rows@, row_step, logical_step),
        r is Err ==> final(bytes)@ == old(bytes)@,
        r matches Err(e) ==> e is LengthOverflow,
{
    let ghost start = bytes@;
    let ghost rs = rows@;
    let first = rows[0];
    let sd = signed_delta(first.source_sequence, first.logical_cycle_sequence)?;
    let ad = signed_delta(first.applied_sequence, first.logical_cycle_sequence)?;
    let (masks, count) = affine_masks(rows, row_step, logical_step, sd, ad)?;
    put_u64(bytes, first.row_sequence);
    put_u32(bytes, row_step);
    put_u64(bytes, first.logical_cycle_sequence);
    put_u32(bytes, logical_step);
    put_i64(bytes, sd);
    put_i64(bytes, ad);
    put_u32(bytes, first.valid_flags);
    put_u16(bytes, count as u16);
    put_u16(bytes, 0);
    let ghost head = bytes@;
    let mut k: usize = 0;
    while k < rows.len()
        invariant
            k <= rows@.len(),
            rs == rows@,
            masks@.len() == rows@.len(),
            forall|j: int| 0 <= j < rows@.len() ==> #[trigger] masks@[j] == override_mask(rs[j], predicted(rs, row_step, logical_step, j)),
            bytes@ == head + enc_overrides(rs, row_step, logical_step, k as int),
        decreases rows.len() - k,
    {
        let m = masks[k];
        assert(m == override_mask(rs[k as int], predicted(rs, row_step, logical_step, k as int)));
        if m != 0 {
            put_u16(bytes, k as u16);
            put_u16(bytes, m);
            put_override_values(bytes, m, rows[k]);
        }
        assert(bytes@ =~= head + enc_overrides(rs, row_step, logical_step, k + 1));
        k = k + 1;
    }
    assert(bytes@ =~= start + enc_affine(rs, row_step, logical_step));
    Ok(())
}

/// Writes the metadata section.  Only the affine form can fail, with
/// `LengthOverflow`, when a prediction leaves the wire types.
pub fn encode_metadata(
    encoding: MetadataEncodingR2,
    rows: &Vec<SnapshotMeta>,
    row_step: u32,
    logical_step: u32,
    bytes: &mut Vec<u8>,
) -> (r: Result<(), ProtocolError>)
    requires
        1 <= rows@.len() <= 4096,
    ensures
        r is Ok <==> metadata_encodable(encoding, rows@, row_step, logical_step),
        r is Ok ==> final(bytes)@ == old(bytes)@ + enc_metadata(encoding, rows@, row_step, logical_step),
        r is Err ==> final(bytes)@ == old(bytes)@,
        r matches Err(e) ==> e is LengthOverflow,
{
    let ghost start = bytes@;
    match encoding {
        MetadataEncodingR2::Explicit => {
            let mut i: usize = 0;
            while i < rows.len()
                invariant
                    i <= rows@.len(),
                    bytes@ == start + enc_list(rows@.subrange(0, i as int), g_meta()),
                decreases rows.len() - i,
            {
                put_snapshot_meta(bytes, rows[i]);
                proof {
                    let sub1 = rows@.subrange(0, i + 1);
                    assert(sub1.drop_last() =~= rows@.subrange(0, i as int));
                }
                i = i + 1;
            }
            assert(rows@.subrange(0, rows@.len() as int) =~= rows@);
            Ok(())
        },
        MetadataEncodingR2::AffineWithOverrides => encode_affine(rows, row_step, logical_step, bytes),
    }
}

// ---------------------------------------------------------------------------
// Decoder
// ---------------------------------------------------------------------------

fn apply_override_values(reader: &mut PayloadReader, mask: u16, row: SnapshotMeta) -> (r: Result<SnapshotMeta, ProtocolError>)
    requires
        old(reader).wf(),
    ensures
        final(reader).wf(),
        final(reader).data() == old(reader).data(),
        match parse_override_values(old(reader).data(), old(reader).pos(), mask, row) {
            Some((x, q)) => r == Ok::<SnapshotMeta, ProtocolError>(x) && final(reader).pos() == q,
            None => r is Err,
        },
{
    let ghost s = reader.data();
    let ghost p = reader.pos();
    let ghost o2 = p + flag_len(mask, OVERRIDE_ROW_SEQUENCE, 8);
    let ghost o3 = o2 + flag_len(mask, OVERRIDE_LOGICAL_CYCLE, 8);
    let ghost o4 = o3 + flag_len(mask, OVERRIDE_SOURCE_SEQUENCE, 8);
    let ghost o5 = o4 + flag_len(mask, OVERRIDE_APPLIED_SEQUENCE, 8);
    let ghost end = o5 + flag_len(mask, OVERRIDE_VALID_FLAGS, 4);
    let mut out = row;
    if mask & OVERRIDE_ROW_SEQUENCE != 0 {
        out.row_sequence = reader.u64()?;
    }
    assert(reader.pos() == o2);
    assert(out.row_sequence == if has_flag(mask, OVERRIDE_ROW_SEQUENCE) { from_le64(s.subrange(p, p + 8)) } else { row.row_sequence });
    if mask & OVERRIDE_LOGICAL_CYCLE != 0 {
        out.logical_cycle_sequence = reader.u64()?;
    }
    assert(reader.pos() == o3);
    assert(out.logical_cycle_sequence == if has_flag(mask, OVERRIDE_LOGICAL_CYCLE) { from_le64(s.subrange(o2, o2 + 8)) } else { row.logical_cycle_sequence });
    if mask & OVERRIDE_SOURCE_SEQUENCE != 0 {
        out.source_sequence = reader.u64()?;
    }
    assert(reader.pos() == o4);
    assert(out.source_sequence == if has_flag(mask, OVERRIDE_SOURCE_SEQUENCE) { from_le64(s.subrange(o3, o3 + 8)) } else { row.source_sequence });
    if mask & OVERRIDE_APPLIED_SEQUENCE != 0 {
        out.applied_sequence = reader.u64()?;
    }
    assert(reader.pos() == o5);
    assert(out.applied_sequence == if has_flag(mask, OVERRIDE_APPLIED_SEQUENCE) { from_le64(s.subrange(o4, o4 + 8)) } else { row.applied_sequence });
    if mask & OVERRIDE_VALID_FLAGS != 0 {
        out.valid_flags = reader.u32()?;
    }
    assert(reader.pos() == end);
    assert(out.valid_flags == if has_flag(mask, OVERRIDE_VALID_FLAGS) { from_le32(s.subrange(o5, o5 + 4)) } else { row.valid_flags });
    proof {
        reader.lemma_pos_bound();
    }
    assert(parse_override_values(s, p, mask, row) == Some((out, end)));
    Ok(out)
}

fn infer_step_exec(a0: u64, a1: u64, n: usize) -> (r: Result<u32, ProtocolError>)
    ensures
        match infer_step(a0, a1, n as int) {
            Some(v) => r == Ok::<u32, ProtocolError>(v),
            None => r is Err,
        },
{
    if n < 2 {
        return Ok(1);
    }
    if a1 < a0 {
        return Err(invalid_error("R2 explicit metadata is not monotonic"));
    }
    let step = a1 - a0;
    if step > 0xffff_ffffu64 {
        return Err(ProtocolError::LengthOverflow);
    }
    Ok(step as u32)
}

#[verifier::loop_isolation(false)]
fn decode_explicit(row_count: u16, bytes: &[u8]) -> (r: Result<(u32, u32, Vec<SnapshotMeta>), ProtocolError>)
    ensures
        match parse_metadata(MetadataEncodingR2::Explicit, row_count, bytes@) {
            Some((a, b, rows)) => r matches Ok((x, y, v)) && x == a && y == b && v@ == rows,
            None => r is Err,
        },
{
    let ghost s = bytes@;
    if bytes.len() != row_count as usize * 36 {
        return Err(invalid_error("R2 explicit metadata length does not match row count"));
    }
    let mut reader = PayloadReader::new(bytes);
    let mut rows: Vec<SnapshotMeta> = Vec::new();
    let mut k: usize = 0;
    while k < row_count as usize
        invariant
            reader.wf(),
            reader.data() == s,
            k <= row_count,
            rows@.len() == k,
            parse_list(s, 0, k as nat, f_meta()) == Some((rows@, reader.pos())),
        decreases row_count as usize - k,
    {
        let m = match decode_meta(&mut reader) {
            Ok(m) => m,
            Err(e) => {
                proof {
                    lemma_parse_list_fail(s, 0, k as nat, row_count as nat, f_meta());
                }
                return Err(e);
            },
        };
        rows.push(m);
        k = k + 1;
    }
    let n = rows.len();
    let (r0, r1, l0, l1) = if n >= 2 {
        (rows[0].row_sequence, rows[1].row_sequence, rows[0].logical_cycle_sequence, rows[1].logical_cycle_sequence)
    } else {
        (0u64, 0u64, 0u64, 0u64)
    };
    let row_step = infer_step_exec(r0, r1, n)?;
    let logical_step = infer_step_exec(l0, l1, n)?;
    Ok((row_step, logical_step, rows))
}

#[verifier::loop_isolation(false)]
#[verifier::rlimit(40)]
fn decode_affine(row_count: u16, bytes: &[u8]) -> (r: Result<(u32, u32, Vec<SnapshotMeta>), ProtocolError>)
    ensures
        match parse_metadata(MetadataEncodingR2::AffineWithOverrides, row_count, bytes@) {
            Some((a, b, rows)) => r matches Ok((x, y, v)) && x == a && y == b && v@ == rows,
            None => r is Err,
        },
{
    let ghost s = bytes@;
    if bytes.len() < 48 {
        return Err(invalid_error("truncated R2 affine metadata"));
    }
    let mut reader = PayloadReader::new(bytes);
    let first_row = reader.u64()?;
    let row_step = reader.u32()?;
    let first_logical = reader.u64()?;
    let logical_step = reader.u32()?;
    let sd = reader.i64()?;
    let ad = reader.i64()?;
    let flags = reader.u32()?;
    let count = reader.u16()?;
    let reserved = reader.u16()?;
    assert(reader.pos() == 48);
    if reserved != 0 {
        return Err(invalid_error("R2 affine metadata reserved field must be zero"));
    }
    if row_step == 0 || logical_step == 0 {
        return Err(invalid_error("R2 affine row and logical steps must be non-zero"));
    }
    if count > row_count {
        return Err(invalid_error("R2 metadata overrides exceed the row count"));
    }
    let ghost base = Seq::new(
        row_count as nat,
        |i: int| expected_meta(first_row, row_step, first_logical, logical_step, sd, ad, flags, i),
    );
    let mut rows: Vec<SnapshotMeta> = Vec::new();
    let mut i: u16 = 0;
    while i < row_count
        invariant
            i <= row_count,
            rows@.len() == i,
            forall|j: int| 0 <= j < i ==> #[trigger] rows@[j] == base[j],
            predictions_fit(first_row, row_step, first_logical, logical_step, sd, ad, i as int),
        decreases row_count - i,
    {
        let e = match predict(first_row, row_step, first_logical, logical_step, sd, ad, flags, i as u64) {
            Ok(e) => e,
            Err(err) => {
                proof {
                    assert(!predictions_fit(first_row, row_step, first_logical, logical_step, sd, ad, row_count as int)) by {
                        let j = i as int;
                        assert(!(in_u64(first_row + row_step * j) && in_u64(first_logical + logical_step * j)
                            && in_u64(first_logical + logical_step * j + sd) && in_u64(first_logical + logical_step * j + ad)));
                    }
                }
                return Err(err);
            },
        };
        let ghost before = rows@;
        rows.push(e);
        proof {
            assert forall|j: int| 0 <= j < i + 1 implies #[trigger] rows@[j] == base[j] by {
                if j < i {
                    assert(rows@[j] == before[j]);
                }
            }
            assert forall|j: int| 0 <= j < i + 1 implies {
                &&& in_u64(#[trigger] (first_row + row_step * j))
                &&& in_u64(first_logical + logical_step * j)
                &&& in_u64(first_logical + logical_step * j + sd)
                &&& in_u64(first_logical + logical_step * j + ad)
            } by {
                if j < i {
                    assert(in_u64(first_row + row_step * j));
                }
            }
        }
        i = i + 1;
    }
    assert(rows@ =~= base);
    let mut prev: i32 = -1;
    let mut done: u16 = 0;
    while done < count
        invariant
            reader.wf(),
            reader.data() == s,
            done <= count,
            rows@.len() == row_count,
            -1 <= prev < row_count,
            parse_overrides(s, 48, base, count as nat, -1) == parse_overrides(
                s,
                reader.pos(),
                rows@,
                (count - done) as nat,
                prev as int,
            ),
        decreases count - done,
    {
        let off = reader.u16()?;
        let mask = reader.u16()?;
        if off as usize >= rows.len() || off as i32 <= prev || mask == 0 || mask & !OVERRIDE_KNOWN_MASK != 0 {
            return Err(invalid_error("R2 metadata overrides must be unique, ordered, in range, and known"));
        }
        let updated = apply_override_values(&mut reader, mask, rows[off as usize])?;
        rows.set(off as usize, updated);
        prev = off as i32;
        done = done + 1;
    }
    if !(reader.position() == bytes.len()) {
        return Err(invalid_error("payload contains unexpected trailing bytes"));
    }
    Ok((row_step, logical_step, rows))
}

/// Decodes a metadata section of `row_count` rows.
pub fn decode_metadata(encoding: MetadataEncodingR2, row_count: u16, bytes: &[u8]) -> (r: Result<(u32, u32, Vec<SnapshotMeta>), ProtocolError>)
    ensures
        match parse_metadata(encoding, row_count, bytes@) {
            Some((a, b, rows)) => r matches Ok((x, y, v)) && x == a && y == b && v@ == rows,
            None => r is Err,
        },
{
    match encoding {
        MetadataEncodingR2::Explicit => decode_explicit(row_count, bytes),
        MetadataEncodingR2::AffineWithOverrides => decode_affine(row_count, bytes),
    }
}

// ---------------------------------------------------------------------------
// Round trip of the metadata section
// ---------------------------------------------------------------------------

proof fn lemma_mask_bits(a: bool, b: bool, c: bool, d: bool, e: bool)
    ensures
        ({
            let m = bit_if(a, OVERRIDE_ROW_SEQUENCE) | bit_if(b, OVERRIDE_LOGICAL_CYCLE) | bit_if(
                c,
                OVERRIDE_SOURCE_SEQUENCE,
            ) | bit_if(d, OVERRIDE_APPLIED_SEQUENCE) | bit_if(e, OVERRIDE_VALID_FLAGS);
            &&& has_flag(m, OVERRIDE_ROW_SEQUENCE) == a
            &&& has_flag(m, OVERRIDE_LOGICAL_CYCLE) == b
            &&& has_flag(m, OVERRIDE_SOURCE_SEQUENCE) == c
            &&& has_flag(m, OVERRIDE_APPLIED_SEQUENCE) == d
            &&& has_flag(m, OVERRIDE_VALID_FLAGS) == e
            &&& m & !OVERRIDE_KNOWN_MASK == 0
            &&& (m == 0) == !(a || b || c || d || e)
        }),
{
    let ia: u16 = if a { 1 } else { 0 };
    let ib: u16 = if b { 2 } else { 0 };
    let ic: u16 = if c { 4 } else { 0 };
    let id: u16 = if d { 8 } else { 0 };
    let ie: u16 = if e { 16 } else { 0 };
    assert({
        let m = ia | ib | ic | id | ie;
        &&& (m & 1 != 0) == (ia == 1)
        &&& (m & 2 != 0) == (ib == 2)
        &&& (m & 4 != 0) == (ic == 4)
        &&& (m & 8 != 0) == (id == 8)
        &&& (m & 16 != 0) == (ie == 16)
        &&& m & !31u16 == 0
        &&& (m == 0) == (ia == 0 && ib == 0 && ic == 0 && id == 0 && ie == 0)
    }) by (bit_vector)
        requires
            ia == 0 || ia == 1,
            ib == 0 || ib == 2,
            ic == 0 || ic == 4,
            id == 0 || id == 8,
            ie == 0 || ie == 16,
    ;
}

/// The fields a mask names, read back from their encoding, turn the
/// prediction into the row.
proof fn lemma_override_row(s: Seq<u8>, p: int, e: SnapshotMeta, row: SnapshotMeta)
    requires
        0 <= p,
        p + enc_override_values(override_mask(row, e), row).len() <= s.len(),
        s.subrange(p, p + enc_override_values(override_mask(row, e), row).len()) == enc_override_values(
            override_mask(row, e),
            row,
        ),
    ensures
        parse_override_values(s, p, override_mask(row, e), e) == Some(
            (row, p + enc_override_values(override_mask(row, e), row).len()),
        ),
        override_mask(row, e) & !OVERRIDE_KNOWN_MASK == 0,
        (override_mask(row, e) == 0) == (row == e),
{
    let m = override_mask(row, e);
    lemma_mask_bits(
        row.row_sequence != e.row_sequence,
        row.logical_cycle_sequence != e.logical_cycle_sequence,
        row.source_sequence != e.source_sequence,
        row.applied_sequence != e.applied_sequence,
        row.valid_flags != e.valid_flags,
    );
    lemma_le64_roundtrip(row.row_sequence);
    lemma_le64_roundtrip(row.logical_cycle_sequence);
    lemma_le64_roundtrip(row.source_sequence);
    lemma_le64_roundtrip(row.applied_sequence);
    lemma_le32_roundtrip(row.valid_flags);
    let v1 = if has_flag(m, OVERRIDE_ROW_SEQUENCE) { le64(row.row_sequence) } else { Seq::<u8>::empty() };
    let v2 = if has_flag(m, OVERRIDE_LOGICAL_CYCLE) { le64(row.logical_cycle_sequence) } else { Seq::<u8>::empty() };
    let v3 = if has_flag(m, OVERRIDE_SOURCE_SEQUENCE) { le64(row.source_sequence) } else { Seq::<u8>::empty() };
    let v4 = if has_flag(m, OVERRIDE_APPLIED_SEQUENCE) { le64(row.applied_sequence) } else { Seq::<u8>::empty() };
    let v5 = if has_flag(m, OVERRIDE_VALID_FLAGS) { le32(row.valid_flags) } else { Seq::<u8>::empty() };
    let w = enc_override_values(m, row);
    assert(w == v1 + v2 + v3 + v4 + v5);
    let o2 = p + v1.len();
    let o3 = o2 + v2.len();
    let o4 = o3 + v3.len();
    let o5 = o4 + v4.len();
    assert(o2 == p + flag_len(m, OVERRIDE_ROW_SEQUENCE, 8));
    assert(o3 == o2 + flag_len(m, OVERRIDE_LOGICAL_CYCLE, 8));
    assert(o4 == o3 + flag_len(m, OVERRIDE_SOURCE_SEQUENCE, 8));
    assert(o5 == o4 + flag_len(m, OVERRIDE_APPLIED_SEQUENCE, 8));
    let a2 = v1.len() as int;
    let a3 = a2 + v2.len();
    let a4 = a3 + v3.len();
    let a5 = a4 + v4.len();
    assert(w.subrange(0, a2) =~= v1);
    assert(w.subrange(a2, a3) =~= v2);
    assert(w.subrange(a3, a4) =~= v3);
    assert(w.subrange(a4, a5) =~= v4);
    assert(w.subrange(a5, w.len() as int) =~= v5);
    lemma_piece(s, p, w, 0, a2);
    lemma_piece(s, p, w, a2, a3);
    lemma_piece(s, p, w, a3, a4);
    lemma_piece(s, p, w, a4, a5);
    lemma_piece(s, p, w, a5, w.len() as int);
}

proof fn lemma_piece(s: Seq<u8>, p: int, w: Seq<u8>, a: int, b: int)
    requires
        0 <= p,
        0 <= a <= b <= w.len(),
        p + w.len() <= s.len(),
        s.subrange(p, p + w.len()) == w,
    ensures
        s.subrange(p + a, p + b) == w.subrange(a, b),
{
    assert forall|i: int| 0 <= i < b - a implies s.subrange(p + a, p + b)[i] == w.subrange(a, b)[i] by {
        assert(s.subrange(p, p + w.len())[a + i] == s[p + a + i]);
    }
    assert(s.subrange(p + a, p + b) =~= w.subrange(a, b));
}

/// The last row before `k` that needs an override record, or -1.
pub open spec fn last_override(rows: Seq<SnapshotMeta>, row_step: u32, logical_step: u32, k: int) -> int
    decreases k,
{
    if k <= 0 {
        -1
    } else if override_mask(rows[k - 1], predicted(rows, row_step, logical_step, k - 1)) != 0 {
        k - 1
    } else {
        last_override(rows, row_step, logical_step, k - 1)
    }
}

proof fn lemma_override_bookkeeping(rows: Seq<SnapshotMeta>, rs: u32, ls: u32, k: int)
    requires
        0 <= k,
    ensures
        0 <= override_count(rows, rs, ls, k) <= k,
        -1 <= last_override(rows, rs, ls, k) < k,
    decreases k,
{
    if k > 0 {
        lemma_override_bookkeeping(rows, rs, ls, k - 1);
    }
}

proof fn lemma_overrides_prefix(rows: Seq<SnapshotMeta>, rs: u32, ls: u32, k: int, j: int)
    requires
        0 <= k <= j,
    ensures
        enc_overrides(rows, rs, ls, k).len() <= enc_overrides(rows, rs, ls, j).len(),
        enc_overrides(rows, rs, ls, j).subrange(0, enc_overrides(rows, rs, ls, k).len() as int)
            == enc_overrides(rows, rs, ls, k),
        override_count(rows, rs, ls, k) <= override_count(rows, rs, ls, j),
    decreases j - k,
{
    if k < j {
        lemma_overrides_prefix(rows, rs, ls, k, j - 1);
        let a = enc_overrides(rows, rs, ls, k);
        let b = enc_overrides(rows, rs, ls, j - 1);
        let c = enc_overrides(rows, rs, ls, j);
        assert(c.subrange(0, b.len() as int) =~= b);
        assert(c.subrange(0, a.len() as int) =~= b.subrange(0, a.len() as int));
    } else {
        assert(enc_overrides(rows, rs, ls, j).subrange(0, enc_overrides(rows, rs, ls, k).len() as int)
            =~= enc_overrides(rows, rs, ls, k));
    }
}

pub open spec fn predictions(rows: Seq<SnapshotMeta>, rs: u32, ls: u32) -> Seq<SnapshotMeta> {
    Seq::new(rows.len(), |i: int| predicted(rows, rs, ls, i))
}

/// The rows after the first `k` override records are applied to the
/// predictions.
pub open spec fn overrides_state(rows: Seq<SnapshotMeta>, rs: u32, ls: u32, k: int) -> Seq<SnapshotMeta> {
    rows.take(k) + predictions(rows, rs, ls).skip(k)
}

/// Parsing the override records from row `k` on.
pub open spec fn overrides_from(rows: Seq<SnapshotMeta>, rs: u32, ls: u32, s: Seq<u8>, k: int) -> Option<
    (Seq<SnapshotMeta>, int),
> {
    parse_overrides(
        s,
        48 + enc_overrides(rows, rs, ls, k).len() as int,
        overrides_state(rows, rs, ls, k),
        (override_count(rows, rs, ls, rows.len() as int) - override_count(rows, rs, ls, k)) as nat,
        last_override(rows, rs, ls, k),
    )
}

#[verifier::spinoff_prover]
proof fn lemma_override_step(rows: Seq<SnapshotMeta>, rs: u32, ls: u32, s: Seq<u8>, k: int)
    requires
        1 <= rows.len() <= 0xffff,
        0 <= k < rows.len(),
        s.len() == 48 + enc_overrides(rows, rs, ls, rows.len() as int).len(),
        s.subrange(48, s.len() as int) == enc_overrides(rows, rs, ls, rows.len() as int),
    ensures
        overrides_from(rows, rs, ls, s, k) == overrides_from(rows, rs, ls, s, k + 1),
{
    let n = rows.len() as int;
    let st = overrides_state(rows, rs, ls, k);
    let st1 = overrides_state(rows, rs, ls, k + 1);
    lemma_overrides_prefix(rows, rs, ls, k + 1, n);
    lemma_overrides_prefix(rows, rs, ls, k, k + 1);
    lemma_override_bookkeeping(rows, rs, ls, k);
    let e = predicted(rows, rs, ls, k);
    let row = rows[k];
    let m = override_mask(row, e);
    let ok = enc_overrides(rows, rs, ls, k);
    let ok1 = enc_overrides(rows, rs, ls, k + 1);
    let on = enc_overrides(rows, rs, ls, n);
    let pos = 48 + ok.len() as int;
    lemma_mask_bits(
        row.row_sequence != e.row_sequence,
        row.logical_cycle_sequence != e.logical_cycle_sequence,
        row.source_sequence != e.source_sequence,
        row.applied_sequence != e.applied_sequence,
        row.valid_flags != e.valid_flags,
    );
    if m == 0 {
        assert(row == e);
        assert(st1 =~= st);
    } else {
        let vals = enc_override_values(m, row);
        let piece = le16(k as u16) + le16(m) + vals;
        assert(ok1 == ok + piece);
        lemma_le16_roundtrip(k as u16);
        lemma_le16_roundtrip(m);
        lemma_piece(s, 48, on, ok.len() as int, ok1.len() as int);
        assert(on.subrange(ok.len() as int, ok1.len() as int) =~= ok1.subrange(ok.len() as int, ok1.len() as int));
        assert(ok1.subrange(ok.len() as int, ok1.len() as int) =~= piece);
        lemma_piece(s, pos, piece, 0, 2);
        lemma_piece(s, pos, piece, 2, 4);
        lemma_piece(s, pos, piece, 4, piece.len() as int);
        assert(piece.subrange(0, 2) =~= le16(k as u16));
        assert(piece.subrange(2, 4) =~= le16(m));
        assert(piece.subrange(4, piece.len() as int) =~= vals);
        assert(st[k] == e);
        lemma_override_row(s, pos + 4, e, row);
        assert(st.update(k, row) =~= st1);
    }
}

proof fn lemma_overrides_from(rows: Seq<SnapshotMeta>, rs: u32, ls: u32, s: Seq<u8>, k: int)
    requires
        1 <= rows.len() <= 0xffff,
        0 <= k <= rows.len(),
        s.len() == 48 + enc_overrides(rows, rs, ls, rows.len() as int).len(),
        s.subrange(48, s.len() as int) == enc_overrides(rows, rs, ls, rows.len() as int),
    ensures
        overrides_from(rows, rs, ls, s, k) == Some((rows, s.len() as int)),
    decreases rows.len() - k,
{
    if k == rows.len() {
        assert(overrides_state(rows, rs, ls, k) =~= rows);
    } else {
        lemma_override_step(rows, rs, ls, s, k);
        lemma_overrides_from(rows, rs, ls, s, k + 1);
    }
}

/// Rows written in the affine form read back exactly, with their steps.
pub proof fn lemma_affine_metadata_round_trip(rows: Seq<SnapshotMeta>, rs: u32, ls: u32)
    requires
        1 <= rows.len() <= 0xffff,
        rs != 0,
        ls != 0,
        affine_fits(rows, rs, ls),
    ensures
        parse_metadata(MetadataEncodingR2::AffineWithOverrides, rows.len() as u16, enc_affine(rows, rs, ls))
            == Some((rs, ls, rows)),
{
    let n = rows.len() as int;
    let s = enc_affine(rows, rs, ls);
    let on = enc_overrides(rows, rs, ls, n);
    let sd = source_delta(rows) as i64;
    let ad = applied_delta(rows) as i64;
    let cnt = override_count(rows, rs, ls, n);
    lemma_override_bookkeeping(rows, rs, ls, n);
    lemma_le64_roundtrip(rows[0].row_sequence);
    lemma_le32_roundtrip(rs);
    lemma_le64_roundtrip(rows[0].logical_cycle_sequence);
    lemma_le32_roundtrip(ls);
    lemma_le64_roundtrip(sd as u64);
    lemma_le64_roundtrip(ad as u64);
    lemma_i64_roundtrip(sd);
    lemma_i64_roundtrip(ad);
    lemma_le32_roundtrip(rows[0].valid_flags);
    lemma_le16_roundtrip(cnt as u16);
    lemma_le16_roundtrip(0);
    assert(s.subrange(0, 8) =~= le64(rows[0].row_sequence));
    assert(s.subrange(8, 12) =~= le32(rs));
    assert(s.subrange(12, 20) =~= le64(rows[0].logical_cycle_sequence));
    assert(s.subrange(20, 24) =~= le32(ls));
    assert(s.subrange(24, 32) =~= le64(sd as u64));
    assert(s.subrange(32, 40) =~= le64(ad as u64));
    assert(s.subrange(40, 44) =~= le32(rows[0].valid_flags));
    assert(s.subrange(44, 46) =~= le16(cnt as u16));
    assert(s.subrange(46, 48) =~= le16(0));
    assert(s.subrange(48, s.len() as int) =~= on);
    assert forall|i: int| 0 <= i < n implies {
        &&& in_u64(#[trigger] (rows[0].row_sequence + rs * i))
        &&& in_u64(rows[0].logical_cycle_sequence + ls * i)
        &&& in_u64(rows[0].logical_cycle_sequence + ls * i + sd)
        &&& in_u64(rows[0].logical_cycle_sequence + ls * i + ad)
    } by {
        assert(row_fits(rows, rs, ls, i));
    }
    let base = Seq::new(
        n as nat,
        |i: int| expected_meta(rows[0].row_sequence, rs, rows[0].logical_cycle_sequence, ls, sd, ad, rows[0].valid_flags, i),
    );
    assert(base =~= predictions(rows, rs, ls));
    lemma_overrides_from(rows, rs, ls, s, 0);
    assert(overrides_state(rows, rs, ls, 0) =~= base);
}

/// Rows written in full read back exactly; the steps are those between the
/// first two rows.
pub proof fn lemma_explicit_metadata_round_trip(rows: Seq<SnapshotMeta>)
    requires
        1 <= rows.len() <= 0xffff,
        infer_step(rows[0].row_sequence, rows[1].row_sequence, rows.len() as int) is Some,
        infer_step(rows[0].logical_cycle_sequence, rows[1].logical_cycle_sequence, rows.len() as int) is Some,
    ensures
        parse_metadata(MetadataEncodingR2::Explicit, rows.len() as u16, enc_list(rows, g_meta())) == Some(
            (
                infer_step(rows[0].row_sequence, rows[1].row_sequence, rows.len() as int)->Some_0,
                infer_step(rows[0].logical_cycle_sequence, rows[1].logical_cycle_sequence, rows.len() as int)->Some_0,
                rows,
            ),
        ),
{
    let s = enc_list(rows, g_meta());
    crate::messages_v2::lemma_meta_elem(s);
    crate::codec::lemma_enc_list_len(rows, g_meta(), 36);
    assert(s.subrange(0, s.len() as int) =~= s);
    crate::codec::lemma_list_roundtrip(s, 0, rows, f_meta(), g_meta());
}

/// Metadata read back gives the rows that were written, in either encoding;
/// the explicit form carries no steps, so they are those of its first rows.
pub proof fn lemma_metadata_round_trip(encoding: MetadataEncodingR2, rows: Seq<SnapshotMeta>, rs: u32, ls: u32)
    requires
        1 <= rows.len() <= 0xffff,
        rs != 0,
        ls != 0,
        metadata_encodable(encoding, rows, rs, ls),
        encoding is Explicit ==> infer_step(rows[0].row_sequence, rows[1].row_sequence, rows.len() as int)
            == Some(rs) && infer_step(
            rows[0].logical_cycle_sequence,
            rows[1].logical_cycle_sequence,
            rows.len() as int,
        ) == Some(ls),
    ensures
        parse_metadata(encoding, rows.len() as u16, enc_metadata(encoding, rows, rs, ls)) == Some((rs, ls, rows)),
{
    match encoding {
        MetadataEncodingR2::AffineWithOverrides => lemma_affine_metadata_round_trip(rows, rs, ls),
        MetadataEncodingR2::Explicit => lemma_explicit_metadata_round_trip(rows),
    }
}

} // verus!
