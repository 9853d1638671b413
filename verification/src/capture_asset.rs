//! Turning a trigger capture into the parts of a replayable `.scope` asset:
//! the all-`f32` channel table and mask, the batch size a sample frame can
//! hold, the sample period, and the capture cut into batches of
//! little-endian `f32` rows. The caller frames the batches, writes the
//! file and checks for cancellation between them.

use vstd::prelude::*;

use crate::protocol::{lookup_channel, ChannelDescriptor, ChannelKind, ChannelTable, WireFormat, MAX_BATCH_SAMPLES, MAX_PAYLOAD_LEN};
use crate::scope_format::RecordingMetadata;
use crate::trigger::{TriggerCapture, TriggerCaptureV};
use crate::wire::{le32, put_u32};

verus! {

/// Why a capture cannot become an asset.
#[derive(Clone, Copy, Debug, PartialEq, Eq, Structural)]
pub enum CaptureAssetError {
    /// The capture's columns are empty or of different lengths.
    UnalignedColumns,
    /// A capture channel is absent from the source channel table.
    ChannelAbsent(u16),
    /// The size of a row overflows.
    SizeOverflow,
    /// Not one row of the channel set fits in a sample batch.
    ChannelSetTooWide,
}

/// One batch of the capture: rows `start..start + sample_count`.
pub struct CaptureChunk {
    pub sequence: u32,
    pub first_sample_index: u64,
    pub timestamp_ticks: u64,
    pub sample_count: u16,
    pub sample_data: Vec<u8>,
}

pub struct CaptureChunkV {
    pub sequence: u32,
    pub first_sample_index: u64,
    pub timestamp_ticks: u64,
    pub sample_count: u16,
    pub sample_data: Seq<u8>,
}

impl View for CaptureChunk {
    type V = CaptureChunkV;

    open spec fn view(&self) -> CaptureChunkV {
        CaptureChunkV {
            sequence: self.sequence,
            first_sample_index: self.first_sample_index,
            timestamp_ticks: self.timestamp_ticks,
            sample_count: self.sample_count,
            sample_data: self.sample_data@,
        }
    }
}

/// The asset a capture becomes.
pub struct CaptureAsset {
    pub metadata: RecordingMetadata,
    pub sample_period_ticks: u32,
    pub chunks: Vec<CaptureChunk>,
}

pub open spec fn unaligned(c: TriggerCaptureV) -> bool {
    let n = c.sample_indices.len();
    ||| n == 0
    ||| c.timestamps.len() != n
    ||| c.channels.len() != c.channel_ids.len()
    ||| exists|i: int| 0 <= i < c.channels.len() && #[trigger] c.channels[i].len() != n
}

/// The first of `ids` that the table lacks.
pub open spec fn first_absent(ids: Seq<u16>, table: Seq<ChannelDescriptor>) -> Option<u16>
    decreases ids.len(),
{
    if ids.len() == 0 {
        None
    } else if lookup_channel(table, ids[0]) is None {
        Some(ids[0])
    } else {
        first_absent(ids.drop_first(), table)
    }
}

/// The rows of `n` channels that fit in one sample batch.
pub open spec fn batch_limit(n: int) -> int {
    let fixed = 20 + n * 2;
    let room = if MAX_PAYLOAD_LEN > fixed {
        MAX_PAYLOAD_LEN - fixed
    } else {
        0
    };
    let limit = if n == 0 {
        0
    } else {
        room / (n * 4)
    };
    let a = if MAX_BATCH_SAMPLES < limit {
        MAX_BATCH_SAMPLES as int
    } else {
        limit
    };
    if a < 65535 {
        a
    } else {
        65535
    }
}

pub open spec fn mask_of(ids: Seq<u16>) -> u64
    decreases ids.len(),
{
    if ids.len() == 0 {
        0
    } else {
        mask_of(ids.drop_last()) | (1u64 << ids.last())
    }
}

/// The sample period: the first timestamp step when it is a positive `u32`,
/// else the clock ticks per sample at the nominal rate.
pub open spec fn asset_period(timestamps: Seq<u64>, tick_hz: u64, sample_rate_hz: u32) -> u32 {
    let step: int = if timestamps.len() >= 2 {
        if timestamps[1] >= timestamps[0] {
            timestamps[1] - timestamps[0]
        } else {
            0
        }
    } else {
        0
    };
    if timestamps.len() >= 2 && 0 < step <= u32::MAX {
        step as u32
    } else {
        let per = tick_hz / (if sample_rate_hz > 1 {
            sample_rate_hz as u64
        } else {
            1u64
        });
        let p: int = if per > 1 {
            per as int
        } else {
            1
        };
        if p <= u32::MAX {
            p as u32
        } else {
            u32::MAX
        }
    }
}

/// The bytes of row `s`: channels `0..k`, each as a little-endian `f32`.
pub open spec fn row_bytes(chs: Seq<Seq<u32>>, s: int, k: int) -> Seq<u8>
    decreases k,
{
    if k <= 0 {
        Seq::empty()
    } else {
        row_bytes(chs, s, k - 1) + le32(chs[k - 1][s])
    }
}

/// The bytes of rows `start..e`.
pub open spec fn block_bytes(chs: Seq<Seq<u32>>, start: int, e: int) -> Seq<u8>
    decreases e - start,
{
    if e <= start {
        Seq::empty()
    } else {
        block_bytes(chs, start, e - 1) + row_bytes(chs, e - 1, chs.len() as int)
    }
}

pub open spec fn chunk_of(c: TriggerCaptureV, start: int, end: int, index: int) -> CaptureChunkV {
    CaptureChunkV {
        sequence: if index + 1 <= u32::MAX {
            (index + 1) as u32
        } else {
            u32::MAX
        },
        first_sample_index: c.sample_indices[start],
        timestamp_ticks: c.timestamps[start],
        sample_count: (end - start) as u16,
        sample_data: block_bytes(c.channels, start, end),
    }
}

/// The batches of `bs` rows from row `start`, the `index`-th first.
pub open spec fn chunks_from(c: TriggerCaptureV, bs: int, start: int, index: int) -> Seq<CaptureChunkV>
    decreases c.sample_indices.len() - start,
{
    let n = c.sample_indices.len() as int;
    if bs <= 0 || start >= n {
        Seq::empty()
    } else {
        let end = if start + bs < n {
            start + bs
        } else {
            n
        };
        seq![chunk_of(c, start, end, index)] + chunks_from(c, bs, end, index + 1)
    }
}

/// What a capture becomes, or why it cannot.
pub open spec fn asset_error(c: TriggerCaptureV, table: Seq<ChannelDescriptor>) -> Option<CaptureAssetError> {
    if unaligned(c) {
        Some(CaptureAssetError::UnalignedColumns)
    } else if first_absent(c.channel_ids, table) is Some {
        Some(CaptureAssetError::ChannelAbsent(first_absent(c.channel_ids, table).unwrap()))
    } else if c.channel_ids.len() * 4 > usize::MAX {
        Some(CaptureAssetError::SizeOverflow)
    } else if batch_limit(c.channel_ids.len() as int) == 0 {
        Some(CaptureAssetError::ChannelSetTooWide)
    } else {
        None
    }
}

/// The asset's channel `i`: the source channel as an `f32` channel of unit
/// scale and zero offset.
pub open spec fn asset_channel(d: ChannelDescriptor, id: u16, src: ChannelDescriptor) -> bool {
    &&& d.channel_id == id
    &&& d.kind == src.kind
    &&& d.wire_format == WireFormat::F32
    &&& d.scale_bits == 0x3F80_0000
    &&& d.offset_bits == 0
    &&& d.unit@ == src.unit@
    &&& d.name@ == src.name@
}

fn first_absent_exec(ids: &Vec<u16>, table: &ChannelTable) -> (r: Option<u16>)
    ensures
        r == first_absent(ids@, table.channels@),
{
    let mut i: usize = 0;
    assert(ids@.skip(0) =~= ids@);
    while i < ids.len()
        invariant
            i <= ids@.len(),
            first_absent(ids@, table.channels@) == first_absent(ids@.skip(i as int), table.channels@),
        decreases ids.len() - i,
    {
        assert(ids@.skip(i as int).drop_first() =~= ids@.skip(i + 1));
        assert(ids@.skip(i as int)[0] == ids@[i as int]);
        if table.channel(ids[i]).is_none() {
            return Some(ids[i]);
        }
        i = i + 1;
    }
    assert(ids@.skip(i as int) =~= Seq::<u16>::empty());
    None
}

fn row_data(chs: &Vec<Vec<u32>>, s: usize, data: &mut Vec<u8>)
    requires
        forall|k: int| 0 <= k < chs@.len() ==> s < (#[trigger] chs@[k])@.len(),
    ensures
        final(data)@ == old(data)@ + row_bytes(chs@.map_values(|c: Vec<u32>| c@), s as int, chs@.len() as int),
{
    let ghost cv = chs@.map_values(|c: Vec<u32>| c@);
    let ghost d0 = data@;
    let mut k: usize = 0;
    while k < chs.len()
        invariant
            k <= chs@.len(),
            cv == chs@.map_values(|c: Vec<u32>| c@),
            forall|j: int| 0 <= j < chs@.len() ==> s < (#[trigger] chs@[j])@.len(),
            data@ == d0 + row_bytes(cv, s as int, k as int),
        decreases chs.len() - k,
    {
        assert(cv[k as int] == chs@[k as int]@);
        put_u32(data, chs[k][s]);
        assert(data@ =~= d0 + row_bytes(cv, s as int, k + 1));
        k = k + 1;
    }
}

/// Cuts a trigger capture into the parts of a `.scope` asset.
pub fn capture_asset(
    capture: &TriggerCapture,
    source_table: &ChannelTable,
    tick_hz: u64,
    sample_rate_hz: u32,
    client_version: &str,
    presented: &Vec<u16>,
) -> (r: Result<CaptureAsset, CaptureAssetError>)
    requires
        forall|i: int| 0 <= i < capture@.channel_ids.len() ==> #[trigger] capture@.channel_ids[i] < 64,
    ensures
        match asset_error(capture@, source_table.channels@) {
            Some(e) => r == Err::<CaptureAsset, CaptureAssetError>(e),
            None => r matches Ok(a) && {
                let n = capture@.channel_ids.len();
                &&& a.metadata.device_id@ == "scope-capture-asset"@
                &&& a.metadata.firmware_name@ == "Scope Analyzer"@
                &&& a.metadata.tick_hz == tick_hz
                &&& a.metadata.sample_rate_hz == sample_rate_hz
                &&& a.metadata.client_version@ == client_version@
                &&& a.metadata.channel_table.revision == (if source_table.revision > 1 {
                    source_table.revision
                } else {
                    1
                })
                &&& a.metadata.channel_table.channels@.len() == n
                &&& forall|i: int| 0 <= i < n ==> asset_channel(
                    #[trigger] a.metadata.channel_table.channels@[i],
                    capture@.channel_ids[i],
                    lookup_channel(source_table.channels@, capture@.channel_ids[i]).unwrap(),
                )
                &&& a.metadata.channel_mask == mask_of(capture@.channel_ids)
                &&& a.metadata.batch_samples == batch_limit(n as int)
                &&& a.metadata.presented_channels@ == presented@.filter(|id: u16| capture@.channel_ids.contains(id))
                &&& a.sample_period_ticks == asset_period(capture@.timestamps, tick_hz, sample_rate_hz)
                &&& a.chunks@.map_values(|k: CaptureChunk| k@) == chunks_from(capture@, batch_limit(n as int), 0, 0)
            },
        },
{
    let n = capture.sample_indices.len();
    let mut aligned = n != 0 && capture.timestamps.len() == n && capture.channels.len() == capture.channel_ids.len();
    let mut i: usize = 0;
    while aligned && i < capture.channels.len()
        invariant
            i <= capture.channels@.len(),
            aligned ==> forall|j: int| 0 <= j < i ==> (#[trigger] capture.channels@[j])@.len() == n,
            !aligned ==> unaligned(capture@),
            n == capture.sample_indices@.len(),
            aligned ==> (n != 0 && capture.timestamps@.len() == n && capture.channels@.len() == capture.channel_ids@.len()),
        decreases capture.channels.len() - i,
    {
        if capture.channels[i].len() != n {
            aligned = false;
            assert(capture@.channels[i as int] == capture.channels@[i as int]@);
        }
        i = i + 1;
    }
    if !aligned {
        return Err(CaptureAssetError::UnalignedColumns);
    }
    assert(!unaligned(capture@)) by {
        assert forall|j: int| 0 <= j < capture@.channels.len() implies #[trigger] capture@.channels[j].len() == n by {
            assert(capture@.channels[j] == capture.channels@[j]@);
        }
    }
    match first_absent_exec(&capture.channel_ids, source_table) {
        Some(id) => {
            return Err(CaptureAssetError::ChannelAbsent(id));
        },
        None => {},
    }
    let count = capture.channel_ids.len();
    if count > usize::MAX / 4 {
        return Err(CaptureAssetError::SizeOverflow);
    }
    let bytes_per_sample = count * 4;
    let fixed = 20 + count * 2;
    let room = if MAX_PAYLOAD_LEN > fixed {
        MAX_PAYLOAD_LEN - fixed
    } else {
        0
    };
    let limit = if bytes_per_sample == 0 {
        0
    } else {
        room / bytes_per_sample
    };
    let a = if MAX_BATCH_SAMPLES < limit {
        MAX_BATCH_SAMPLES
    } else {
        limit
    };
    let batch = if a < 65535 {
        a
    } else {
        65535
    };
    if batch == 0 {
        return Err(CaptureAssetError::ChannelSetTooWide);
    }
    // The all-f32 channel table and the mask.
    let mut channels: Vec<ChannelDescriptor> = Vec::new();
    let mut mask: u64 = 0;
    let mut k: usize = 0;
    while k < count
        invariant
            k <= count,
            count == capture.channel_ids@.len(),
            first_absent(capture.channel_ids@, source_table.channels@) is None,
            forall|i: int| 0 <= i < capture@.channel_ids.len() ==> #[trigger] capture@.channel_ids[i] < 64,
            channels@.len() == k,
            forall|i: int| 0 <= i < k ==> asset_channel(
                #[trigger] channels@[i],
                capture@.channel_ids[i],
                lookup_channel(source_table.channels@, capture@.channel_ids[i]).unwrap(),
            ),
            mask == mask_of(capture@.channel_ids.take(k as int)),
        decreases count - k,
    {
        let id = capture.channel_ids[k];
        proof {
            lemma_first_absent_none(capture.channel_ids@, source_table.channels@, k as int);
        }
        let src = match source_table.channel(id) {
            Some(s) => s,
            None => {
                return Err(CaptureAssetError::ChannelAbsent(id));
            },
        };
        channels.push(
            ChannelDescriptor {
                channel_id: id,
                kind: src.kind,
                wire_format: WireFormat::F32,
                scale_bits: 0x3F80_0000,
                offset_bits: 0,
                unit: src.unit.clone(),
                name: src.name.clone(),
            },
        );
        assert(id < 64);
        assert(capture@.channel_ids.take(k + 1).drop_last() =~= capture@.channel_ids.take(k as int));
        mask = mask | (1u64 << id);
        k = k + 1;
    }
    assert(capture@.channel_ids.take(count as int) =~= capture@.channel_ids);
    let revision = if source_table.revision > 1 {
        source_table.revision
    } else {
        1
    };
    // Presentations of the captured channels only.
    let mut kept: Vec<u16> = Vec::new();
    let mut p: usize = 0;
    let ghost pred = |id: u16| capture@.channel_ids.contains(id);
    assert(presented@.take(0).filter(pred) =~= Seq::<u16>::empty()) by {
        reveal(Seq::filter);
    }
    while p < presented.len()
        invariant
            p <= presented@.len(),
            pred == (|id: u16| capture@.channel_ids.contains(id)),
            kept@ == presented@.take(p as int).filter(pred),
        decreases presented.len() - p,
    {
        let id = presented[p];
        let mut found = false;
        let mut q: usize = 0;
        while q < capture.channel_ids.len()
            invariant
                q <= capture.channel_ids@.len(),
                found == capture@.channel_ids.take(q as int).contains(id),
            decreases capture.channel_ids.len() - q,
        {
            let x = capture.channel_ids[q];
            proof {
                let t = capture@.channel_ids.take(q as int);
                let t1 = capture@.channel_ids.take(q + 1);
                assert(t1 =~= t.push(x));
                assert(t1.contains(id) <==> (t.contains(id) || x == id)) by {
                    if x == id {
                        assert(t1[q as int] == id);
                    }
                    if t.contains(id) {
                        let j = choose|j: int| 0 <= j < t.len() && t[j] == id;
                        assert(t1[j] == id);
                    }
                    if t1.contains(id) && x != id {
                        let j = choose|j: int| 0 <= j < t1.len() && t1[j] == id;
                        assert(t[j] == id);
                    }
                }
            }
            if x == id {
                found = true;
            }
            q = q + 1;
        }
        assert(capture@.channel_ids.take(q as int) =~= capture@.channel_ids);
        assert(presented@.take(p + 1).drop_last() =~= presented@.take(p as int));
        if found {
            kept.push(id);
        }
        assert(presented@.take(p + 1).last() == id);
        assert(found == pred(id));
        assert(presented@.take(p + 1).filter(pred) == if pred(id) {
            presented@.take(p as int).filter(pred).push(id)
        } else {
            presented@.take(p as int).filter(pred)
        }) by {
            reveal(Seq::filter);
        }
        p = p + 1;
    }
    assert(presented@.take(p as int) =~= presented@);
    // The sample period.
    let ts = &capture.timestamps;
    let step: u64 = if ts.len() >= 2 {
        if ts[1] >= ts[0] {
            ts[1] - ts[0]
        } else {
            0
        }
    } else {
        0
    };
    let period: u32 = if ts.len() >= 2 && 0 < step && step <= u32::MAX as u64 {
        step as u32
    } else {
        let per = tick_hz / (if sample_rate_hz > 1 {
            sample_rate_hz as u64
        } else {
            1u64
        });
        let q = if per > 1 {
            per
        } else {
            1
        };
        if q <= u32::MAX as u64 {
            q as u32
        } else {
            u32::MAX
        }
    };
    // The batches.
    let ghost cv = capture@;
    let mut chunks: Vec<CaptureChunk> = Vec::new();
    let mut start: usize = 0;
    let mut index: usize = 0;
    while start < n
        invariant
            cv == capture@,
            n == cv.sample_indices.len(),
            cv.timestamps.len() == n,
            forall|j: int| 0 <= j < cv.channels.len() ==> (#[trigger] cv.channels[j]).len() == n,
            cv.channels.len() == capture.channels@.len(),
            1 <= batch <= 65535,
            start <= n,
            index <= start,
            chunks@.map_values(|k: CaptureChunk| k@) + chunks_from(cv, batch as int, start as int, index as int)
                == chunks_from(cv, batch as int, 0, 0),
        decreases n - start,
    {
        let end = if batch < n - start {
            start + batch
        } else {
            n
        };
        let mut data: Vec<u8> = Vec::new();
        let mut s = start;
        while s < end
            invariant
                cv == capture@,
                start <= s <= end <= n,
                n == cv.sample_indices.len(),
                forall|j: int| 0 <= j < cv.channels.len() ==> (#[trigger] cv.channels[j]).len() == n,
                cv.channels.len() == capture.channels@.len(),
                data@ == block_bytes(cv.channels, start as int, s as int),
            decreases end - s,
        {
            assert forall|j: int| 0 <= j < capture.channels@.len() implies s < (#[trigger] capture.channels@[j])@.len() by {
                assert(cv.channels[j] == capture.channels@[j]@);
            }
            assert(capture.channels@.map_values(|c: Vec<u32>| c@) =~= cv.channels);
            row_data(&capture.channels, s, &mut data);
            s = s + 1;
        }
        let sequence: u32 = if index < u32::MAX as usize {
            (index + 1) as u32
        } else {
            u32::MAX
        };
        let chunk = CaptureChunk {
            sequence,
            first_sample_index: capture.sample_indices[start],
            timestamp_ticks: capture.timestamps[start],
            sample_count: (end - start) as u16,
            sample_data: data,
        };
        let ghost prev = chunks@.map_values(|k: CaptureChunk| k@);
        assert(chunk@ == chunk_of(cv, start as int, end as int, index as int));
        chunks.push(chunk);
        assert(chunks@.map_values(|k: CaptureChunk| k@) =~= prev.push(chunk_of(cv, start as int, end as int, index as int)));
        assert(chunks_from(cv, batch as int, start as int, index as int) == seq![chunk_of(cv, start as int, end as int, index as int)]
            + chunks_from(cv, batch as int, end as int, index + 1));
        assert(chunks@.map_values(|k: CaptureChunk| k@) + chunks_from(cv, batch as int, end as int, index + 1)
            =~= prev + chunks_from(cv, batch as int, start as int, index as int));
        start = end;
        index = index + 1;
    }
    assert(chunks@.map_values(|k: CaptureChunk| k@) =~= chunks_from(cv, batch as int, 0, 0));
    let metadata = RecordingMetadata {
        device_id: "scope-capture-asset".to_string(),
        firmware_name: "Scope Analyzer".to_string(),
        tick_hz,
        channel_table: ChannelTable { revision, channels },
        sample_rate_hz,
        batch_samples: batch as u16,
        channel_mask: mask,
        client_version: client_version.to_string(),
        presented_channels: kept,
    };
    Ok(CaptureAsset { metadata, sample_period_ticks: period, chunks })
}

proof fn lemma_first_absent_none(ids: Seq<u16>, table: Seq<ChannelDescriptor>, k: int)
    requires
        first_absent(ids, table) is None,
        0 <= k < ids.len(),
    ensures
        lookup_channel(table, ids[k]) is Some,
    decreases ids.len(),
{
    if k > 0 {
        assert(ids.drop_first()[k - 1] == ids[k]);
        lemma_first_absent_none(ids.drop_first(), table, k - 1);
    }
}

} // verus!
