//! Link-budget arithmetic of first-revision sample batches: which channels a
//! configuration selects, how many bytes one sample of them takes, and the
//! size of the batches on the wire.

use vstd::prelude::*;

use crate::protocol::{
    spec_byte_width, ChannelDescriptor, ChannelTable, Configure, FRAME_CRC_LEN, FRAME_HEADER_LEN,
    MAX_BATCH_SAMPLES,
};
use crate::protocol_v2::has_bit;

verus! {

/// Bytes of a SAMPLE_BATCH payload besides its channel ids and samples.
pub const SAMPLE_BATCH_FIXED_PAYLOAD_BYTES: usize = 20;

pub const CHANNEL_ID_BYTES: usize = 2;

/// Bits per byte on an 8N1 serial line.
pub const SERIAL_BITS_PER_BYTE_8N1: usize = 10;

/// The link a budget is made for.
#[derive(Clone, Copy, Debug, PartialEq, Eq, Structural)]
pub enum LinkBudgetTransport {
    Serial { baud: u32 },
    Tcp { expected_bits_per_second: Option<u64> },
}

/// How close a configuration comes to the link's capacity.
#[derive(Clone, Copy, Debug, PartialEq, Eq, Structural)]
pub enum BudgetSeverity {
    Safe,
    Warning,
    Critical,
    Unknown,
}

/// One selected channel and the bytes one of its samples takes.
#[derive(Clone, Debug, PartialEq, Eq)]
pub struct SelectedChannelBudget {
    pub channel_id: u16,
    pub name: String,
    pub bytes_per_sample: usize,
}

pub struct SelectedChannelBudgetV {
    pub channel_id: u16,
    pub name: Seq<char>,
    pub bytes_per_sample: usize,
}

impl View for SelectedChannelBudget {
    type V = SelectedChannelBudgetV;

    open spec fn view(&self) -> SelectedChannelBudgetV {
        SelectedChannelBudgetV {
            channel_id: self.channel_id,
            name: self.name@,
            bytes_per_sample: self.bytes_per_sample,
        }
    }
}

/// Why a link budget cannot be made.
#[derive(Clone, Copy, Debug, PartialEq, Eq, Structural)]
pub enum LinkBudgetError {
    ZeroSampleRate,
    InvalidBatchSamples,
    EmptyChannelMask,
    UnknownChannel,
    ZeroBaud,
    Overflow,
}

/// The words `message` gives for each refusal.
pub open spec fn link_budget_error_text(e: LinkBudgetError) -> Seq<char> {
    match e {
        LinkBudgetError::ZeroSampleRate => "sample rate must be greater than zero"@,
        LinkBudgetError::InvalidBatchSamples => "batch samples must be in 1..=4096"@,
        LinkBudgetError::EmptyChannelMask => "channel mask must select at least one channel"@,
        LinkBudgetError::UnknownChannel => "channel mask selects a channel that is absent from the channel table"@,
        LinkBudgetError::ZeroBaud => "serial baud must be greater than zero"@,
        LinkBudgetError::Overflow => "link budget arithmetic overflow"@,
    }
}

impl LinkBudgetError {
    /// The refusal in words.
    pub fn message(&self) -> (r: String)
        ensures
            r@ == link_budget_error_text(*self),
    {
        match self {
            LinkBudgetError::ZeroSampleRate => "sample rate must be greater than zero".to_string(),
            LinkBudgetError::InvalidBatchSamples => "batch samples must be in 1..=4096".to_string(),
            LinkBudgetError::EmptyChannelMask => "channel mask must select at least one channel".to_string(),
            LinkBudgetError::UnknownChannel => "channel mask selects a channel that is absent from the channel table".to_string(),
            LinkBudgetError::ZeroBaud => "serial baud must be greater than zero".to_string(),
            LinkBudgetError::Overflow => "link budget arithmetic overflow".to_string(),
        }
    }
}

/// Every channel id can stand for a bit of a 64-bit mask.
pub open spec fn ids_fit_mask(chs: Seq<ChannelDescriptor>) -> bool {
    forall|i: int| 0 <= i < chs.len() ==> (#[trigger] chs[i].channel_id) < 64
}

/// The mask with one bit per channel of the table.
pub open spec fn known_mask(chs: Seq<ChannelDescriptor>) -> u64
    decreases chs.len(),
{
    if chs.len() == 0 {
        0
    } else {
        known_mask(chs.drop_last()) | (1u64 << chs.last().channel_id)
    }
}

/// The first rule a budget request breaks: a sample rate, a batch size
/// within the protocol, a non-empty mask of known channels, and a serial
/// baud rate.
pub open spec fn request_error(chs: Seq<ChannelDescriptor>, c: Configure, t: LinkBudgetTransport) -> Option<
    LinkBudgetError,
> {
    if c.sample_rate_hz == 0 {
        Some(LinkBudgetError::ZeroSampleRate)
    } else if c.batch_samples == 0 || c.batch_samples > MAX_BATCH_SAMPLES {
        Some(LinkBudgetError::InvalidBatchSamples)
    } else if c.channel_mask == 0 {
        Some(LinkBudgetError::EmptyChannelMask)
    } else if c.channel_mask & !known_mask(chs) != 0 {
        Some(LinkBudgetError::UnknownChannel)
    } else if t == (LinkBudgetTransport::Serial { baud: 0 }) {
        Some(LinkBudgetError::ZeroBaud)
    } else {
        None
    }
}

/// Checks a budget request.
pub fn validate_link_budget_request(table: &ChannelTable, configure: &Configure, transport: LinkBudgetTransport) -> (r:
    Result<(), LinkBudgetError>)
    requires
        ids_fit_mask(table.channels@),
    ensures
        r is Ok <==> request_error(table.channels@, *configure, transport) is None,
        r is Err ==> Some(r->Err_0) == request_error(table.channels@, *configure, transport),
{
    if configure.sample_rate_hz == 0 {
        return Err(LinkBudgetError::ZeroSampleRate);
    }
    if configure.batch_samples == 0 || configure.batch_samples as usize > MAX_BATCH_SAMPLES {
        return Err(LinkBudgetError::InvalidBatchSamples);
    }
    if configure.channel_mask == 0 {
        return Err(LinkBudgetError::EmptyChannelMask);
    }
    let ghost chs = table.channels@;
    let mut known: u64 = 0;
    let mut i: usize = 0;
    while i < table.channels.len()
        invariant
            chs == table.channels@,
            ids_fit_mask(chs),
            0 <= i <= chs.len(),
            known == known_mask(chs.take(i as int)),
        decreases chs.len() - i,
    {
        proof {
            assert(chs.take(i + 1).drop_last() =~= chs.take(i as int));
            assert(chs[i as int].channel_id < 64);
        }
        known = known | (1u64 << table.channels[i].channel_id);
        i = i + 1;
    }
    assert(chs.take(i as int) =~= chs);
    if configure.channel_mask & !known != 0 {
        return Err(LinkBudgetError::UnknownChannel);
    }
    match transport {
        LinkBudgetTransport::Serial { baud } => if baud == 0 {
            return Err(LinkBudgetError::ZeroBaud);
        },
        LinkBudgetTransport::Tcp { .. } => {},
    }
    Ok(())
}

/// The channels of the table that the mask selects, in table order.
pub open spec fn selected(chs: Seq<ChannelDescriptor>, mask: u64) -> Seq<SelectedChannelBudgetV>
    decreases chs.len(),
{
    if chs.len() == 0 {
        Seq::empty()
    } else {
        let rest = selected(chs.drop_last(), mask);
        let c = chs.last();
        if has_bit(mask, c.channel_id as u64) {
            rest.push(
                SelectedChannelBudgetV {
                    channel_id: c.channel_id,
                    name: c.name@,
                    bytes_per_sample: spec_byte_width(c.wire_format),
                },
            )
        } else {
            rest
        }
    }
}

/// The channels the mask selects.
pub fn selected_channels(table: &ChannelTable, mask: u64) -> (r: Vec<SelectedChannelBudget>)
    requires
        ids_fit_mask(table.channels@),
    ensures
        r@.map_values(|s: SelectedChannelBudget| s@) == selected(table.channels@, mask),
{
    let ghost chs = table.channels@;
    let mut out: Vec<SelectedChannelBudget> = Vec::new();
    let mut i: usize = 0;
    while i < table.channels.len()
        invariant
            chs == table.channels@,
            ids_fit_mask(chs),
            0 <= i <= chs.len(),
            out@.map_values(|s: SelectedChannelBudget| s@) == selected(chs.take(i as int), mask),
        decreases chs.len() - i,
    {
        let c = &table.channels[i];
        proof {
            assert(chs.take(i + 1).drop_last() =~= chs.take(i as int));
            assert(chs.take(i + 1).last() == *c);
            assert(c.channel_id < 64);
        }
        let ghost before = out@;
        if (mask >> c.channel_id) & 1 == 1 {
            out.push(
                SelectedChannelBudget {
                    channel_id: c.channel_id,
                    name: c.name.clone(),
                    bytes_per_sample: c.wire_format.byte_width(),
                },
            );
            assert(out@.map_values(|s: SelectedChannelBudget| s@) =~= before.map_values(
                |s: SelectedChannelBudget| s@,
            ).push(out@.last()@));
        }
        i = i + 1;
    }
    assert(chs.take(i as int) =~= chs);
    out
}

/// Bytes one sample of the selected channels takes.
pub open spec fn sample_bytes(s: Seq<SelectedChannelBudgetV>) -> nat
    decreases s.len(),
{
    if s.len() == 0 {
        0
    } else {
        sample_bytes(s.drop_last()) + s.last().bytes_per_sample as nat
    }
}

/// Adds up the bytes of one sample; refused when the sum overflows.
pub fn bytes_per_sample(channels: &Vec<SelectedChannelBudget>) -> (r: Result<usize, LinkBudgetError>)
    ensures
        match r {
            Ok(n) => n == sample_bytes(channels@.map_values(|s: SelectedChannelBudget| s@)),
            Err(e) => e == LinkBudgetError::Overflow && sample_bytes(
                channels@.map_values(|s: SelectedChannelBudget| s@),
            ) > usize::MAX,
        },
{
    let ghost v = channels@.map_values(|s: SelectedChannelBudget| s@);
    let mut total: usize = 0;
    let mut i: usize = 0;
    while i < channels.len()
        invariant
            v == channels@.map_values(|s: SelectedChannelBudget| s@),
            0 <= i <= v.len(),
            total == sample_bytes(v.take(i as int)),
        decreases v.len() - i,
    {
        proof {
            assert(v.take(i + 1).drop_last() =~= v.take(i as int));
            assert(v.take(i + 1).last() == channels@[i as int]@);
        }
        match total.checked_add(channels[i].bytes_per_sample) {
            Some(t) => total = t,
            None => {
                proof {
                    lemma_sample_bytes_prefix(v, i + 1);
                }
                return Err(LinkBudgetError::Overflow);
            },
        }
        i = i + 1;
    }
    assert(v.take(i as int) =~= v);
    Ok(total)
}

proof fn lemma_sample_bytes_prefix(s: Seq<SelectedChannelBudgetV>, k: int)
    requires
        0 <= k <= s.len(),
    ensures
        sample_bytes(s.take(k)) <= sample_bytes(s),
    decreases s.len(),
{
    if k < s.len() {
        lemma_sample_bytes_prefix(s.drop_last(), k);
        assert(s.drop_last().take(k) =~= s.take(k));
    } else {
        assert(s.take(k) =~= s);
    }
}

/// Sizes of one batch: its sample data, its payload and its frame.
#[derive(Clone, Copy, Debug, PartialEq, Eq, Structural)]
pub struct LinkFrameSizes {
    pub sample_data_bytes: usize,
    pub payload_bytes: usize,
    pub frame_bytes: usize,
}

/// The sizes of a batch of `batch_samples` rows of `channel_count` channels
/// taking `bytes_per_sample` bytes per row.
pub open spec fn spec_frame_sizes(channel_count: nat, bytes_per_sample: nat, batch_samples: nat) -> (nat, nat, nat) {
    let data = bytes_per_sample * batch_samples;
    let payload = SAMPLE_BATCH_FIXED_PAYLOAD_BYTES as nat + channel_count * CHANNEL_ID_BYTES as nat + data;
    (data, payload, FRAME_HEADER_LEN as nat + payload + FRAME_CRC_LEN as nat)
}

/// Computes the sizes; refused when one of them overflows.
pub fn link_frame_sizes(channel_count: usize, bytes_per_sample: usize, batch_samples: usize) -> (r: Result<
    LinkFrameSizes,
    LinkBudgetError,
>)
    ensures
        ({
            let s = spec_frame_sizes(channel_count as nat, bytes_per_sample as nat, batch_samples as nat);
            match r {
                Ok(z) => z.sample_data_bytes == s.0 && z.payload_bytes == s.1 && z.frame_bytes == s.2,
                Err(e) => e == LinkBudgetError::Overflow && (s.0 > usize::MAX || channel_count
                    * CHANNEL_ID_BYTES > usize::MAX || s.1 > usize::MAX || s.2 > usize::MAX),
            }
        }),
{
    let sample_data_bytes = match bytes_per_sample.checked_mul(batch_samples) {
        Some(x) => x,
        None => return Err(LinkBudgetError::Overflow),
    };
    let channel_list_bytes = match channel_count.checked_mul(CHANNEL_ID_BYTES) {
        Some(x) => x,
        None => return Err(LinkBudgetError::Overflow),
    };
    let payload_bytes = match SAMPLE_BATCH_FIXED_PAYLOAD_BYTES.checked_add(channel_list_bytes) {
        Some(x) => match x.checked_add(sample_data_bytes) {
            Some(y) => y,
            None => return Err(LinkBudgetError::Overflow),
        },
        None => return Err(LinkBudgetError::Overflow),
    };
    let frame_bytes = match FRAME_HEADER_LEN.checked_add(payload_bytes) {
        Some(x) => match x.checked_add(FRAME_CRC_LEN) {
            Some(y) => y,
            None => return Err(LinkBudgetError::Overflow),
        },
        None => return Err(LinkBudgetError::Overflow),
    };
    Ok(LinkFrameSizes { sample_data_bytes, payload_bytes, frame_bytes })
}

} // verus!
