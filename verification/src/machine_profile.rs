//! Machine-readable protocol contracts used by hardware acceptance runs: the
//! profile model, its schema rules, and its compatibility with what a device
//! announces.

use vstd::prelude::*;

use crate::protocol::{ChannelDescriptor, ChannelTable, WireFormat};
use crate::protocol_v2::SampleDomain;
use crate::protocol_v2_r2::{
    stream_r2_views, StreamDescriptorR2, StreamDescriptorR2V, StreamTableR2, StreamTableR2V,
    CAPABILITY_V2_COMPRESSED_METADATA, CAPABILITY_V2_MULTI_STREAM, CAPABILITY_V2_STREAMS_R2,
};
use crate::simulator::same_text;

verus! {

#[derive(Clone, Copy, Debug, PartialEq, Eq, Structural)]
pub struct ProfileCausalGroup {
    pub consistency_group: u16,
    pub logical_cycle_rate_hz: u32,
}

/// What a profile expects of one stream.
#[derive(Clone, Debug, PartialEq, Eq)]
pub struct ProfileStream {
    pub name: String,
    pub required: bool,
    pub domain: String,
    pub rate_hz: u32,
    pub logical_cycle_step: u32,
    pub consistency_group: u16,
    pub required_channels: Vec<String>,
    pub optional_channels: Vec<String>,
}

/// What a profile expects of one channel; the scale is an `f32` bit pattern.
#[derive(Clone, Debug, PartialEq, Eq)]
pub struct ProfileChannel {
    pub name: String,
    pub wire_format: String,
    pub scale_bits: u32,
    pub unit: String,
}

#[derive(Clone, Debug, PartialEq, Eq)]
pub struct MachineProfile {
    pub profile_version: u32,
    pub profile_name: String,
    pub protocol: String,
    pub protocol_revision: u8,
    pub stream_table_revision: u32,
    pub required_capabilities: Vec<String>,
    pub causal_groups: Vec<ProfileCausalGroup>,
    pub streams: Vec<ProfileStream>,
    pub channels: Vec<ProfileChannel>,
}

/// Why a profile does not follow its own schema.
#[derive(Clone, Debug, PartialEq, Eq)]
pub enum ProfileInvalid {
    MissingIdentity,
    EmptySections,
    DuplicateChannelNames,
    UnknownDomain(String),
    ZeroRateOrStep(String),
    UndefinedChannel { stream: String, channel: String },
    UnknownCapability(String),
}

/// Why a device does not speak the profile's protocol.
#[derive(Clone, Debug, PartialEq, Eq)]
pub enum ProtocolMismatch {
    WrongProtocol { protocol: String, revision: u8 },
    StreamTableRevision { actual: u32, expected: u32 },
}

/// Why a profile is refused or does not match a device.
#[allow(inconsistent_fields)]
#[derive(Clone, Debug, PartialEq, Eq)]
pub enum ProfileError {
    Invalid(ProfileInvalid),
    CapabilityMismatch(String),
    MissingStream(String),
    StreamRateMismatch { stream: String, expected: u32, actual: u32 },
    LogicalStepMismatch { stream: String, expected: u32, actual: u32 },
    ConsistencyGroupMismatch { stream: String, expected: u16, actual: u16 },
    MissingChannel(String),
    ChannelFormatMismatch { channel: String, expected: String, actual: String },
    /// Scales as `f32` bit patterns.
    ChannelScaleMismatch { channel: String, expected_bits: u32, actual_bits: u32 },
    ChannelUnitMismatch { channel: String, expected: String, actual: String },
    ProtocolMismatch(ProtocolMismatch),
}

/// The code `code` gives for each failure.
pub open spec fn profile_error_code(e: ProfileError) -> Seq<char> {
    match e {
        ProfileError::Invalid(_) => "profile_schema_invalid"@,
        ProfileError::CapabilityMismatch(_) => "profile_capability_mismatch"@,
        ProfileError::MissingStream(_) => "profile_missing_stream"@,
        ProfileError::StreamRateMismatch { .. } => "profile_stream_rate_mismatch"@,
        ProfileError::LogicalStepMismatch { .. } => "profile_logical_step_mismatch"@,
        ProfileError::ConsistencyGroupMismatch { .. } => "profile_consistency_group_mismatch"@,
        ProfileError::MissingChannel(_) => "profile_missing_channel"@,
        ProfileError::ChannelFormatMismatch { .. } => "profile_channel_format_mismatch"@,
        ProfileError::ChannelScaleMismatch { .. } => "profile_channel_scale_mismatch"@,
        ProfileError::ChannelUnitMismatch { .. } => "profile_channel_unit_mismatch"@,
        ProfileError::ProtocolMismatch(_) => "profile_protocol_mismatch"@,
    }
}

impl ProfileError {
    /// The stable code acceptance reports carry.
    pub fn code(&self) -> (r: &'static str)
        ensures
            r@ == profile_error_code(*self),
    {
        match self {
            ProfileError::Invalid(_) => "profile_schema_invalid",
            ProfileError::CapabilityMismatch(_) => "profile_capability_mismatch",
            ProfileError::MissingStream(_) => "profile_missing_stream",
            ProfileError::StreamRateMismatch { .. } => "profile_stream_rate_mismatch",
            ProfileError::LogicalStepMismatch { .. } => "profile_logical_step_mismatch",
            ProfileError::ConsistencyGroupMismatch { .. } => "profile_consistency_group_mismatch",
            ProfileError::MissingChannel(_) => "profile_missing_channel",
            ProfileError::ChannelFormatMismatch { .. } => "profile_channel_format_mismatch",
            ProfileError::ChannelScaleMismatch { .. } => "profile_channel_scale_mismatch",
            ProfileError::ChannelUnitMismatch { .. } => "profile_channel_unit_mismatch",
            ProfileError::ProtocolMismatch(_) => "profile_protocol_mismatch",
        }
    }
}

// ---------------------------------------------------------------------------
// Text
// ---------------------------------------------------------------------------

/// The characters with the Unicode White_Space property.
pub open spec fn is_white_space(c: char) -> bool {
    let u = c as u32;
    ||| 0x9 <= u <= 0xd
    ||| u == 0x20
    ||| u == 0x85
    ||| u == 0xa0
    ||| u == 0x1680
    ||| 0x2000 <= u <= 0x200a
    ||| u == 0x2028
    ||| u == 0x2029
    ||| u == 0x202f
    ||| u == 0x205f
    ||| u == 0x3000
}

/// Nothing but white space: empty once trimmed.
pub open spec fn is_blank(s: Seq<char>) -> bool {
    forall|i: int| 0 <= i < s.len() ==> is_white_space(#[trigger] s[i])
}

fn white_space(c: char) -> (r: bool)
    ensures
        r == is_white_space(c),
{
    let u = c as u32;
    (0x9 <= u && u <= 0xd) || u == 0x20 || u == 0x85 || u == 0xa0 || u == 0x1680 || (0x2000 <= u && u
        <= 0x200a) || u == 0x2028 || u == 0x2029 || u == 0x202f || u == 0x205f || u == 0x3000
}

fn blank(s: &str) -> (r: bool)
    ensures
        r == is_blank(s@),
{
    let n = s.unicode_len();
    let mut i: usize = 0;
    while i < n
        invariant
            n == s@.len(),
            i <= n,
            forall|j: int| 0 <= j < i ==> is_white_space(#[trigger] s@[j]),
        decreases n - i,
    {
        if !white_space(s.get_char(i)) {
            return false;
        }
        i = i + 1;
    }
    true
}

pub open spec fn spec_parse_domain(s: Seq<char>) -> Option<SampleDomain> {
    if s == "FAST32K"@ {
        Some(SampleDomain::Fast32k)
    } else if s == "CTRL8K"@ {
        Some(SampleDomain::Control8k)
    } else if s == "SLOW1K"@ {
        Some(SampleDomain::Slow1k)
    } else {
        None
    }
}

fn parse_domain(s: &str) -> (r: Option<SampleDomain>)
    ensures
        r == spec_parse_domain(s@),
{
    if same_text(s, "FAST32K") {
        Some(SampleDomain::Fast32k)
    } else if same_text(s, "CTRL8K") {
        Some(SampleDomain::Control8k)
    } else if same_text(s, "SLOW1K") {
        Some(SampleDomain::Slow1k)
    } else {
        None
    }
}

pub open spec fn spec_capability_bit(s: Seq<char>) -> Option<u32> {
    if s == "CAPABILITY_V2_STREAMS_R2"@ {
        Some(CAPABILITY_V2_STREAMS_R2)
    } else if s == "CAPABILITY_V2_MULTI_STREAM"@ {
        Some(CAPABILITY_V2_MULTI_STREAM)
    } else if s == "CAPABILITY_V2_COMPRESSED_METADATA"@ {
        Some(CAPABILITY_V2_COMPRESSED_METADATA)
    } else {
        None
    }
}

fn capability_bit(s: &str) -> (r: Option<u32>)
    ensures
        r == spec_capability_bit(s@),
{
    if same_text(s, "CAPABILITY_V2_STREAMS_R2") {
        Some(CAPABILITY_V2_STREAMS_R2)
    } else if same_text(s, "CAPABILITY_V2_MULTI_STREAM") {
        Some(CAPABILITY_V2_MULTI_STREAM)
    } else if same_text(s, "CAPABILITY_V2_COMPRESSED_METADATA") {
        Some(CAPABILITY_V2_COMPRESSED_METADATA)
    } else {
        None
    }
}

pub open spec fn spec_wire_format_name(f: WireFormat) -> &'static str {
    match f {
        WireFormat::I16 => "I16",
        WireFormat::I32 => "I32",
        WireFormat::F32 => "F32",
        WireFormat::U8 => "U8",
    }
}

fn wire_format_name(f: WireFormat) -> (r: &'static str)
    ensures
        r@ == spec_wire_format_name(f)@,
{
    match f {
        WireFormat::I16 => "I16",
        WireFormat::I32 => "I32",
        WireFormat::F32 => "F32",
        WireFormat::U8 => "U8",
    }
}

// ---------------------------------------------------------------------------
// Schema
// ---------------------------------------------------------------------------

pub open spec fn identity_missing(p: MachineProfile) -> bool {
    p.profile_version == 0 || is_blank(p.profile_name@)
}

pub open spec fn sections_empty(p: MachineProfile) -> bool {
    p.causal_groups@.len() == 0 || p.streams@.len() == 0 || p.channels@.len() == 0
}

pub open spec fn channel_names_distinct(chs: Seq<ProfileChannel>) -> bool {
    forall|i: int, j: int| 0 <= i < j < chs.len() ==> chs[i].name@ != chs[j].name@
}

/// The profile defines a channel named `n`.
pub open spec fn defines(chs: Seq<ProfileChannel>, n: Seq<char>) -> bool {
    exists|i: int| 0 <= i < chs.len() && chs[i].name@ == n
}

/// The channels a stream names: the required ones, then the optional ones.
pub open spec fn named_channels(st: ProfileStream) -> Seq<String> {
    st.required_channels@ + st.optional_channels@
}

pub open spec fn stream_schema_ok(chs: Seq<ProfileChannel>, st: ProfileStream) -> bool {
    &&& spec_parse_domain(st.domain@) is Some
    &&& st.rate_hz != 0
    &&& st.logical_cycle_step != 0
    &&& forall|k: int| 0 <= k < named_channels(st).len() ==> defines(chs, #[trigger] named_channels(st)[k]@)
}

/// The profile follows its schema: an identity, non-empty sections, distinct
/// channel names, and streams of a known domain with a rate and a step that
/// name only defined channels.
pub open spec fn schema_ok(p: MachineProfile) -> bool {
    &&& !identity_missing(p)
    &&& !sections_empty(p)
    &&& channel_names_distinct(p.channels@)
    &&& forall|i: int| 0 <= i < p.streams@.len() ==> stream_schema_ok(p.channels@, #[trigger] p.streams@[i])
}

/// How a stream that breaks the schema is refused: its domain first, then
/// its rate and step, then the first channel it names that is not defined.
pub open spec fn stream_schema_refusal(chs: Seq<ProfileChannel>, st: ProfileStream, e: ProfileInvalid) -> bool {
    if spec_parse_domain(st.domain@) is None {
        e matches ProfileInvalid::UnknownDomain(d) && d@ == st.domain@
    } else if st.rate_hz == 0 || st.logical_cycle_step == 0 {
        e matches ProfileInvalid::ZeroRateOrStep(n) && n@ == st.name@
    } else {
        exists|k: int|
            0 <= k < named_channels(st).len() && !defines(chs, #[trigger] named_channels(st)[k]@) && (forall|j: int|
                0 <= j < k ==> defines(chs, #[trigger] named_channels(st)[j]@)) && (e matches ProfileInvalid::UndefinedChannel {
                stream,
                channel,
            } && stream@ == st.name@ && channel@ == named_channels(st)[k]@)
    }
}

fn find_channel(chs: &Vec<ProfileChannel>, name: &String) -> (r: Option<usize>)
    ensures
        match r {
            Some(i) => i < chs@.len() && chs@[i as int].name@ == name@ && forall|j: int|
                0 <= j < i ==> chs@[j].name@ != name@,
            None => !defines(chs@, name@),
        },
{
    let mut i: usize = 0;
    while i < chs.len()
        invariant
            i <= chs@.len(),
            forall|j: int| 0 <= j < i ==> chs@[j].name@ != name@,
        decreases chs.len() - i,
    {
        if chs[i].name == *name {
            return Some(i);
        }
        i = i + 1;
    }
    None
}

fn check_stream_schema(chs: &Vec<ProfileChannel>, st: &ProfileStream) -> (r: Result<(), ProfileInvalid>)
    ensures
        r is Ok <==> stream_schema_ok(chs@, *st),
        r matches Err(e) ==> stream_schema_refusal(chs@, *st, e),
{
    if parse_domain(st.domain.as_str()).is_none() {
        return Err(ProfileInvalid::UnknownDomain(st.domain.clone()));
    }
    if st.rate_hz == 0 || st.logical_cycle_step == 0 {
        return Err(ProfileInvalid::ZeroRateOrStep(st.name.clone()));
    }
    let ghost names = named_channels(*st);
    let nr = st.required_channels.len();
    let mut k: usize = 0;
    while k < nr
        invariant
            nr == st.required_channels@.len(),
            k <= nr,
            names == named_channels(*st),
            spec_parse_domain(st.domain@) is Some,
            st.rate_hz != 0,
            st.logical_cycle_step != 0,
            forall|j: int| 0 <= j < k ==> defines(chs@, #[trigger] names[j]@),
        decreases nr - k,
    {
        assert(names[k as int] == st.required_channels@[k as int]);
        if find_channel(chs, &st.required_channels[k]).is_none() {
            assert(!defines(chs@, names[k as int]@));
            return Err(ProfileInvalid::UndefinedChannel { stream: st.name.clone(), channel: st.required_channels[k].clone() });
        }
        k = k + 1;
    }
    let no = st.optional_channels.len();
    let mut k: usize = 0;
    while k < no
        invariant
            nr == st.required_channels@.len(),
            no == st.optional_channels@.len(),
            k <= no,
            names == named_channels(*st),
            spec_parse_domain(st.domain@) is Some,
            st.rate_hz != 0,
            st.logical_cycle_step != 0,
            forall|j: int| 0 <= j < nr + k ==> defines(chs@, #[trigger] names[j]@),
        decreases no - k,
    {
        assert(names[nr + k] == st.optional_channels@[k as int]);
        if find_channel(chs, &st.optional_channels[k]).is_none() {
            assert(!defines(chs@, names[nr + k]@));
            return Err(ProfileInvalid::UndefinedChannel { stream: st.name.clone(), channel: st.optional_channels[k].clone() });
        }
        k = k + 1;
    }
    Ok(())
}

impl MachineProfile {
    /// Checks the schema rules in order: identity, non-empty sections,
    /// distinct channel names, then each stream in turn.
    pub fn validate_schema(&self) -> (r: Result<(), ProfileError>)
        ensures
            r is Ok <==> schema_ok(*self),
            identity_missing(*self) ==> r == Err::<(), ProfileError>(ProfileError::Invalid(ProfileInvalid::MissingIdentity)),
            !identity_missing(*self) && sections_empty(*self) ==> r == Err::<(), ProfileError>(
                ProfileError::Invalid(ProfileInvalid::EmptySections),
            ),
            !identity_missing(*self) && !sections_empty(*self) && !channel_names_distinct(self.channels@) ==> r
                == Err::<(), ProfileError>(ProfileError::Invalid(ProfileInvalid::DuplicateChannelNames)),
            !identity_missing(*self) && !sections_empty(*self) && channel_names_distinct(self.channels@) && !schema_ok(
                *self,
            ) ==> exists|i: int|
                0 <= i < self.streams@.len() && !stream_schema_ok(self.channels@, #[trigger] self.streams@[i])
                    && (forall|j: int| 0 <= j < i ==> stream_schema_ok(self.channels@, #[trigger] self.streams@[j]))
                    && (r matches Err(ProfileError::Invalid(e)) && stream_schema_refusal(self.channels@, self.streams@[i], e)),
    {
        if self.profile_version == 0 || blank(self.profile_name.as_str()) {
            return Err(ProfileError::Invalid(ProfileInvalid::MissingIdentity));
        }
        if self.causal_groups.len() == 0 || self.streams.len() == 0 || self.channels.len() == 0 {
            return Err(ProfileError::Invalid(ProfileInvalid::EmptySections));
        }
        let chs = &self.channels;
        let mut i: usize = 0;
        while i < chs.len()
            invariant
                i <= chs@.len(),
                chs@ == self.channels@,
                !identity_missing(*self),
                !sections_empty(*self),
                forall|a: int, b: int| 0 <= a < b < i ==> chs@[a].name@ != chs@[b].name@,
            decreases chs.len() - i,
        {
            let mut j: usize = 0;
            while j < i
                invariant
                    j <= i < chs@.len(),
                    chs@ == self.channels@,
                    !identity_missing(*self),
                    !sections_empty(*self),
                    forall|a: int| 0 <= a < j ==> chs@[a].name@ != chs@[i as int].name@,
                decreases i - j,
            {
                if chs[j].name == chs[i].name {
                    assert(!channel_names_distinct(self.channels@));
                    return Err(ProfileError::Invalid(ProfileInvalid::DuplicateChannelNames));
                }
                j = j + 1;
            }
            i = i + 1;
        }
        let mut s: usize = 0;
        while s < self.streams.len()
            invariant
                s <= self.streams@.len(),
                !identity_missing(*self),
                !sections_empty(*self),
                channel_names_distinct(self.channels@),
                forall|j: int| 0 <= j < s ==> stream_schema_ok(self.channels@, #[trigger] self.streams@[j]),
            decreases self.streams.len() - s,
        {
            match check_stream_schema(&self.channels, &self.streams[s]) {
                Ok(()) => {},
                Err(e) => {
                    return Err(ProfileError::Invalid(e));
                },
            }
            s = s + 1;
        }
        Ok(())
    }
}

// ---------------------------------------------------------------------------
// Compatibility with a device
// ---------------------------------------------------------------------------

pub enum ProfileInvalidV {
    MissingIdentity,
    EmptySections,
    DuplicateChannelNames,
    UnknownDomain(Seq<char>),
    ZeroRateOrStep(Seq<char>),
    UndefinedChannel { stream: Seq<char>, channel: Seq<char> },
    UnknownCapability(Seq<char>),
}

impl View for ProfileInvalid {
    type V = ProfileInvalidV;

    open spec fn view(&self) -> ProfileInvalidV {
        match self {
            ProfileInvalid::MissingIdentity => ProfileInvalidV::MissingIdentity,
            ProfileInvalid::EmptySections => ProfileInvalidV::EmptySections,
            ProfileInvalid::DuplicateChannelNames => ProfileInvalidV::DuplicateChannelNames,
            ProfileInvalid::UnknownDomain(d) => ProfileInvalidV::UnknownDomain(d@),
            ProfileInvalid::ZeroRateOrStep(n) => ProfileInvalidV::ZeroRateOrStep(n@),
            ProfileInvalid::UndefinedChannel { stream, channel } => ProfileInvalidV::UndefinedChannel {
                stream: stream@,
                channel: channel@,
            },
            ProfileInvalid::UnknownCapability(c) => ProfileInvalidV::UnknownCapability(c@),
        }
    }
}

pub enum ProtocolMismatchV {
    WrongProtocol { protocol: Seq<char>, revision: u8 },
    StreamTableRevision { actual: u32, expected: u32 },
}

impl View for ProtocolMismatch {
    type V = ProtocolMismatchV;

    open spec fn view(&self) -> ProtocolMismatchV {
        match self {
            ProtocolMismatch::WrongProtocol { protocol, revision } => ProtocolMismatchV::WrongProtocol {
                protocol: protocol@,
                revision: *revision,
            },
            ProtocolMismatch::StreamTableRevision { actual, expected } => ProtocolMismatchV::StreamTableRevision {
                actual: *actual,
                expected: *expected,
            },
        }
    }
}

#[allow(inconsistent_fields)]
pub enum ProfileErrorV {
    Invalid(ProfileInvalidV),
    CapabilityMismatch(Seq<char>),
    MissingStream(Seq<char>),
    StreamRateMismatch { stream: Seq<char>, expected: u32, actual: u32 },
    LogicalStepMismatch { stream: Seq<char>, expected: u32, actual: u32 },
    ConsistencyGroupMismatch { stream: Seq<char>, expected: u16, actual: u16 },
    MissingChannel(Seq<char>),
    ChannelFormatMismatch { channel: Seq<char>, expected: Seq<char>, actual: Seq<char> },
    ChannelScaleMismatch { channel: Seq<char>, expected_bits: u32, actual_bits: u32 },
    ChannelUnitMismatch { channel: Seq<char>, expected: Seq<char>, actual: Seq<char> },
    ProtocolMismatch(ProtocolMismatchV),
}

impl View for ProfileError {
    type V = ProfileErrorV;

    open spec fn view(&self) -> ProfileErrorV {
        match self {
            ProfileError::Invalid(e) => ProfileErrorV::Invalid(e@),
            ProfileError::CapabilityMismatch(c) => ProfileErrorV::CapabilityMismatch(c@),
            ProfileError::MissingStream(s) => ProfileErrorV::MissingStream(s@),
            ProfileError::StreamRateMismatch { stream, expected, actual } => ProfileErrorV::StreamRateMismatch {
                stream: stream@,
                expected: *expected,
                actual: *actual,
            },
            ProfileError::LogicalStepMismatch { stream, expected, actual } => ProfileErrorV::LogicalStepMismatch {
                stream: stream@,
                expected: *expected,
                actual: *actual,
            },
            ProfileError::ConsistencyGroupMismatch { stream, expected, actual } => ProfileErrorV::ConsistencyGroupMismatch {
                stream: stream@,
                expected: *expected,
                actual: *actual,
            },
            ProfileError::MissingChannel(c) => ProfileErrorV::MissingChannel(c@),
            ProfileError::ChannelFormatMismatch { channel, expected, actual } => ProfileErrorV::ChannelFormatMismatch {
                channel: channel@,
                expected: expected@,
                actual: actual@,
            },
            ProfileError::ChannelScaleMismatch { channel, expected_bits, actual_bits } => ProfileErrorV::ChannelScaleMismatch {
                channel: channel@,
                expected_bits: *expected_bits,
                actual_bits: *actual_bits,
            },
            ProfileError::ChannelUnitMismatch { channel, expected, actual } => ProfileErrorV::ChannelUnitMismatch {
                channel: channel@,
                expected: expected@,
                actual: actual@,
            },
            ProfileError::ProtocolMismatch(m) => ProfileErrorV::ProtocolMismatch(m@),
        }
    }
}

/// A scale comparison the check hands out: the channel's scale and the
/// profile's, as `f32` bit patterns.
#[derive(Clone, Debug, PartialEq, Eq)]
pub struct ScaleCheck {
    pub channel: String,
    pub expected_bits: u32,
    pub actual_bits: u32,
}

pub struct ScaleCheckV {
    pub channel: Seq<char>,
    pub expected_bits: u32,
    pub actual_bits: u32,
}

impl View for ScaleCheck {
    type V = ScaleCheckV;

    open spec fn view(&self) -> ScaleCheckV {
        ScaleCheckV { channel: self.channel@, expected_bits: self.expected_bits, actual_bits: self.actual_bits }
    }
}

/// The compatibility check up to its floating-point part: the scale
/// comparisons to make, in order, and the outcome should all of them pass.
/// A refused scale comes before the outcome.
#[derive(Debug)]
pub struct CompatibilityChecks {
    pub scale_checks: Vec<ScaleCheck>,
    pub outcome: Result<(), ProfileError>,
}

/// Scale comparisons, then the refusal if any.
pub type Plan = (Seq<ScaleCheckV>, Option<ProfileErrorV>);

pub open spec fn refused(e: ProfileErrorV) -> Plan {
    (Seq::empty(), Some(e))
}

pub open spec fn passed() -> Plan {
    (Seq::empty(), None)
}

/// `a`, then `b` unless `a` was refused.
pub open spec fn then(a: Plan, b: Plan) -> Plan {
    if a.1 is Some {
        a
    } else {
        (a.0 + b.0, b.1)
    }
}

/// The first profile channel named `n`.
pub open spec fn profile_channel(pcs: Seq<ProfileChannel>, n: Seq<char>) -> Option<ProfileChannel>
    decreases pcs.len(),
{
    if pcs.len() == 0 {
        None
    } else if pcs[0].name@ == n {
        Some(pcs[0])
    } else {
        profile_channel(pcs.drop_first(), n)
    }
}

/// The first table channel named `n` that the stream with `ids` carries.
pub open spec fn device_channel(chs: Seq<ChannelDescriptor>, ids: Seq<u16>, n: Seq<char>) -> Option<ChannelDescriptor>
    decreases chs.len(),
{
    if chs.len() == 0 {
        None
    } else if chs[0].name@ == n && ids.contains(chs[0].channel_id) {
        Some(chs[0])
    } else {
        device_channel(chs.drop_first(), ids, n)
    }
}

/// The first profile stream whose domain is `d`.
pub open spec fn first_profile_stream(sts: Seq<ProfileStream>, d: SampleDomain) -> Option<ProfileStream>
    decreases sts.len(),
{
    if sts.len() == 0 {
        None
    } else if spec_parse_domain(sts[0].domain@) == Some(d) {
        Some(sts[0])
    } else {
        first_profile_stream(sts.drop_first(), d)
    }
}

/// The first device stream of domain `d`.
pub open spec fn device_stream(ss: Seq<StreamDescriptorR2V>, d: SampleDomain) -> Option<StreamDescriptorR2V>
    decreases ss.len(),
{
    if ss.len() == 0 {
        None
    } else if ss[0].domain == d {
        Some(ss[0])
    } else {
        device_stream(ss.drop_first(), d)
    }
}

/// A device channel against the profile's channel of its name: defined,
/// same format, then (outside) same scale, then same unit.
pub open spec fn channel_plan(pcs: Seq<ProfileChannel>, c: ChannelDescriptor) -> Plan {
    match profile_channel(pcs, c.name@) {
        None => refused(ProfileErrorV::MissingChannel(c.name@)),
        Some(e) => if spec_wire_format_name(c.wire_format)@ != e.wire_format@ {
            refused(
                ProfileErrorV::ChannelFormatMismatch {
                    channel: c.name@,
                    expected: e.wire_format@,
                    actual: spec_wire_format_name(c.wire_format)@,
                },
            )
        } else {
            let sc = seq![ScaleCheckV { channel: c.name@, expected_bits: e.scale_bits, actual_bits: c.scale_bits }];
            if c.unit@ != e.unit@ {
                (sc, Some(ProfileErrorV::ChannelUnitMismatch { channel: c.name@, expected: e.unit@, actual: c.unit@ }))
            } else {
                (sc, None)
            }
        },
    }
}

/// The first `k` of the channel names a stream lists; a required name the
/// stream does not carry is refused, an optional one is skipped.
pub open spec fn names_plan(
    pcs: Seq<ProfileChannel>,
    chs: Seq<ChannelDescriptor>,
    ids: Seq<u16>,
    names: Seq<String>,
    required: bool,
    k: int,
) -> Plan
    decreases k,
{
    if k <= 0 {
        passed()
    } else {
        then(
            names_plan(pcs, chs, ids, names, required, k - 1),
            match device_channel(chs, ids, names[k - 1]@) {
                None => if required {
                    refused(ProfileErrorV::MissingChannel(names[k - 1]@))
                } else {
                    passed()
                },
                Some(c) => channel_plan(pcs, c),
            },
        )
    }
}

/// One profile stream against the device's stream of its domain.
pub open spec fn stream_plan(
    pcs: Seq<ProfileChannel>,
    chs: Seq<ChannelDescriptor>,
    ss: Seq<StreamDescriptorR2V>,
    st: ProfileStream,
) -> Plan {
    match spec_parse_domain(st.domain@) {
        None => refused(ProfileErrorV::Invalid(ProfileInvalidV::UnknownDomain(st.domain@))),
        Some(d) => match device_stream(ss, d) {
            None => if st.required {
                refused(ProfileErrorV::MissingStream(st.name@))
            } else {
                passed()
            },
            Some(a) => if a.sample_rate_hz != st.rate_hz {
                refused(ProfileErrorV::StreamRateMismatch { stream: st.name@, expected: st.rate_hz, actual: a.sample_rate_hz })
            } else if a.logical_cycle_step != st.logical_cycle_step {
                refused(
                    ProfileErrorV::LogicalStepMismatch {
                        stream: st.name@,
                        expected: st.logical_cycle_step,
                        actual: a.logical_cycle_step,
                    },
                )
            } else if a.consistency_group != st.consistency_group {
                refused(
                    ProfileErrorV::ConsistencyGroupMismatch {
                        stream: st.name@,
                        expected: st.consistency_group,
                        actual: a.consistency_group,
                    },
                )
            } else {
                then(
                    names_plan(pcs, chs, a.channel_ids, st.required_channels@, true, st.required_channels@.len() as int),
                    names_plan(pcs, chs, a.channel_ids, st.optional_channels@, false, st.optional_channels@.len() as int),
                )
            },
        },
    }
}

/// The first `k` profile streams.
pub open spec fn streams_plan(
    pcs: Seq<ProfileChannel>,
    chs: Seq<ChannelDescriptor>,
    ss: Seq<StreamDescriptorR2V>,
    sts: Seq<ProfileStream>,
    k: int,
) -> Plan
    decreases k,
{
    if k <= 0 {
        passed()
    } else {
        then(streams_plan(pcs, chs, ss, sts, k - 1), stream_plan(pcs, chs, ss, sts[k - 1]))
    }
}

/// The first of the first `k` required capabilities that is unknown or that
/// the device lacks.
pub open spec fn capability_refusal(names: Seq<String>, caps: u32, k: int) -> Option<ProfileErrorV>
    decreases k,
{
    if k <= 0 {
        None
    } else {
        match capability_refusal(names, caps, k - 1) {
            Some(e) => Some(e),
            None => match spec_capability_bit(names[k - 1]@) {
                None => Some(ProfileErrorV::Invalid(ProfileInvalidV::UnknownCapability(names[k - 1]@))),
                Some(bit) => if caps & bit == 0 {
                    Some(ProfileErrorV::CapabilityMismatch(names[k - 1]@))
                } else {
                    None
                },
            },
        }
    }
}

/// The whole check: protocol and revision, stream table revision, required
/// capabilities, then every profile stream in order.
pub open spec fn compatibility_plan(p: MachineProfile, caps: u32, chs: Seq<ChannelDescriptor>, t: StreamTableR2V) -> Plan {
    if p.protocol@ != "scp1-v2-r2"@ || p.protocol_revision != 2 {
        refused(
            ProfileErrorV::ProtocolMismatch(
                ProtocolMismatchV::WrongProtocol { protocol: p.protocol@, revision: p.protocol_revision },
            ),
        )
    } else if t.revision != p.stream_table_revision {
        refused(
            ProfileErrorV::ProtocolMismatch(
                ProtocolMismatchV::StreamTableRevision { actual: t.revision, expected: p.stream_table_revision },
            ),
        )
    } else {
        match capability_refusal(p.required_capabilities@, caps, p.required_capabilities@.len() as int) {
            Some(e) => refused(e),
            None => streams_plan(p.channels@, chs, t.streams, p.streams@, p.streams@.len() as int),
        }
    }
}

pub open spec fn checks_view(c: CompatibilityChecks) -> Plan {
    (
        c.scale_checks@.map_values(|s: ScaleCheck| s@),
        match c.outcome {
            Ok(()) => None,
            Err(e) => Some(e@),
        },
    )
}

pub open spec fn scale_views(v: Seq<ScaleCheck>) -> Seq<ScaleCheckV> {
    v.map_values(|s: ScaleCheck| s@)
}

pub open spec fn outcome_view(r: Result<(), ProfileError>) -> Option<ProfileErrorV> {
    match r {
        Ok(()) => None,
        Err(e) => Some(e@),
    }
}

proof fn lemma_names_plan_stops(
    pcs: Seq<ProfileChannel>,
    chs: Seq<ChannelDescriptor>,
    ids: Seq<u16>,
    names: Seq<String>,
    required: bool,
    j: int,
    m: int,
)
    requires
        0 <= j <= m,
        names_plan(pcs, chs, ids, names, required, j).1 is Some,
    ensures
        names_plan(pcs, chs, ids, names, required, m) == names_plan(pcs, chs, ids, names, required, j),
    decreases m - j,
{
    if m > j {
        lemma_names_plan_stops(pcs, chs, ids, names, required, j, m - 1);
    }
}

proof fn lemma_streams_plan_stops(
    pcs: Seq<ProfileChannel>,
    chs: Seq<ChannelDescriptor>,
    ss: Seq<StreamDescriptorR2V>,
    sts: Seq<ProfileStream>,
    j: int,
    m: int,
)
    requires
        0 <= j <= m,
        streams_plan(pcs, chs, ss, sts, j).1 is Some,
    ensures
        streams_plan(pcs, chs, ss, sts, m) == streams_plan(pcs, chs, ss, sts, j),
    decreases m - j,
{
    if m > j {
        lemma_streams_plan_stops(pcs, chs, ss, sts, j, m - 1);
    }
}

proof fn lemma_capability_refusal_stops(names: Seq<String>, caps: u32, j: int, m: int)
    requires
        0 <= j <= m,
        capability_refusal(names, caps, j) is Some,
    ensures
        capability_refusal(names, caps, m) == capability_refusal(names, caps, j),
    decreases m - j,
{
    if m > j {
        lemma_capability_refusal_stops(names, caps, j, m - 1);
    }
}

fn find_profile_channel(pcs: &Vec<ProfileChannel>, n: &String) -> (r: Option<usize>)
    ensures
        match profile_channel(pcs@, n@) {
            Some(c) => r matches Some(i) && i < pcs@.len() && pcs@[i as int] == c,
            None => r is None,
        },
{
    let mut i: usize = 0;
    assert(pcs@.subrange(0, pcs@.len() as int) =~= pcs@);
    while i < pcs.len()
        invariant
            i <= pcs@.len(),
            profile_channel(pcs@, n@) == profile_channel(pcs@.subrange(i as int, pcs@.len() as int), n@),
        decreases pcs.len() - i,
    {
        if pcs[i].name == *n {
            return Some(i);
        }
        assert(pcs@.subrange(i as int, pcs@.len() as int).drop_first() =~= pcs@.subrange(i + 1, pcs@.len() as int));
        i = i + 1;
    }
    None
}

fn has_id(ids: &Vec<u16>, id: u16) -> (r: bool)
    ensures
        r == ids@.contains(id),
{
    let mut i: usize = 0;
    while i < ids.len()
        invariant
            i <= ids@.len(),
            forall|j: int| 0 <= j < i ==> ids@[j] != id,
        decreases ids.len() - i,
    {
        if ids[i] == id {
            assert(ids@[i as int] == id);
            return true;
        }
        i = i + 1;
    }
    false
}

fn find_device_channel(chs: &Vec<ChannelDescriptor>, ids: &Vec<u16>, n: &String) -> (r: Option<usize>)
    ensures
        match device_channel(chs@, ids@, n@) {
            Some(c) => r matches Some(i) && i < chs@.len() && chs@[i as int] == c,
            None => r is None,
        },
{
    let mut i: usize = 0;
    assert(chs@.subrange(0, chs@.len() as int) =~= chs@);
    while i < chs.len()
        invariant
            i <= chs@.len(),
            device_channel(chs@, ids@, n@) == device_channel(chs@.subrange(i as int, chs@.len() as int), ids@, n@),
        decreases chs.len() - i,
    {
        if chs[i].name == *n && has_id(ids, chs[i].channel_id) {
            return Some(i);
        }
        assert(chs@.subrange(i as int, chs@.len() as int).drop_first() =~= chs@.subrange(i + 1, chs@.len() as int));
        i = i + 1;
    }
    None
}

pub(crate) fn find_device_stream(ss: &Vec<StreamDescriptorR2>, d: SampleDomain) -> (r: Option<usize>)
    ensures
        match device_stream(stream_r2_views(ss@), d) {
            Some(x) => r matches Some(i) && i < ss@.len() && ss@[i as int]@ == x,
            None => r is None,
        },
{
    let ghost v = stream_r2_views(ss@);
    let mut i: usize = 0;
    assert(v.subrange(0, v.len() as int) =~= v);
    while i < ss.len()
        invariant
            i <= ss@.len(),
            v == stream_r2_views(ss@),
            v.len() == ss@.len(),
            device_stream(v, d) == device_stream(v.subrange(i as int, v.len() as int), d),
        decreases ss.len() - i,
    {
        if ss[i].domain == d {
            assert(v[i as int] == ss@[i as int]@);
            return Some(i);
        }
        assert(v.subrange(i as int, v.len() as int).drop_first() =~= v.subrange(i + 1, v.len() as int));
        i = i + 1;
    }
    None
}

fn check_channel(pcs: &Vec<ProfileChannel>, c: &ChannelDescriptor, checks: &mut Vec<ScaleCheck>) -> (r: Result<
    (),
    ProfileError,
>)
    ensures
        scale_views(final(checks)@) == scale_views(old(checks)@) + channel_plan(pcs@, *c).0,
        outcome_view(r) == channel_plan(pcs@, *c).1,
{
    let ghost before = checks@;
    let e = match find_profile_channel(pcs, &c.name) {
        Some(i) => &pcs[i],
        None => {
            assert(scale_views(checks@) =~= scale_views(before) + Seq::<ScaleCheckV>::empty());
            return Err(ProfileError::MissingChannel(c.name.clone()));
        },
    };
    let format = wire_format_name(c.wire_format);
    if !same_text(format, e.wire_format.as_str()) {
        assert(scale_views(checks@) =~= scale_views(before) + Seq::<ScaleCheckV>::empty());
        return Err(
            ProfileError::ChannelFormatMismatch {
                channel: c.name.clone(),
                expected: e.wire_format.clone(),
                actual: format.to_owned(),
            },
        );
    }
    checks.push(ScaleCheck { channel: c.name.clone(), expected_bits: e.scale_bits, actual_bits: c.scale_bits });
    assert(scale_views(checks@) =~= scale_views(before) + channel_plan(pcs@, *c).0);
    if c.unit != e.unit {
        return Err(ProfileError::ChannelUnitMismatch { channel: c.name.clone(), expected: e.unit.clone(), actual: c.unit.clone() });
    }
    Ok(())
}

fn check_names(
    pcs: &Vec<ProfileChannel>,
    chs: &Vec<ChannelDescriptor>,
    ids: &Vec<u16>,
    names: &Vec<String>,
    required: bool,
    checks: &mut Vec<ScaleCheck>,
) -> (r: Result<(), ProfileError>)
    ensures
        scale_views(final(checks)@) == scale_views(old(checks)@) + names_plan(
            pcs@,
            chs@,
            ids@,
            names@,
            required,
            names@.len() as int,
        ).0,
        outcome_view(r) == names_plan(pcs@, chs@, ids@, names@, required, names@.len() as int).1,
{
    let ghost before = checks@;
    let mut k: usize = 0;
    assert(scale_views(checks@) =~= scale_views(before) + names_plan(pcs@, chs@, ids@, names@, required, 0).0);
    while k < names.len()
        invariant
            k <= names@.len(),
            before == old(checks)@,
            names_plan(pcs@, chs@, ids@, names@, required, k as int).1 is None,
            scale_views(checks@) == scale_views(before) + names_plan(pcs@, chs@, ids@, names@, required, k as int).0,
        decreases names.len() - k,
    {
        let ghost mid = checks@;
        match find_device_channel(chs, ids, &names[k]) {
            None => {
                if required {
                    assert(scale_views(checks@) =~= scale_views(before) + names_plan(
                        pcs@,
                        chs@,
                        ids@,
                        names@,
                        required,
                        k + 1,
                    ).0);
                    proof {
                        lemma_names_plan_stops(pcs@, chs@, ids@, names@, required, k + 1, names@.len() as int);
                    }
                    return Err(ProfileError::MissingChannel(names[k].clone()));
                }
                assert(scale_views(checks@) =~= scale_views(before) + names_plan(pcs@, chs@, ids@, names@, required, k + 1).0);
            },
            Some(i) => {
                let r = check_channel(pcs, &chs[i], checks);
                assert(scale_views(checks@) =~= scale_views(before) + names_plan(pcs@, chs@, ids@, names@, required, k + 1).0);
                if r.is_err() {
                    proof {
                        lemma_names_plan_stops(pcs@, chs@, ids@, names@, required, k + 1, names@.len() as int);
                    }
                    return r;
                }
            },
        }
        k = k + 1;
    }
    Ok(())
}

fn check_stream(
    pcs: &Vec<ProfileChannel>,
    chs: &Vec<ChannelDescriptor>,
    ss: &Vec<StreamDescriptorR2>,
    st: &ProfileStream,
    checks: &mut Vec<ScaleCheck>,
) -> (r: Result<(), ProfileError>)
    ensures
        scale_views(final(checks)@) == scale_views(old(checks)@) + stream_plan(pcs@, chs@, stream_r2_views(ss@), *st).0,
        outcome_view(r) == stream_plan(pcs@, chs@, stream_r2_views(ss@), *st).1,
{
    let ghost before = checks@;
    assert(scale_views(checks@) =~= scale_views(before) + Seq::<ScaleCheckV>::empty());
    let domain = match parse_domain(st.domain.as_str()) {
        Some(d) => d,
        None => {
            return Err(ProfileError::Invalid(ProfileInvalid::UnknownDomain(st.domain.clone())));
        },
    };
    let a = match find_device_stream(ss, domain) {
        Some(i) => &ss[i],
        None => {
            if st.required {
                return Err(ProfileError::MissingStream(st.name.clone()));
            }
            return Ok(());
        },
    };
    if a.sample_rate_hz != st.rate_hz {
        return Err(ProfileError::StreamRateMismatch { stream: st.name.clone(), expected: st.rate_hz, actual: a.sample_rate_hz });
    }
    if a.logical_cycle_step != st.logical_cycle_step {
        return Err(
            ProfileError::LogicalStepMismatch {
                stream: st.name.clone(),
                expected: st.logical_cycle_step,
                actual: a.logical_cycle_step,
            },
        );
    }
    if a.consistency_group != st.consistency_group {
        return Err(
            ProfileError::ConsistencyGroupMismatch {
                stream: st.name.clone(),
                expected: st.consistency_group,
                actual: a.consistency_group,
            },
        );
    }
    let ghost mid = checks@;
    let r = check_names(pcs, chs, &a.channel_ids, &st.required_channels, true, checks);
    if r.is_err() {
        return r;
    }
    let r2 = check_names(pcs, chs, &a.channel_ids, &st.optional_channels, false, checks);
    assert(scale_views(checks@) =~= scale_views(before) + stream_plan(pcs@, chs@, stream_r2_views(ss@), *st).0);
    r2
}

impl MachineProfile {
    /// The first stream the profile gives for `domain`.
    pub fn stream(&self, domain: SampleDomain) -> (r: Option<&ProfileStream>)
        ensures
            match first_profile_stream(self.streams@, domain) {
                Some(x) => r matches Some(y) && *y == x,
                None => r is None,
            },
    {
        let ghost sts = self.streams@;
        let mut i: usize = 0;
        assert(sts.subrange(0, sts.len() as int) =~= sts);
        while i < self.streams.len()
            invariant
                i <= sts.len(),
                sts == self.streams@,
                first_profile_stream(sts, domain) == first_profile_stream(sts.subrange(i as int, sts.len() as int), domain),
            decreases self.streams.len() - i,
        {
            if parse_domain(self.streams[i].domain.as_str()) == Some(domain) {
                return Some(&self.streams[i]);
            }
            assert(sts.subrange(i as int, sts.len() as int).drop_first() =~= sts.subrange(i + 1, sts.len() as int));
            i = i + 1;
        }
        None
    }

    /// Checks the profile against what a device announced, in order:
    /// protocol, stream table revision, capabilities, then each stream.
    /// The scale comparisons it meets are handed out, in order, for the
    /// caller to make before it takes the outcome.
    pub fn compatibility_checks(&self, capabilities: u32, channels: &ChannelTable, streams: &StreamTableR2) -> (r:
        CompatibilityChecks)
        ensures
            checks_view(r) == compatibility_plan(*self, capabilities, channels.channels@, streams@),
    {
        let mut checks: Vec<ScaleCheck> = Vec::new();
        assert(scale_views(checks@) =~= Seq::<ScaleCheckV>::empty());
        if !same_text(self.protocol.as_str(), "scp1-v2-r2") || self.protocol_revision != 2 {
            return CompatibilityChecks {
                scale_checks: checks,
                outcome: Err(
                    ProfileError::ProtocolMismatch(
                        ProtocolMismatch::WrongProtocol { protocol: self.protocol.clone(), revision: self.protocol_revision },
                    ),
                ),
            };
        }
        if streams.revision != self.stream_table_revision {
            return CompatibilityChecks {
                scale_checks: checks,
                outcome: Err(
                    ProfileError::ProtocolMismatch(
                        ProtocolMismatch::StreamTableRevision { actual: streams.revision, expected: self.stream_table_revision },
                    ),
                ),
            };
        }
        let caps = &self.required_capabilities;
        let mut k: usize = 0;
        while k < caps.len()
            invariant
                k <= caps@.len(),
                caps@ == self.required_capabilities@,
                self.protocol@ == "scp1-v2-r2"@,
                self.protocol_revision == 2,
                streams.revision == self.stream_table_revision,
                capability_refusal(caps@, capabilities, k as int) is None,
                scale_views(checks@) =~= Seq::<ScaleCheckV>::empty(),
            decreases caps.len() - k,
        {
            match capability_bit(caps[k].as_str()) {
                None => {
                    proof {
                        lemma_capability_refusal_stops(caps@, capabilities, k + 1, caps@.len() as int);
                    }
                    return CompatibilityChecks {
                        scale_checks: checks,
                        outcome: Err(ProfileError::Invalid(ProfileInvalid::UnknownCapability(caps[k].clone()))),
                    };
                },
                Some(bit) => {
                    if capabilities & bit == 0 {
                        proof {
                            lemma_capability_refusal_stops(caps@, capabilities, k + 1, caps@.len() as int);
                        }
                        return CompatibilityChecks {
                            scale_checks: checks,
                            outcome: Err(ProfileError::CapabilityMismatch(caps[k].clone())),
                        };
                    }
                },
            }
            k = k + 1;
        }
        let ghost pcs = self.channels@;
        let ghost chs = channels.channels@;
        let ghost ss = streams@.streams;
        let mut s: usize = 0;
        while s < self.streams.len()
            invariant
                s <= self.streams@.len(),
                self.protocol@ == "scp1-v2-r2"@,
                self.protocol_revision == 2,
                streams.revision == self.stream_table_revision,
                capability_refusal(self.required_capabilities@, capabilities, self.required_capabilities@.len() as int) is None,
                streams_plan(pcs, chs, ss, self.streams@, s as int).1 is None,
                scale_views(checks@) == streams_plan(pcs, chs, ss, self.streams@, s as int).0,
                pcs == self.channels@,
                chs == channels.channels@,
                ss == streams@.streams,
            decreases self.streams.len() - s,
        {
            let r = check_stream(&self.channels, &channels.channels, &streams.streams, &self.streams[s], &mut checks);
            assert(scale_views(checks@) =~= streams_plan(pcs, chs, ss, self.streams@, s + 1).0);
            if r.is_err() {
                proof {
                    lemma_streams_plan_stops(pcs, chs, ss, self.streams@, s + 1, self.streams@.len() as int);
                }
                return CompatibilityChecks { scale_checks: checks, outcome: r };
            }
            s = s + 1;
        }
        CompatibilityChecks { scale_checks: checks, outcome: Ok(()) }
    }
}

// ---------------------------------------------------------------------------
// What a compatible device keeps of each profile stream
// ---------------------------------------------------------------------------

proof fn lemma_then_passes(a: Plan, b: Plan)
    requires
        then(a, b).1 is None,
    ensures
        a.1 is None,
        b.1 is None,
{
}

proof fn lemma_streams_plan_passes(
    pcs: Seq<ProfileChannel>,
    chs: Seq<ChannelDescriptor>,
    ss: Seq<StreamDescriptorR2V>,
    sts: Seq<ProfileStream>,
    k: int,
)
    requires
        streams_plan(pcs, chs, ss, sts, k).1 is None,
    ensures
        forall|i: int| 0 <= i < k ==> (#[trigger] stream_plan(pcs, chs, ss, sts[i])).1 is None,
    decreases k,
{
    if k > 0 {
        lemma_then_passes(streams_plan(pcs, chs, ss, sts, k - 1), stream_plan(pcs, chs, ss, sts[k - 1]));
        lemma_streams_plan_passes(pcs, chs, ss, sts, k - 1);
    }
}

/// A profile stream whose device stream of its domain keeps its rate and
/// logical step but counts in another consistency group is refused for the
/// group, naming the stream, the group it expects and the device's group.
pub proof fn lemma_stream_group_mismatch_refused(
    pcs: Seq<ProfileChannel>,
    chs: Seq<ChannelDescriptor>,
    ss: Seq<StreamDescriptorR2V>,
    st: ProfileStream,
    d: SampleDomain,
    a: StreamDescriptorR2V,
)
    requires
        spec_parse_domain(st.domain@) == Some(d),
        device_stream(ss, d) == Some(a),
        a.sample_rate_hz == st.rate_hz,
        a.logical_cycle_step == st.logical_cycle_step,
        a.consistency_group != st.consistency_group,
    ensures
        stream_plan(pcs, chs, ss, st).1 == Some(
            ProfileErrorV::ConsistencyGroupMismatch {
                stream: st.name@,
                expected: st.consistency_group,
                actual: a.consistency_group,
            },
        ),
{
}

/// A profile accepted against a device (no refusal, whatever the scale
/// comparisons then find) names only streams whose device stream of the same
/// domain, where there is one, has the profile's rate, logical step and
/// consistency group; the profile's protocol, revision and stream table
/// revision are the device's.
pub proof fn lemma_compatible_streams_agree(
    p: MachineProfile,
    caps: u32,
    chs: Seq<ChannelDescriptor>,
    t: StreamTableR2V,
)
    requires
        compatibility_plan(p, caps, chs, t).1 is None,
    ensures
        p.protocol@ == "scp1-v2-r2"@,
        p.protocol_revision == 2,
        t.revision == p.stream_table_revision,
        forall|i: int|
            0 <= i < p.streams@.len() ==> match spec_parse_domain((#[trigger] p.streams@[i]).domain@) {
                Some(d) => match device_stream(t.streams, d) {
                    Some(a) => a.sample_rate_hz == p.streams@[i].rate_hz && a.logical_cycle_step
                        == p.streams@[i].logical_cycle_step && a.consistency_group
                        == p.streams@[i].consistency_group,
                    None => !p.streams@[i].required,
                },
                None => false,
            },
{
    lemma_streams_plan_passes(p.channels@, chs, t.streams, p.streams@, p.streams@.len() as int);
    assert forall|i: int| 0 <= i < p.streams@.len() implies match spec_parse_domain(
        (#[trigger] p.streams@[i]).domain@,
    ) {
        Some(d) => match device_stream(t.streams, d) {
            Some(a) => a.sample_rate_hz == p.streams@[i].rate_hz && a.logical_cycle_step
                == p.streams@[i].logical_cycle_step && a.consistency_group == p.streams@[i].consistency_group,
            None => !p.streams@[i].required,
        },
        None => false,
    } by {
        let st = p.streams@[i];
        assert(stream_plan(p.channels@, chs, t.streams, st).1 is None);
        match spec_parse_domain(st.domain@) {
            Some(d) => match device_stream(t.streams, d) {
                Some(a) => {
                    if a.sample_rate_hz == st.rate_hz && a.logical_cycle_step == st.logical_cycle_step {
                        lemma_then_passes(
                            names_plan(
                                p.channels@,
                                chs,
                                a.channel_ids,
                                st.required_channels@,
                                true,
                                st.required_channels@.len() as int,
                            ),
                            names_plan(
                                p.channels@,
                                chs,
                                a.channel_ids,
                                st.optional_channels@,
                                false,
                                st.optional_channels@.len() as int,
                            ),
                        );
                    }
                },
                None => {},
            },
            None => {},
        }
    }
}

} // verus!
