//! The bounded acquisition smoke test: its modes and channel sets, its
//! settings, the checks before streaming, the payload each subscription
//! costs on a serial link, and the verdict on a finished run.

use vstd::prelude::*;

use crate::machine_profile::{
    device_stream, find_device_stream, first_profile_stream, MachineProfile, ProfileError, ProfileStream,
};
use crate::protocol::{channel_table_valid, lookup_channel, ChannelDescriptor, ChannelTable};
use crate::protocol_v2::SampleDomain;
use crate::protocol_v2_r2::{
    r2_valid_against_channels, StreamDescriptorR2V, StreamSubscriptionR2, StreamTableR2, CAPABILITY_V2_COMPRESSED_METADATA,
    CAPABILITY_V2_MULTI_STREAM, CAPABILITY_V2_STREAMS_R2,
};
use crate::scope_format::numbered_message;
use crate::session::SessionStats;
use crate::batch_r2::{
    batch_r2_encodable, enc_batch_r2, stream_sample_batch_r2_payload_len, StreamSampleBatchR2,
    StreamSampleBatchR2V,
};
use crate::metadata_r2::MetadataEncodingR2;
use crate::protocol::{spec_byte_width, ProtocolError};
use crate::protocol_v2::has_bit;
use crate::protocol_v2_r2::lookup_stream_r2;
use crate::snapshot::SnapshotMeta;
use crate::simulator::same_text;

verus! {

/// What a smoke run exercises.
#[derive(Clone, Copy, Debug, PartialEq, Eq, Structural)]
pub enum HardwareSmokeMode {
    Handshake,
    Ctrl8k,
    Multistream,
    LinkStress,
}

/// Which profile channels a smoke run subscribes to.
#[derive(Clone, Copy, Debug, PartialEq, Eq, Structural)]
pub enum ChannelSet {
    Required,
    All,
}

impl Default for ChannelSet {
    fn default() -> (r: Self)
        ensures
            r == ChannelSet::Required,
    {
        ChannelSet::Required
    }
}

impl ChannelSet {
    pub open spec fn spec_name(self) -> &'static str {
        match self {
            ChannelSet::Required => "required",
            ChannelSet::All => "all",
        }
    }

    pub open spec fn spec_parse(s: Seq<char>) -> Option<ChannelSet> {
        if s == "required"@ {
            Some(ChannelSet::Required)
        } else if s == "all"@ {
            Some(ChannelSet::All)
        } else {
            None
        }
    }

    /// The channel set with this name; None for any other text.
    pub fn parse(value: &str) -> (r: Option<Self>)
        ensures
            r == Self::spec_parse(value@),
    {
        if same_text(value, "required") {
            Some(ChannelSet::Required)
        } else if same_text(value, "all") {
            Some(ChannelSet::All)
        } else {
            None
        }
    }

    /// The channel set's stable name.
    pub fn name(self) -> (r: &'static str)
        ensures
            r@ == self.spec_name()@,
    {
        match self {
            ChannelSet::Required => "required",
            ChannelSet::All => "all",
        }
    }
}

impl HardwareSmokeMode {
    pub open spec fn spec_name(self) -> &'static str {
        match self {
            HardwareSmokeMode::Handshake => "handshake",
            HardwareSmokeMode::Ctrl8k => "ctrl8k",
            HardwareSmokeMode::Multistream => "multistream",
            HardwareSmokeMode::LinkStress => "link-stress",
        }
    }

    pub open spec fn spec_parse(s: Seq<char>) -> Option<HardwareSmokeMode> {
        if s == "handshake"@ {
            Some(HardwareSmokeMode::Handshake)
        } else if s == "ctrl8k"@ {
            Some(HardwareSmokeMode::Ctrl8k)
        } else if s == "multistream"@ {
            Some(HardwareSmokeMode::Multistream)
        } else if s == "link-stress"@ {
            Some(HardwareSmokeMode::LinkStress)
        } else {
            None
        }
    }

    /// The mode with this name; None for any other text.
    pub fn parse(value: &str) -> (r: Option<Self>)
        ensures
            r == Self::spec_parse(value@),
    {
        if same_text(value, "handshake") {
            Some(HardwareSmokeMode::Handshake)
        } else if same_text(value, "ctrl8k") {
            Some(HardwareSmokeMode::Ctrl8k)
        } else if same_text(value, "multistream") {
            Some(HardwareSmokeMode::Multistream)
        } else if same_text(value, "link-stress") {
            Some(HardwareSmokeMode::LinkStress)
        } else {
            None
        }
    }

    /// The mode's stable name.
    pub fn name(self) -> (r: &'static str)
        ensures
            r@ == self.spec_name()@,
    {
        match self {
            HardwareSmokeMode::Handshake => "handshake",
            HardwareSmokeMode::Ctrl8k => "ctrl8k",
            HardwareSmokeMode::Multistream => "multistream",
            HardwareSmokeMode::LinkStress => "link-stress",
        }
    }
}

/// Every mode's name parses back to that mode.
pub proof fn lemma_mode_name_parses_back(m: HardwareSmokeMode)
    ensures
        HardwareSmokeMode::spec_parse(m.spec_name()@) == Some(m),
{
    reveal_strlit("handshake");
    reveal_strlit("ctrl8k");
    reveal_strlit("multistream");
    reveal_strlit("link-stress");
    match m {
        HardwareSmokeMode::Handshake => {},
        HardwareSmokeMode::Ctrl8k => {
            assert("ctrl8k"@.len() != "handshake"@.len());
        },
        HardwareSmokeMode::Multistream => {
            assert("multistream"@.len() != "handshake"@.len());
            assert("multistream"@.len() != "ctrl8k"@.len());
        },
        HardwareSmokeMode::LinkStress => {
            assert("link-stress"@.len() != "handshake"@.len());
            assert("link-stress"@.len() != "ctrl8k"@.len());
            assert("link-stress"@[0] != "multistream"@[0]);
        },
    }
}

/// Every channel set's name parses back to that channel set.
pub proof fn lemma_channel_set_name_parses_back(c: ChannelSet)
    ensures
        ChannelSet::spec_parse(c.spec_name()@) == Some(c),
{
    reveal_strlit("required");
    reveal_strlit("all");
    if c == ChannelSet::All {
        assert("all"@.len() != "required"@.len());
    }
}

// ---------------------------------------------------------------------------
// Stream subscriptions of a smoke run
// ---------------------------------------------------------------------------

/// Why a smoke run cannot subscribe to what its profile asks for.
#[derive(Clone, Copy, Debug, PartialEq, Eq, Structural)]
pub enum SubscriptionError {
    /// The device has no stream of this domain.
    MissingStream(SampleDomain),
    /// The profile says nothing about this domain.
    NoProfileContract(SampleDomain),
    /// No channel the profile names is carried by this device stream.
    NoSelectableChannels(u16),
}

/// The code `code` gives for each failure.
pub open spec fn subscription_error_code(e: SubscriptionError) -> Seq<char> {
    match e {
        SubscriptionError::MissingStream(_) => "profile_missing_stream"@,
        SubscriptionError::NoProfileContract(_) => "invalid_config"@,
        SubscriptionError::NoSelectableChannels(_) => "profile_missing_channel"@,
    }
}

/// The words `message` gives for each refusal.
pub open spec fn subscription_error_text(e: SubscriptionError) -> Seq<char> {
    match e {
        SubscriptionError::MissingStream(SampleDomain::Fast32k) => "missing FAST32K stream"@,
        SubscriptionError::MissingStream(SampleDomain::Control8k) => "missing CTRL8K stream"@,
        SubscriptionError::MissingStream(SampleDomain::Slow1k) => "missing SLOW1K stream"@,
        SubscriptionError::NoProfileContract(SampleDomain::Fast32k) => "profile has no FAST32K contract"@,
        SubscriptionError::NoProfileContract(SampleDomain::Control8k) => "profile has no CTRL8K contract"@,
        SubscriptionError::NoProfileContract(SampleDomain::Slow1k) => "profile has no SLOW1K contract"@,
        SubscriptionError::NoSelectableChannels(id) => ""@ + crate::capture_history::decimal((id as u64) as nat) + " has no selectable profile channels"@,
    }
}

impl SubscriptionError {
    /// The stable code acceptance reports carry.
    pub fn code(&self) -> (r: &'static str)
        ensures
            r@ == subscription_error_code(*self),
    {
        match self {
            SubscriptionError::MissingStream(_) => "profile_missing_stream",
            SubscriptionError::NoProfileContract(_) => "invalid_config",
            SubscriptionError::NoSelectableChannels(_) => "profile_missing_channel",
        }
    }

    /// The failure in words.
    pub fn message(&self) -> (r: String)
        ensures
            r@ == subscription_error_text(*self),
    {
        match self {
            SubscriptionError::MissingStream(SampleDomain::Fast32k) => "missing FAST32K stream".to_string(),
            SubscriptionError::MissingStream(SampleDomain::Control8k) => "missing CTRL8K stream".to_string(),
            SubscriptionError::MissingStream(SampleDomain::Slow1k) => "missing SLOW1K stream".to_string(),
            SubscriptionError::NoProfileContract(SampleDomain::Fast32k) => "profile has no FAST32K contract".to_string(),
            SubscriptionError::NoProfileContract(SampleDomain::Control8k) => "profile has no CTRL8K contract".to_string(),
            SubscriptionError::NoProfileContract(SampleDomain::Slow1k) => "profile has no SLOW1K contract".to_string(),
            SubscriptionError::NoSelectableChannels(id) => numbered_message(
                "",
                *id as u64,
                " has no selectable profile channels",
            ),
        }
    }
}

/// The domains a mode streams: none for the handshake, the control stream,
/// or the control and slow streams together.
pub open spec fn mode_domains(mode: HardwareSmokeMode) -> Seq<SampleDomain> {
    match mode {
        HardwareSmokeMode::Handshake => Seq::empty(),
        HardwareSmokeMode::Ctrl8k => seq![SampleDomain::Control8k],
        _ => seq![SampleDomain::Control8k, SampleDomain::Slow1k],
    }
}

/// The profile channel names a channel set asks for.
pub open spec fn set_names(ps: ProfileStream, set: ChannelSet) -> Seq<String> {
    match set {
        ChannelSet::Required => ps.required_channels@,
        ChannelSet::All => ps.required_channels@ + ps.optional_channels@,
    }
}

/// Some channel of `ids` that the table describes is named `n`.
pub open spec fn carried(chs: Seq<ChannelDescriptor>, ids: Seq<u16>, n: Seq<char>) -> bool {
    exists|k: int| 0 <= k < ids.len() && ((#[trigger] lookup_channel(chs, ids[k])) matches Some(c) && c.name@ == n)
}

/// The first of `names` that the stream carries.
pub open spec fn first_carried(chs: Seq<ChannelDescriptor>, ids: Seq<u16>, names: Seq<String>) -> Option<int>
    decreases names.len(),
{
    if names.len() == 0 {
        None
    } else if carried(chs, ids, names[0]@) {
        Some(0)
    } else {
        match first_carried(chs, ids, names.drop_first()) {
            Some(j) => Some(j + 1),
            None => None,
        }
    }
}

/// The names a subscription selects: the channel set's, and, for a slow
/// stream of a two-stream mode whose set is empty, the first optional
/// channel the stream carries.
pub open spec fn subscription_names(
    mode: HardwareSmokeMode,
    set: ChannelSet,
    d: SampleDomain,
    ps: ProfileStream,
    chs: Seq<ChannelDescriptor>,
    ids: Seq<u16>,
) -> Seq<String> {
    let base = set_names(ps, set);
    if base.len() == 0 && d is Slow1k && (mode is Multistream || mode is LinkStress) {
        match first_carried(chs, ids, ps.optional_channels@) {
            Some(j) => base.push(ps.optional_channels@[j]),
            None => base,
        }
    } else {
        base
    }
}

pub open spec fn names_contain(names: Seq<String>, n: Seq<char>) -> bool {
    exists|k: int| 0 <= k < names.len() && (#[trigger] names[k])@ == n
}

/// The mask of the first `k` channels of `ids` whose description carries a
/// selected name.
pub open spec fn names_mask(chs: Seq<ChannelDescriptor>, names: Seq<String>, ids: Seq<u16>, k: int) -> u64
    decreases k,
{
    if k <= 0 {
        0
    } else {
        let m = names_mask(chs, names, ids, k - 1);
        match lookup_channel(chs, ids[k - 1]) {
            Some(c) => if names_contain(names, c.name@) {
                m | (1u64 << ids[k - 1])
            } else {
                m
            },
            None => m,
        }
    }
}

/// Rows per batch of a subscription: alone, the requested rows; two
/// streams together share one clock, so the control stream takes the
/// request rounded up to a multiple of 8 (at least 8), the slow stream an
/// eighth of it, a fast stream four times it (saturating); never more than
/// the device allows.
pub open spec fn subscription_rows(multi: bool, d: SampleDomain, requested: u16, max: u16) -> u16 {
    let rows: int = if multi {
        let r = if requested < 8 {
            8int
        } else {
            requested as int
        };
        let ctrl = (r + 7) / 8 * 8;
        match d {
            SampleDomain::Control8k => ctrl,
            SampleDomain::Slow1k => ctrl / 8,
            SampleDomain::Fast32k => if ctrl * 4 > u16::MAX {
                u16::MAX as int
            } else {
                ctrl * 4
            },
        }
    } else {
        requested as int
    };
    if rows > max {
        max
    } else {
        rows as u16
    }
}

/// The subscription for one domain, or why there is none.
pub open spec fn domain_subscription(
    mode: HardwareSmokeMode,
    set: ChannelSet,
    requested: u16,
    max: u16,
    p: MachineProfile,
    chs: Seq<ChannelDescriptor>,
    ss: Seq<StreamDescriptorR2V>,
    d: SampleDomain,
) -> Result<StreamSubscriptionR2, SubscriptionError> {
    match device_stream(ss, d) {
        None => Err(SubscriptionError::MissingStream(d)),
        Some(a) => match first_profile_stream(p.streams@, d) {
            None => Err(SubscriptionError::NoProfileContract(d)),
            Some(ps) => {
                let names = subscription_names(mode, set, d, ps, chs, a.channel_ids);
                let mask = names_mask(chs, names, a.channel_ids, a.channel_ids.len() as int);
                if mask == 0 {
                    Err(SubscriptionError::NoSelectableChannels(a.stream_id))
                } else {
                    Ok(
                        StreamSubscriptionR2 {
                            stream_id: a.stream_id,
                            batch_samples: subscription_rows(mode_domains(mode).len() > 1, d, requested, max),
                            channel_mask: mask,
                        },
                    )
                }
            },
        },
    }
}

/// What subscription selection may shift or round without overflow: the channel ids
/// of the first device stream of each streamed domain are below 64, and a
/// shared clock can round the request up to a multiple of 8.
pub open spec fn subscriptions_defined(mode: HardwareSmokeMode, requested: u16, ss: Seq<StreamDescriptorR2V>) -> bool {
    &&& forall|i: int|
        0 <= i < mode_domains(mode).len() ==> (device_stream(ss, #[trigger] mode_domains(mode)[i]) matches Some(a)
            ==> forall|k: int| 0 <= k < a.channel_ids.len() ==> (a.channel_ids[k] as int) < 64)
    &&& mode_domains(mode).len() > 1 ==> requested <= 65528
}

fn append_names(out: &mut Vec<String>, names: &Vec<String>)
    ensures
        final(out)@ == old(out)@ + names@,
{
    let ghost start = out@;
    let mut k: usize = 0;
    while k < names.len()
        invariant
            k <= names@.len(),
            out@ == start + names@.take(k as int),
        decreases names.len() - k,
    {
        out.push(names[k].clone());
        assert(names@.take(k + 1) =~= names@.take(k as int).push(names@[k as int]));
        k = k + 1;
    }
    assert(names@.take(names@.len() as int) =~= names@);
}

fn names_contain_exec(names: &Vec<String>, n: &String) -> (r: bool)
    ensures
        r == names_contain(names@, n@),
{
    let mut k: usize = 0;
    while k < names.len()
        invariant
            k <= names@.len(),
            forall|j: int| 0 <= j < k ==> names@[j]@ != n@,
        decreases names.len() - k,
    {
        if names[k] == *n {
            assert(names@[k as int]@ == n@);
            return true;
        }
        k = k + 1;
    }
    false
}

fn carried_exec(chs: &ChannelTable, ids: &Vec<u16>, n: &String) -> (r: bool)
    ensures
        r == carried(chs.channels@, ids@, n@),
{
    let mut k: usize = 0;
    while k < ids.len()
        invariant
            k <= ids@.len(),
            forall|j: int| 0 <= j < k ==> !((#[trigger] lookup_channel(chs.channels@, ids@[j])) matches Some(c) && c.name@ == n@),
        decreases ids.len() - k,
    {
        match chs.channel(ids[k]) {
            Some(c) => {
                if c.name == *n {
                    return true;
                }
            },
            None => {},
        }
        k = k + 1;
    }
    false
}

fn first_carried_exec(chs: &ChannelTable, ids: &Vec<u16>, names: &Vec<String>) -> (r: Option<usize>)
    ensures
        match first_carried(chs.channels@, ids@, names@) {
            Some(j) => r matches Some(x) && x as int == j && 0 <= j < names@.len(),
            None => r is None,
        },
{
    let ghost all = names@;
    let mut o: usize = 0;
    assert(all.skip(0) =~= all);
    while o < names.len()
        invariant
            o <= all.len(),
            all == names@,
            first_carried(chs.channels@, ids@, all) == match first_carried(chs.channels@, ids@, all.skip(o as int)) {
                Some(j) => Some(j + o),
                None => None,
            },
        decreases names.len() - o,
    {
        if carried_exec(chs, ids, &names[o]) {
            assert(all.skip(o as int)[0] == names@[o as int]);
            return Some(o);
        }
        assert(all.skip(o as int).drop_first() =~= all.skip(o + 1));
        o = o + 1;
    }
    assert(all.skip(all.len() as int) =~= Seq::<String>::empty());
    None
}

fn subscribe_domain(
    mode: HardwareSmokeMode,
    set: ChannelSet,
    requested: u16,
    max: u16,
    profile: &MachineProfile,
    channels: &ChannelTable,
    streams: &StreamTableR2,
    d: SampleDomain,
) -> (r: Result<StreamSubscriptionR2, SubscriptionError>)
    requires
        device_stream(streams@.streams, d) matches Some(a) ==> forall|k: int|
            0 <= k < a.channel_ids.len() ==> (a.channel_ids[k] as int) < 64,
        mode_domains(mode).len() > 1 ==> requested <= 65528,
    ensures
        r == domain_subscription(mode, set, requested, max, *profile, channels.channels@, streams@.streams, d),
{
    let a = match find_device_stream(&streams.streams, d) {
        Some(i) => &streams.streams[i],
        None => {
            return Err(SubscriptionError::MissingStream(d));
        },
    };
    let ps = match profile.stream(d) {
        Some(ps) => ps,
        None => {
            return Err(SubscriptionError::NoProfileContract(d));
        },
    };
    let mut names: Vec<String> = Vec::new();
    append_names(&mut names, &ps.required_channels);
    if set == ChannelSet::All {
        append_names(&mut names, &ps.optional_channels);
    }
    assert(names@ =~= set_names(*ps, set));
    let ghost spec_names = subscription_names(mode, set, d, *ps, channels.channels@, a.channel_ids@);
    if names.len() == 0 && d == SampleDomain::Slow1k && (mode == HardwareSmokeMode::Multistream || mode
        == HardwareSmokeMode::LinkStress) {
        let ghost base = names@;
        match first_carried_exec(channels, &a.channel_ids, &ps.optional_channels) {
            Some(j) => {
                names.push(ps.optional_channels[j].clone());
                assert(names@ =~= base.push(ps.optional_channels@[j as int]));
                assert(first_carried(channels.channels@, a.channel_ids@, ps.optional_channels@) == Some(j as int));
                assert(names@ =~= spec_names);
            },
            None => {
                assert(names@ =~= spec_names);
            },
        }
    } else {
        assert(names@ =~= spec_names);
    }
    assert(names@ == subscription_names(mode, set, d, *ps, channels.channels@, a.channel_ids@));
    let mut mask: u64 = 0;
    let mut k: usize = 0;
    while k < a.channel_ids.len()
        invariant
            k <= a.channel_ids@.len(),
            forall|j: int| 0 <= j < a.channel_ids@.len() ==> (a.channel_ids@[j] as int) < 64,
            mask == names_mask(channels.channels@, names@, a.channel_ids@, k as int),
        decreases a.channel_ids.len() - k,
    {
        let id = a.channel_ids[k];
        match channels.channel(id) {
            Some(c) => {
                if names_contain_exec(&names, &c.name) {
                    mask = mask | (1u64 << id);
                }
            },
            None => {},
        }
        k = k + 1;
    }
    if mask == 0 {
        return Err(SubscriptionError::NoSelectableChannels(a.stream_id));
    }
    let multi = mode == HardwareSmokeMode::Multistream || mode == HardwareSmokeMode::LinkStress;
    let rows: u16 = if multi {
        let r: u16 = if requested < 8 { 8 } else { requested };
        let ctrl: u16 = (r + 7) / 8 * 8;
        match d {
            SampleDomain::Control8k => ctrl,
            SampleDomain::Slow1k => ctrl / 8,
            SampleDomain::Fast32k => if ctrl > 16383 {
                u16::MAX
            } else {
                ctrl * 4
            },
        }
    } else {
        requested
    };
    let batch_samples = if rows > max { max } else { rows };
    Ok(StreamSubscriptionR2 { stream_id: a.stream_id, batch_samples, channel_mask: mask })
}

/// The subscriptions a smoke run asks for, one per streamed domain in
/// order, or the first reason one cannot be made.
pub fn select_r2_subscriptions(
    mode: HardwareSmokeMode,
    channel_set: ChannelSet,
    requested_batch_samples: u16,
    max_batch_samples: u16,
    profile: &MachineProfile,
    channels: &ChannelTable,
    streams: &StreamTableR2,
) -> (r: Result<Vec<StreamSubscriptionR2>, SubscriptionError>)
    requires
        subscriptions_defined(mode, requested_batch_samples, streams@.streams),
    ensures
        ({
            let doms = mode_domains(mode);
            let sub_of = |d: SampleDomain|
                domain_subscription(
                    mode,
                    channel_set,
                    requested_batch_samples,
                    max_batch_samples,
                    *profile,
                    channels.channels@,
                    streams@.streams,
                    d,
                );
            match r {
                Ok(v) => v@.len() == doms.len() && forall|i: int| 0 <= i < doms.len() ==> sub_of(doms[i]) == Ok::<
                    StreamSubscriptionR2,
                    SubscriptionError,
                >(#[trigger] v@[i]),
                Err(e) => exists|i: int|
                    0 <= i < doms.len() && sub_of(#[trigger] doms[i]) == Err::<StreamSubscriptionR2, SubscriptionError>(e)
                        && forall|j: int| 0 <= j < i ==> sub_of(#[trigger] doms[j]) is Ok,
            }
        }),
{
    let mut out: Vec<StreamSubscriptionR2> = Vec::new();
    let ghost doms = mode_domains(mode);
    if mode == HardwareSmokeMode::Handshake {
        return Ok(out);
    }
    let ctrl = subscribe_domain(
        mode,
        channel_set,
        requested_batch_samples,
        max_batch_samples,
        profile,
        channels,
        streams,
        SampleDomain::Control8k,
    );
    assert(doms[0] == SampleDomain::Control8k);
    match ctrl {
        Ok(s) => out.push(s),
        Err(e) => {
            return Err(e);
        },
    }
    if mode == HardwareSmokeMode::Ctrl8k {
        return Ok(out);
    }
    assert(doms[1] == SampleDomain::Slow1k);
    let slow = subscribe_domain(
        mode,
        channel_set,
        requested_batch_samples,
        max_batch_samples,
        profile,
        channels,
        streams,
        SampleDomain::Slow1k,
    );
    match slow {
        Ok(s) => out.push(s),
        Err(e) => {
            return Err(e);
        },
    }
    Ok(out)
}


/// Why a second-revision R2 smoke run stops before streaming.
#[derive(Clone, Debug, PartialEq, Eq)]
pub enum SmokeContractError {
    /// The device lacks R2 streams, multi-stream or compressed metadata.
    CapabilityMismatch(u32),
    /// The device returned a zero session id.
    SessionIdZero,
    /// The channel table is refused.
    ChannelTableInvalid,
    /// The stream table is refused against the channel table.
    StreamTableInvalid,
    /// The machine profile does not fit the device.
    Profile(ProfileError),
    /// A subscription cannot be made.
    Subscription(SubscriptionError),
}

/// The capabilities an R2 smoke run needs.
pub open spec fn smoke_required_capabilities() -> u32 {
    CAPABILITY_V2_STREAMS_R2 | CAPABILITY_V2_MULTI_STREAM | CAPABILITY_V2_COMPRESSED_METADATA
}

/// The checks a smoke run makes after the handshake and before streaming,
/// in order: capabilities, session id, channel table, stream table, the
/// machine profile's verdict, then the subscriptions of the mode.
pub fn smoke_r2_plan(
    mode: HardwareSmokeMode,
    channel_set: ChannelSet,
    requested_batch_samples: u16,
    device_capabilities: u32,
    session_id: u32,
    max_batch_samples: u16,
    profile: &MachineProfile,
    channels: &ChannelTable,
    streams: &StreamTableR2,
    profile_verdict: Result<(), ProfileError>,
) -> (r: Result<Vec<StreamSubscriptionR2>, SmokeContractError>)
    requires
        subscriptions_defined(mode, requested_batch_samples, streams@.streams),
    ensures
        device_capabilities & smoke_required_capabilities() != smoke_required_capabilities() ==> r
            == Err::<Vec<StreamSubscriptionR2>, SmokeContractError>(SmokeContractError::CapabilityMismatch(device_capabilities)),
        device_capabilities & smoke_required_capabilities() == smoke_required_capabilities() ==> {
            if session_id == 0 {
                r == Err::<Vec<StreamSubscriptionR2>, SmokeContractError>(SmokeContractError::SessionIdZero)
            } else if !channel_table_valid(channels.channels@) {
                r == Err::<Vec<StreamSubscriptionR2>, SmokeContractError>(SmokeContractError::ChannelTableInvalid)
            } else if !r2_valid_against_channels(streams@, channels.channels@) {
                r == Err::<Vec<StreamSubscriptionR2>, SmokeContractError>(SmokeContractError::StreamTableInvalid)
            } else if profile_verdict is Err {
                r == Err::<Vec<StreamSubscriptionR2>, SmokeContractError>(SmokeContractError::Profile(profile_verdict->Err_0))
            } else {
                let doms = mode_domains(mode);
                let sub_of = |d: SampleDomain|
                    domain_subscription(
                        mode,
                        channel_set,
                        requested_batch_samples,
                        max_batch_samples,
                        *profile,
                        channels.channels@,
                        streams@.streams,
                        d,
                    );
                match r {
                    Ok(v) => v@.len() == doms.len() && forall|i: int| 0 <= i < doms.len() ==> sub_of(doms[i]) == Ok::<
                        StreamSubscriptionR2,
                        SubscriptionError,
                    >(#[trigger] v@[i]),
                    Err(SmokeContractError::Subscription(e)) => exists|i: int|
                        0 <= i < doms.len() && sub_of(#[trigger] doms[i]) == Err::<StreamSubscriptionR2, SubscriptionError>(e)
                            && forall|j: int| 0 <= j < i ==> sub_of(#[trigger] doms[j]) is Ok,
                    Err(_) => false,
                }
            }
        },
{
    let required = CAPABILITY_V2_STREAMS_R2 | CAPABILITY_V2_MULTI_STREAM | CAPABILITY_V2_COMPRESSED_METADATA;
    if device_capabilities & required != required {
        return Err(SmokeContractError::CapabilityMismatch(device_capabilities));
    }
    if session_id == 0 {
        return Err(SmokeContractError::SessionIdZero);
    }
    if channels.validate().is_err() {
        return Err(SmokeContractError::ChannelTableInvalid);
    }
    if streams.validate_against_channels(channels).is_err() {
        return Err(SmokeContractError::StreamTableInvalid);
    }
    match profile_verdict {
        Err(e) => {
            return Err(SmokeContractError::Profile(e));
        },
        Ok(()) => {},
    }
    match select_r2_subscriptions(mode, channel_set, requested_batch_samples, max_batch_samples, profile, channels, streams) {
        Ok(v) => Ok(v),
        Err(e) => Err(SmokeContractError::Subscription(e)),
    }
}


/// The longest smoke run, in nanoseconds.
pub const MAX_SMOKE_DURATION_NANOS: u128 = 60_000_000_000;

/// The plain settings of a first-revision smoke run: the transport
/// settings' own verdict (the text of their refusal, if they were refused),
/// the output path's text, the run's length in nanoseconds, and the optional
/// rate, batch size and the channel count.
#[derive(Clone, Debug, PartialEq, Eq)]
pub struct HardwareSmokeConfig {
    pub transport_error: Option<String>,
    pub output: String,
    pub duration_nanos: u128,
    pub sample_rate_hz: Option<u32>,
    pub batch_samples: Option<u16>,
    pub channel_count: usize,
}

/// Why smoke settings are refused.
#[derive(Clone, Debug, PartialEq, Eq)]
pub enum SmokeConfigError {
    /// The transport settings were refused, for the reason given.
    InvalidTransport(String),
    EmptyOutputPath,
    DurationOutOfRange,
    ZeroSampleRate,
    ZeroBatchSamples,
    ChannelCountOutOfRange,
}

impl SmokeConfigError {
    /// The refusal in words.
    pub fn message(&self) -> (r: String)
        ensures
            r@ == match *self {
                SmokeConfigError::InvalidTransport(t) => t@,
                SmokeConfigError::EmptyOutputPath => "output path must not be empty"@,
                SmokeConfigError::DurationOutOfRange => "duration must be within 1ms..=60s"@,
                SmokeConfigError::ZeroSampleRate => "sample rate must be greater than zero"@,
                SmokeConfigError::ZeroBatchSamples => "batch samples must be greater than zero"@,
                SmokeConfigError::ChannelCountOutOfRange => "channel count must be within 1..=64"@,
            },
    {
        match self {
            SmokeConfigError::InvalidTransport(t) => t.clone(),
            SmokeConfigError::EmptyOutputPath => "output path must not be empty".to_string(),
            SmokeConfigError::DurationOutOfRange => "duration must be within 1ms..=60s".to_string(),
            SmokeConfigError::ZeroSampleRate => "sample rate must be greater than zero".to_string(),
            SmokeConfigError::ZeroBatchSamples => "batch samples must be greater than zero".to_string(),
            SmokeConfigError::ChannelCountOutOfRange => "channel count must be within 1..=64".to_string(),
        }
    }
}

/// The first refusal of the settings other than the transport, in the
/// order they are checked.
pub open spec fn smoke_config_error(c: HardwareSmokeConfig) -> Option<SmokeConfigError> {
    if c.output@.len() == 0 {
        Some(SmokeConfigError::EmptyOutputPath)
    } else if c.duration_nanos == 0 || c.duration_nanos > MAX_SMOKE_DURATION_NANOS {
        Some(SmokeConfigError::DurationOutOfRange)
    } else if c.sample_rate_hz == Some(0u32) {
        Some(SmokeConfigError::ZeroSampleRate)
    } else if c.batch_samples == Some(0u16) {
        Some(SmokeConfigError::ZeroBatchSamples)
    } else if c.channel_count == 0 || c.channel_count > 64 {
        Some(SmokeConfigError::ChannelCountOutOfRange)
    } else {
        None
    }
}

impl HardwareSmokeConfig {
    /// Checks the settings, the transport's verdict first.
    pub fn validate(&self) -> (r: Result<(), SmokeConfigError>)
        ensures
            match self.transport_error {
                Some(t) => r matches Err(SmokeConfigError::InvalidTransport(m)) && m@ == t@,
                None => match smoke_config_error(*self) {
                    Some(e) => r == Err::<(), SmokeConfigError>(e),
                    None => r is Ok,
                },
            },
    {
        if let Some(t) = &self.transport_error {
            return Err(SmokeConfigError::InvalidTransport(t.clone()));
        }
        if self.output.as_str().unicode_len() == 0 {
            return Err(SmokeConfigError::EmptyOutputPath);
        }
        if self.duration_nanos == 0 || self.duration_nanos > MAX_SMOKE_DURATION_NANOS {
            return Err(SmokeConfigError::DurationOutOfRange);
        }
        if self.sample_rate_hz == Some(0u32) {
            return Err(SmokeConfigError::ZeroSampleRate);
        }
        if self.batch_samples == Some(0u16) {
            return Err(SmokeConfigError::ZeroBatchSamples);
        }
        if self.channel_count == 0 || self.channel_count > 64 {
            return Err(SmokeConfigError::ChannelCountOutOfRange);
        }
        Ok(())
    }
}

// ---------------------------------------------------------------------------
// The verdict on a finished second-revision run
// ---------------------------------------------------------------------------

/// What one stream of a second-revision run delivered, and the fewest rows
/// a link-stress run must see of it: its expected rows scaled by the least
/// throughput ratio, rounded down, less the allowance of one selected batch.
#[derive(Clone, Copy, Debug, PartialEq, Eq, Structural)]
pub struct StreamTally {
    pub stream_id: u16,
    pub received_batches: u64,
    pub received_rows: u64,
    pub minimum_rows: u64,
}

/// Why a finished second-revision run is not clean, with the count found.
#[derive(Clone, Copy, Debug, PartialEq, Eq, Structural)]
pub enum RunFault {
    CrcError(u64),
    ProtocolError(u64),
    HeartbeatTimeout(u64),
    RowReorder(u64),
    DeviceTxOverrun(u64),
    InvalidSnapshot(u64),
    HostDrop(u64),
    DeviceDrop(u64),
    NoSampleBatches,
    StreamNoData { stream_id: u16, received_batches: u64, received_rows: u64 },
    StreamThroughputBelowMinimum { stream_id: u16, received_rows: u64, minimum_rows: u64 },
}

pub open spec fn run_fault_code(f: RunFault) -> Seq<char> {
    match f {
        RunFault::CrcError(_) => "crc_error"@,
        RunFault::ProtocolError(_) => "protocol_error"@,
        RunFault::HeartbeatTimeout(_) => "heartbeat_timeout"@,
        RunFault::RowReorder(_) => "row_reorder"@,
        RunFault::DeviceTxOverrun(_) => "device_tx_overrun"@,
        RunFault::InvalidSnapshot(_) => "invalid_snapshot"@,
        RunFault::HostDrop(_) => "host_drop"@,
        RunFault::DeviceDrop(_) => "device_drop"@,
        RunFault::NoSampleBatches => "no_sample_batches"@,
        RunFault::StreamNoData { .. } => "stream_no_data"@,
        RunFault::StreamThroughputBelowMinimum { .. } => "stream_throughput_below_minimum"@,
    }
}

impl RunFault {
    /// The short code under which the run is reported as failed.
    pub fn code(&self) -> (r: String)
        ensures
            r@ == run_fault_code(*self),
    {
        match self {
            RunFault::CrcError(_) => "crc_error".to_string(),
            RunFault::ProtocolError(_) => "protocol_error".to_string(),
            RunFault::HeartbeatTimeout(_) => "heartbeat_timeout".to_string(),
            RunFault::RowReorder(_) => "row_reorder".to_string(),
            RunFault::DeviceTxOverrun(_) => "device_tx_overrun".to_string(),
            RunFault::InvalidSnapshot(_) => "invalid_snapshot".to_string(),
            RunFault::HostDrop(_) => "host_drop".to_string(),
            RunFault::DeviceDrop(_) => "device_drop".to_string(),
            RunFault::NoSampleBatches => "no_sample_batches".to_string(),
            RunFault::StreamNoData { .. } => "stream_no_data".to_string(),
            RunFault::StreamThroughputBelowMinimum { .. } => "stream_throughput_below_minimum".to_string(),
        }
    }
}

/// The fault of one stream, if any: no data at all, or, under link stress,
/// fewer rows than its floor.
pub open spec fn stream_fault(mode: HardwareSmokeMode, t: StreamTally) -> Option<RunFault> {
    if t.received_batches == 0 || t.received_rows == 0 {
        Some(
            RunFault::StreamNoData {
                stream_id: t.stream_id,
                received_batches: t.received_batches,
                received_rows: t.received_rows,
            },
        )
    } else if mode == HardwareSmokeMode::LinkStress && t.received_rows < t.minimum_rows {
        Some(
            RunFault::StreamThroughputBelowMinimum {
                stream_id: t.stream_id,
                received_rows: t.received_rows,
                minimum_rows: t.minimum_rows,
            },
        )
    } else {
        None
    }
}

/// The fault of the first stream that has one.
pub open spec fn first_stream_fault(mode: HardwareSmokeMode, ts: Seq<StreamTally>) -> Option<RunFault>
    decreases ts.len(),
{
    if ts.len() == 0 {
        None
    } else {
        match stream_fault(mode, ts[0]) {
            Some(f) => Some(f),
            None => first_stream_fault(mode, ts.drop_first()),
        }
    }
}

/// The first fault of a finished run, in the order the checks are made:
/// link and protocol counters always; under a streaming mode, also the
/// snapshot and drop counters, that some batch came, and each stream.
pub open spec fn run_fault(mode: HardwareSmokeMode, s: SessionStats, ts: Seq<StreamTally>) -> Option<
    RunFault,
> {
    if s.crc_errors != 0 {
        Some(RunFault::CrcError(s.crc_errors))
    } else if s.protocol_errors != 0 {
        Some(RunFault::ProtocolError(s.protocol_errors))
    } else if s.heartbeat_timeout_count != 0 {
        Some(RunFault::HeartbeatTimeout(s.heartbeat_timeout_count))
    } else if s.row_sequence_reorders != 0 {
        Some(RunFault::RowReorder(s.row_sequence_reorders))
    } else if s.device_tx_overruns != 0 {
        Some(RunFault::DeviceTxOverrun(s.device_tx_overruns))
    } else if mode == HardwareSmokeMode::Handshake {
        None
    } else if s.invalid_snapshot_rows != 0 {
        Some(RunFault::InvalidSnapshot(s.invalid_snapshot_rows))
    } else if s.host_dropped_v2_rows != 0 {
        Some(RunFault::HostDrop(s.host_dropped_v2_rows))
    } else if s.device_dropped_samples != 0 {
        Some(RunFault::DeviceDrop(s.device_dropped_samples))
    } else if s.received_batches == 0 {
        Some(RunFault::NoSampleBatches)
    } else {
        first_stream_fault(mode, ts)
    }
}

/// Whether a finished second-revision run was clean; the first fault found
/// otherwise.
pub fn ensure_clean_v2_r2(mode: HardwareSmokeMode, stats: &SessionStats, streams: &[StreamTally]) -> (r:
    Result<(), RunFault>)
    ensures
        match run_fault(mode, *stats, streams@) {
            Some(f) => r == Err::<(), RunFault>(f),
            None => r is Ok,
        },
{
    if stats.crc_errors != 0 {
        return Err(RunFault::CrcError(stats.crc_errors));
    }
    if stats.protocol_errors != 0 {
        return Err(RunFault::ProtocolError(stats.protocol_errors));
    }
    if stats.heartbeat_timeout_count != 0 {
        return Err(RunFault::HeartbeatTimeout(stats.heartbeat_timeout_count));
    }
    if stats.row_sequence_reorders != 0 {
        return Err(RunFault::RowReorder(stats.row_sequence_reorders));
    }
    if stats.device_tx_overruns != 0 {
        return Err(RunFault::DeviceTxOverrun(stats.device_tx_overruns));
    }
    if mode == HardwareSmokeMode::Handshake {
        return Ok(());
    }
    if stats.invalid_snapshot_rows != 0 {
        return Err(RunFault::InvalidSnapshot(stats.invalid_snapshot_rows));
    }
    if stats.host_dropped_v2_rows != 0 {
        return Err(RunFault::HostDrop(stats.host_dropped_v2_rows));
    }
    if stats.device_dropped_samples != 0 {
        return Err(RunFault::DeviceDrop(stats.device_dropped_samples));
    }
    if stats.received_batches == 0 {
        return Err(RunFault::NoSampleBatches);
    }
    let link_stress = mode == HardwareSmokeMode::LinkStress;
    let mut i: usize = 0;
    assert(streams@.skip(0) =~= streams@);
    while i < streams.len()
        invariant
            i <= streams@.len(),
            run_fault(mode, *stats, streams@) == first_stream_fault(mode, streams@),
            link_stress == (mode == HardwareSmokeMode::LinkStress),
            first_stream_fault(mode, streams@) == first_stream_fault(mode, streams@.skip(i as int)),
        decreases streams@.len() - i,
    {
        let t = streams[i];
        assert(streams@.skip(i as int)[0] == t);
        assert(streams@.skip(i as int).drop_first() =~= streams@.skip(i + 1));
        if t.received_batches == 0 || t.received_rows == 0 {
            return Err(
                RunFault::StreamNoData {
                    stream_id: t.stream_id,
                    received_batches: t.received_batches,
                    received_rows: t.received_rows,
                },
            );
        }
        if link_stress && t.received_rows < t.minimum_rows {
            return Err(
                RunFault::StreamThroughputBelowMinimum {
                    stream_id: t.stream_id,
                    received_rows: t.received_rows,
                    minimum_rows: t.minimum_rows,
                },
            );
        }
        i = i + 1;
    }
    assert(streams@.skip(i as int).len() == 0);
    Ok(())
}

// ---------------------------------------------------------------------------
// The payload of one subscription, for the serial link budget
// ---------------------------------------------------------------------------

/// Why the payload of a subscription cannot be sized.
#[derive(Clone, Debug, PartialEq, Eq)]
pub enum LinkBudgetR2Error {
    UnknownStream(u16),
    UnknownChannel(u16),
    Overflow,
    /// The batch does not encode, for the encoder's reason.
    Encoding(ProtocolError),
}

/// The channels of a stream that a mask selects, in the stream's order.
pub open spec fn masked_ids(ids: Seq<u16>, mask: u64) -> Seq<u16>
    decreases ids.len(),
{
    if ids.len() == 0 {
        Seq::empty()
    } else {
        let rest = masked_ids(ids.drop_last(), mask);
        if has_bit(mask, ids.last() as u64) {
            rest.push(ids.last())
        } else {
            rest
        }
    }
}

/// The bytes of one row over these channels, summed in order: the first
/// channel missing from the table, or a sum past `usize::MAX`, stops it.
pub open spec fn row_bytes(ids: Seq<u16>, ch: Seq<ChannelDescriptor>) -> Result<int, LinkBudgetR2Error>
    decreases ids.len(),
{
    if ids.len() == 0 {
        Ok(0)
    } else {
        match row_bytes(ids.drop_last(), ch) {
            Err(e) => Err(e),
            Ok(n) => match lookup_channel(ch, ids.last()) {
                None => Err(LinkBudgetR2Error::UnknownChannel(ids.last())),
                Some(c) => if n + spec_byte_width(c.wire_format) > usize::MAX {
                    Err(LinkBudgetR2Error::Overflow)
                } else {
                    Ok(n + spec_byte_width(c.wire_format))
                },
            },
        }
    }
}

/// Row `k` of a budget batch: sequences counted from one, the logical cycle
/// scaled by the step (saturating), nothing flagged.
pub open spec fn budget_meta(k: int, step: u32) -> SnapshotMeta {
    let rs = (k + 1) as u64;
    let lc = if (k + 1) * step > u64::MAX {
        u64::MAX
    } else {
        ((k + 1) * step) as u64
    };
    SnapshotMeta {
        row_sequence: rs,
        logical_cycle_sequence: lc,
        source_sequence: lc,
        applied_sequence: lc,
        valid_flags: 0,
    }
}

/// The batch whose encoded length a subscription costs on the link: the
/// stream's header fields, the selected channels, zeroed sample bytes and
/// one metadata row per sample.
pub open spec fn budget_batch(
    sub: StreamSubscriptionR2,
    d: StreamDescriptorR2V,
    revision: u32,
    ids: Seq<u16>,
    data_len: nat,
) -> StreamSampleBatchR2V {
    StreamSampleBatchR2V {
        stream_id: d.stream_id,
        stream_revision: revision,
        domain: d.domain,
        capture_phase: d.capture_phase,
        consistency_group: d.consistency_group,
        first_row_sequence: 1,
        row_sequence_step: 1,
        logical_cycle_step: d.logical_cycle_step,
        sample_period_ticks: 1,
        row_count: sub.batch_samples,
        channel_ids: ids,
        sample_data: Seq::new(data_len, |k: int| 0u8),
        metadata_encoding: MetadataEncodingR2::AffineWithOverrides,
        row_metadata: Seq::new(sub.batch_samples as nat, |k: int| budget_meta(k, d.logical_cycle_step)),
    }
}

proof fn lemma_row_bytes_err_stays(ids: Seq<u16>, ch: Seq<ChannelDescriptor>, k: int)
    requires
        0 <= k <= ids.len(),
        row_bytes(ids.take(k), ch) is Err,
    ensures
        row_bytes(ids, ch) == row_bytes(ids.take(k), ch),
    decreases ids.len() - k,
{
    if k < ids.len() {
        assert(ids.take(k + 1).drop_last() =~= ids.take(k));
        lemma_row_bytes_err_stays(ids, ch, k + 1);
    } else {
        assert(ids.take(k) =~= ids);
    }
}

/// The encoded payload length of the batch that a subscription sends, as
/// the serial link budget counts it; which lookup or limit fails otherwise.
pub fn r2_subscription_payload_len(
    sub: &StreamSubscriptionR2,
    streams: &StreamTableR2,
    channels: &ChannelTable,
) -> (r: Result<usize, LinkBudgetR2Error>)
    requires
        lookup_stream_r2(streams@.streams, sub.stream_id) matches Some(d) ==> forall|j: int|
            0 <= j < d.channel_ids.len() ==> d.channel_ids[j] < 64,
    ensures
        match lookup_stream_r2(streams@.streams, sub.stream_id) {
            None => r == Err::<usize, LinkBudgetR2Error>(LinkBudgetR2Error::UnknownStream(sub.stream_id)),
            Some(d) => {
                let ids = masked_ids(d.channel_ids, sub.channel_mask);
                match row_bytes(ids, channels.channels@) {
                    Err(e) => r == Err::<usize, LinkBudgetR2Error>(e),
                    Ok(w) => if w * sub.batch_samples > usize::MAX {
                        r == Err::<usize, LinkBudgetR2Error>(LinkBudgetR2Error::Overflow)
                    } else {
                        let b = budget_batch(
                            *sub,
                            d,
                            streams@.revision,
                            ids,
                            (w * sub.batch_samples) as nat,
                        );
                        if batch_r2_encodable(b) {
                            r matches Ok(n) && n == enc_batch_r2(b).len()
                        } else {
                            r matches Err(LinkBudgetR2Error::Encoding(_))
                        }
                    },
                }
            },
        },
{
    let d = match streams.stream(sub.stream_id) {
        Some(d) => d,
        None => return Err(LinkBudgetR2Error::UnknownStream(sub.stream_id)),
    };
    let ghost dv = d@;
    let mask = sub.channel_mask;
    let mut ids: Vec<u16> = Vec::new();
    let mut i: usize = 0;
    while i < d.channel_ids.len()
        invariant
            i <= d.channel_ids@.len(),
            dv == d@,
            forall|j: int| 0 <= j < d.channel_ids@.len() ==> d.channel_ids@[j] < 64,
            ids@ == masked_ids(d.channel_ids@.take(i as int), mask),
        decreases d.channel_ids@.len() - i,
    {
        let c = d.channel_ids[i];
        assert(d.channel_ids@.take(i + 1).drop_last() =~= d.channel_ids@.take(i as int));
        assert(d.channel_ids@.take(i + 1).last() == c);
        if (mask >> (c as u64)) & 1 == 1 {
            ids.push(c);
        }
        i = i + 1;
    }
    assert(d.channel_ids@.take(i as int) =~= d.channel_ids@);
    let ghost ch = channels.channels@;
    let mut total: usize = 0;
    let mut j: usize = 0;
    assert(ids@.take(0) =~= Seq::<u16>::empty());
    while j < ids.len()
        invariant
            j <= ids@.len(),
            ch == channels.channels@,
            ids@ == masked_ids(dv.channel_ids, mask),
            mask == sub.channel_mask,
            lookup_stream_r2(streams@.streams, sub.stream_id) == Some(dv),
            row_bytes(ids@.take(j as int), ch) == Ok::<int, LinkBudgetR2Error>(total as int),
        decreases ids@.len() - j,
    {
        let id = ids[j];
        assert(ids@.take(j + 1).drop_last() =~= ids@.take(j as int));
        assert(ids@.take(j + 1).last() == id);
        match channels.channel(id) {
            None => {
                proof {
                    lemma_row_bytes_err_stays(ids@, ch, j + 1);
                }
                return Err(LinkBudgetR2Error::UnknownChannel(id));
            },
            Some(c) => match total.checked_add(c.wire_format.byte_width()) {
                None => {
                    proof {
                        lemma_row_bytes_err_stays(ids@, ch, j + 1);
                    }
                    return Err(LinkBudgetR2Error::Overflow);
                },
                Some(t) => {
                    total = t;
                },
            },
        }
        j = j + 1;
    }
    assert(ids@.take(j as int) =~= ids@);
    let rows_n = sub.batch_samples;
    let data_len = match total.checked_mul(rows_n as usize) {
        Some(n) => n,
        None => return Err(LinkBudgetR2Error::Overflow),
    };
    let mut sample_data: Vec<u8> = Vec::new();
    let mut k: usize = 0;
    while k < data_len
        invariant
            k <= data_len,
            sample_data@ =~= Seq::new(k as nat, |x: int| 0u8),
        decreases data_len - k,
    {
        sample_data.push(0u8);
        k = k + 1;
    }
    let step = d.logical_cycle_step;
    let mut rows: Vec<SnapshotMeta> = Vec::new();
    let mut m: u16 = 0;
    while m < rows_n
        invariant
            m <= rows_n,
            rows@ =~= Seq::new(m as nat, |x: int| budget_meta(x, step)),
        decreases rows_n - m,
    {
        let rs: u64 = (m as u64) + 1;
        let lc: u64 = match rs.checked_mul(step as u64) {
            Some(v) => v,
            None => u64::MAX,
        };
        rows.push(
            SnapshotMeta {
                row_sequence: rs,
                logical_cycle_sequence: lc,
                source_sequence: lc,
                applied_sequence: lc,
                valid_flags: 0,
            },
        );
        m = m + 1;
    }
    let batch = StreamSampleBatchR2 {
        stream_id: d.stream_id,
        stream_revision: streams.revision,
        domain: d.domain,
        capture_phase: d.capture_phase,
        consistency_group: d.consistency_group,
        first_row_sequence: 1,
        row_sequence_step: 1,
        logical_cycle_step: step,
        sample_period_ticks: 1,
        row_count: rows_n,
        channel_ids: ids,
        sample_data,
        metadata_encoding: MetadataEncodingR2::AffineWithOverrides,
        row_metadata: rows,
    };
    assert(batch@ == budget_batch(*sub, dv, streams@.revision, masked_ids(dv.channel_ids, mask), data_len as nat));
    match stream_sample_batch_r2_payload_len(&batch) {
        Ok(n) => Ok(n),
        Err(e) => Err(LinkBudgetR2Error::Encoding(e)),
    }
}

} // verus!
