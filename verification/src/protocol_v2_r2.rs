//! Frozen SCP1 V2 R2 stream, metadata, and multi-subscription wire protocol.
//!
//! R2 is selected only by its dedicated message identifiers. No decoder in
//! this module guesses a revision from payload length.

use vstd::prelude::*;

use crate::codec::{
    elem_canonical, elem_roundtrips, enc_list, lemma_list_canonical, lemma_list_roundtrip,
    lemma_parse_list_fail, parse_list,
};
use crate::protocol::{
    channel_table_valid, invalid_error, lookup_channel, ChannelDescriptor, ChannelTable,
    ProtocolError, MAX_BATCH_SAMPLES, MAX_CHANNEL_COUNT, MAX_PAYLOAD_LEN,
};
use crate::protocol_v2::{
    contains_u16, has_bit, lemma_lookup_binding, lemma_selected_len, lemma_test_bit, lookup_binding,
    row_width, select_channels, selected, validate_count, CapturePhase, CausalRelation,
    SampleDomain, StreamChannelBinding, MAX_CAUSAL_RELATION_COUNT, MAX_STREAM_COUNT,
};
use crate::reader::PayloadReader;
use crate::wire::{
    from_le16, from_le32, from_le64, le16, le32, le64, lemma_le16_canonical, lemma_le16_roundtrip,
    lemma_le32_canonical, lemma_le32_roundtrip, lemma_le64_canonical, lemma_le64_roundtrip,
    put_u16, put_u32, put_u64,
};

pub use crate::batch_r2::{
    capture_data_r2_payload_len, encode_capture_data_r2_payload, r2_budget_frame_bytes,
    stream_sample_batch_r2_payload_len, CaptureDataR2, StreamSampleBatchR2,
};
pub use crate::messages_r2::{capture_integrity_summary_r2, MessageV2R2};
pub use crate::metadata_r2::MetadataEncodingR2;

verus! {

pub const CAPABILITY_V2_STREAMS_R2: u32 = 16;

pub const CAPABILITY_V2_MULTI_STREAM: u32 = 32;

pub const CAPABILITY_V2_COMPRESSED_METADATA: u32 = 64;

pub const CAPABILITY_V2_HARDWARE_CAPTURE_R2: u32 = 128;

pub const MSG_SAMPLE_BATCH_V2_R2: u8 = 0x33;

pub const MSG_CONFIGURE_STREAMS_R2: u8 = 0x34;

pub const MSG_STREAM_TABLE_R2: u8 = 0x35;

pub const MSG_CAPTURE_DATA_R2: u8 = 0x47;

pub const MAX_SUBSCRIPTIONS_R2: usize = 8;

pub const MAX_CAUSAL_GROUPS_R2: usize = 64;

pub const MAX_METADATA_OVERRIDES_R2: usize = 4096;

pub const R2_SAMPLE_FIXED_PAYLOAD_BYTES: usize = 36;

pub const R2_AFFINE_METADATA_BYTES: usize = 48;

pub const R2_EXPLICIT_METADATA_ROW_BYTES: usize = 36;

pub const R2_CAPTURE_DATA_PREFIX_BYTES: usize = 8;

// ---------------------------------------------------------------------------
// Stream table R2
// ---------------------------------------------------------------------------

/// A consistency group: the logical control-cycle clock that the streams of
/// the group count in.
#[derive(Clone, Copy, Debug, PartialEq, Eq, Structural)]
pub struct CausalGroupDescriptorR2 {
    pub consistency_group: u16,
    pub logical_cycle_rate_hz: u32,
    pub max_reorder_cycles: u16,
}

#[derive(Clone, Debug, PartialEq, Eq)]
pub struct StreamDescriptorR2 {
    pub stream_id: u16,
    pub domain: SampleDomain,
    pub capture_phase: CapturePhase,
    pub sample_rate_hz: u32,
    pub consistency_group: u16,
    pub logical_cycle_step: u32,
    pub channel_ids: Vec<u16>,
}

pub struct StreamDescriptorR2V {
    pub stream_id: u16,
    pub domain: SampleDomain,
    pub capture_phase: CapturePhase,
    pub sample_rate_hz: u32,
    pub consistency_group: u16,
    pub logical_cycle_step: u32,
    pub channel_ids: Seq<u16>,
}

impl View for StreamDescriptorR2 {
    type V = StreamDescriptorR2V;

    open spec fn view(&self) -> StreamDescriptorR2V {
        StreamDescriptorR2V {
            stream_id: self.stream_id,
            domain: self.domain,
            capture_phase: self.capture_phase,
            sample_rate_hz: self.sample_rate_hz,
            consistency_group: self.consistency_group,
            logical_cycle_step: self.logical_cycle_step,
            channel_ids: self.channel_ids@,
        }
    }
}

#[derive(Clone, Debug, PartialEq, Eq)]
pub struct StreamTableR2 {
    pub revision: u32,
    pub causal_groups: Vec<CausalGroupDescriptorR2>,
    pub streams: Vec<StreamDescriptorR2>,
    pub bindings: Vec<StreamChannelBinding>,
    pub causal_relations: Vec<CausalRelation>,
}

pub struct StreamTableR2V {
    pub revision: u32,
    pub causal_groups: Seq<CausalGroupDescriptorR2>,
    pub streams: Seq<StreamDescriptorR2V>,
    pub bindings: Seq<StreamChannelBinding>,
    pub causal_relations: Seq<CausalRelation>,
}

pub open spec fn stream_r2_views(s: Seq<StreamDescriptorR2>) -> Seq<StreamDescriptorR2V> {
    s.map_values(|d: StreamDescriptorR2| d@)
}

impl View for StreamTableR2 {
    type V = StreamTableR2V;

    open spec fn view(&self) -> StreamTableR2V {
        StreamTableR2V {
            revision: self.revision,
            causal_groups: self.causal_groups@,
            streams: stream_r2_views(self.streams@),
            bindings: self.bindings@,
            causal_relations: self.causal_relations@,
        }
    }
}

/// First group with id `id`.
pub open spec fn lookup_group(g: Seq<CausalGroupDescriptorR2>, id: u16) -> Option<
    CausalGroupDescriptorR2,
>
    decreases g.len(),
{
    if g.len() == 0 {
        None
    } else if g[0].consistency_group == id {
        Some(g[0])
    } else {
        lookup_group(g.drop_first(), id)
    }
}

/// First stream with id `id`.
pub open spec fn lookup_stream_r2(s: Seq<StreamDescriptorR2V>, id: u16) -> Option<StreamDescriptorR2V>
    decreases s.len(),
{
    if s.len() == 0 {
        None
    } else if s[0].stream_id == id {
        Some(s[0])
    } else {
        lookup_stream_r2(s.drop_first(), id)
    }
}

pub proof fn lemma_lookup_group(g: Seq<CausalGroupDescriptorR2>, id: u16)
    ensures
        lookup_group(g, id) is Some <==> exists|i: int|
            0 <= i < g.len() && g[i].consistency_group == id,
        lookup_group(g, id) matches Some(x) ==> x.consistency_group == id && g.contains(x),
    decreases g.len(),
{
    if g.len() > 0 {
        lemma_lookup_group(g.drop_first(), id);
        if g[0].consistency_group != id {
            if exists|i: int| 0 <= i < g.len() && g[i].consistency_group == id {
                let i = choose|i: int| 0 <= i < g.len() && g[i].consistency_group == id;
                assert(g.drop_first()[i - 1].consistency_group == id);
            }
            if lookup_group(g, id) is Some {
                let x = lookup_group(g, id)->Some_0;
                let k = choose|k: int| 0 <= k < g.drop_first().len() && g.drop_first()[k] == x;
                assert(g[k + 1] == x);
            }
        } else {
            assert(g.contains(g[0]));
        }
    }
}

pub proof fn lemma_lookup_stream_r2(s: Seq<StreamDescriptorR2V>, id: u16)
    ensures
        lookup_stream_r2(s, id) is Some <==> exists|i: int| 0 <= i < s.len() && s[i].stream_id == id,
        lookup_stream_r2(s, id) matches Some(d) ==> d.stream_id == id && exists|i: int|
            0 <= i < s.len() && s[i] == d,
    decreases s.len(),
{
    if s.len() > 0 {
        lemma_lookup_stream_r2(s.drop_first(), id);
        if s[0].stream_id != id {
            if exists|i: int| 0 <= i < s.len() && s[i].stream_id == id {
                let i = choose|i: int| 0 <= i < s.len() && s[i].stream_id == id;
                assert(s.drop_first()[i - 1].stream_id == id);
            }
            if lookup_stream_r2(s, id) is Some {
                let d = lookup_stream_r2(s, id)->Some_0;
                let k = choose|k: int| 0 <= k < s.drop_first().len() && s.drop_first()[k] == d;
                assert(s[k + 1] == d);
            }
        }
    }
}

/// With distinct stream ids, the lookup of a listed id finds that stream.
pub proof fn lemma_lookup_stream_r2_unique(s: Seq<StreamDescriptorR2V>, i: int)
    requires
        0 <= i < s.len(),
        forall|a: int, b: int| 0 <= a < b < s.len() ==> s[a].stream_id != s[b].stream_id,
    ensures
        lookup_stream_r2(s, s[i].stream_id) == Some(s[i]),
    decreases s.len(),
{
    if i > 0 {
        let t = s.drop_first();
        assert(t[i - 1] == s[i]);
        assert forall|a: int, b: int| 0 <= a < b < t.len() implies t[a].stream_id != t[b].stream_id by {
            assert(t[a] == s[a + 1] && t[b] == s[b + 1]);
        }
        lemma_lookup_stream_r2_unique(t, i - 1);
    }
}

/// Group ids are non-zero and distinct and every group has a clock.
pub open spec fn groups_r2_ok(g: Seq<CausalGroupDescriptorR2>) -> bool {
    &&& forall|i: int|
        0 <= i < g.len() ==> (#[trigger] g[i]).consistency_group != 0 && g[i].logical_cycle_rate_hz
            != 0
    &&& forall|i: int, j: int| 0 <= i < j < g.len() ==> g[i].consistency_group != g[j].consistency_group
}

/// A stream descriptor of an R2 table: frozen domain, a known group whose
/// clock the stream rate divides exactly, the exact logical step, and 1..=64
/// distinct in-range channels.
pub open spec fn descriptor_r2_ok(g: Seq<CausalGroupDescriptorR2>, d: StreamDescriptorR2V) -> bool {
    &&& d.stream_id != 0
    &&& lookup_group(g, d.consistency_group) is Some
    &&& d.sample_rate_hz != 0
    &&& d.logical_cycle_step != 0
    &&& lookup_group(g, d.consistency_group)->Some_0.logical_cycle_rate_hz % d.sample_rate_hz == 0
    &&& d.logical_cycle_step == lookup_group(g, d.consistency_group)->Some_0.logical_cycle_rate_hz
        / d.sample_rate_hz
    &&& d.sample_rate_hz == d.domain.spec_rate()
    &&& d.capture_phase == d.domain.spec_phase()
    &&& 1 <= d.channel_ids.len() <= MAX_CHANNEL_COUNT
    &&& forall|k: int| 0 <= k < d.channel_ids.len() ==> (d.channel_ids[k] as int) < MAX_CHANNEL_COUNT
    &&& forall|k: int, l: int| 0 <= k < l < d.channel_ids.len() ==> d.channel_ids[k] != d.channel_ids[l]
}

pub open spec fn streams_r2_ok(g: Seq<CausalGroupDescriptorR2>, s: Seq<StreamDescriptorR2V>) -> bool {
    &&& forall|i: int| 0 <= i < s.len() ==> descriptor_r2_ok(g, #[trigger] s[i])
    &&& forall|i: int, j: int| 0 <= i < j < s.len() ==> s[i].stream_id != s[j].stream_id
    &&& forall|i: int, j: int, c: u16|
        0 <= i < j < s.len() && (#[trigger] s[i].channel_ids.contains(c)) ==> !(
        #[trigger] s[j].channel_ids.contains(c))
}

/// Bindings name distinct channels, each listed by the stream it names.
pub open spec fn bindings_r2_ok(s: Seq<StreamDescriptorR2V>, b: Seq<StreamChannelBinding>) -> bool {
    &&& forall|i: int, j: int| 0 <= i < j < b.len() ==> b[i].channel_id != b[j].channel_id
    &&& forall|i: int|
        0 <= i < b.len() ==> ((#[trigger] lookup_stream_r2(s, b[i].stream_id)) matches Some(d)
            && d.channel_ids.contains(b[i].channel_id))
}

/// Some descriptor lists channel `c`.
pub open spec fn described(s: Seq<StreamDescriptorR2V>, c: u16) -> bool {
    exists|i: int| 0 <= i < s.len() && (#[trigger] s[i].channel_ids.contains(c))
}

/// Some binding binds channel `c`.
pub open spec fn bound(b: Seq<StreamChannelBinding>, c: u16) -> bool {
    exists|m: int| 0 <= m < b.len() && (#[trigger] b[m].channel_id) == c
}

pub open spec fn relation_r2_ok(s: Seq<StreamDescriptorR2V>, r: CausalRelation) -> bool {
    &&& lookup_stream_r2(s, r.input_stream_id) is Some
    &&& lookup_stream_r2(s, r.result_stream_id) is Some
    &&& lookup_stream_r2(s, r.application_stream_id) is Some
    &&& lookup_stream_r2(s, r.input_stream_id)->Some_0.consistency_group == lookup_stream_r2(
        s,
        r.result_stream_id,
    )->Some_0.consistency_group
    &&& lookup_stream_r2(s, r.result_stream_id)->Some_0.consistency_group == lookup_stream_r2(
        s,
        r.application_stream_id,
    )->Some_0.consistency_group
}

/// The R2 stream tables `StreamTableR2::validate` accepts.
pub open spec fn stream_table_r2_valid(t: StreamTableR2V) -> bool {
    &&& 1 <= t.causal_groups.len() <= MAX_CAUSAL_GROUPS_R2
    &&& 1 <= t.streams.len() <= MAX_STREAM_COUNT
    &&& 1 <= t.bindings.len() <= MAX_CHANNEL_COUNT
    &&& t.causal_relations.len() <= MAX_CAUSAL_RELATION_COUNT
    &&& groups_r2_ok(t.causal_groups)
    &&& streams_r2_ok(t.causal_groups, t.streams)
    &&& bindings_r2_ok(t.streams, t.bindings)
    &&& forall|c: u16| described(t.streams, c) <==> bound(t.bindings, c)
    &&& forall|i: int| 0 <= i < t.causal_relations.len() ==> relation_r2_ok(t.streams, #[trigger] t.causal_relations[i])
    &&& forall|i: int, j: int| 0 <= i < j < t.causal_relations.len() ==> t.causal_relations[i] != t.causal_relations[j]
}

impl StreamTableR2 {
    /// The first stream with id `stream_id`.
    pub fn stream(&self, stream_id: u16) -> (r: Option<&StreamDescriptorR2>)
        ensures
            match lookup_stream_r2(self@.streams, stream_id) {
                Some(d) => r matches Some(x) && x@ == d,
                None => r is None,
            },
    {
        let mut i: usize = 0;
        assert(self@.streams.subrange(0, self@.streams.len() as int) =~= self@.streams);
        while i < self.streams.len()
            invariant
                i <= self.streams@.len(),
                self@.streams.len() == self.streams@.len(),
                lookup_stream_r2(self@.streams, stream_id) == lookup_stream_r2(
                    self@.streams.subrange(i as int, self@.streams.len() as int),
                    stream_id,
                ),
            decreases self.streams.len() - i,
        {
            let ghost rest = self@.streams.subrange(i as int, self@.streams.len() as int);
            assert(rest[0] == self.streams@[i as int]@);
            if self.streams[i].stream_id == stream_id {
                return Some(&self.streams[i]);
            }
            assert(rest.drop_first() =~= self@.streams.subrange(i + 1, self@.streams.len() as int));
            i = i + 1;
        }
        None
    }

    /// The first causal group with id `consistency_group`.
    pub fn group(&self, consistency_group: u16) -> (r: Option<&CausalGroupDescriptorR2>)
        ensures
            match lookup_group(self.causal_groups@, consistency_group) {
                Some(g) => r == Some(&g),
                None => r is None,
            },
    {
        let mut i: usize = 0;
        assert(self.causal_groups@.subrange(0, self.causal_groups@.len() as int)
            =~= self.causal_groups@);
        while i < self.causal_groups.len()
            invariant
                i <= self.causal_groups@.len(),
                lookup_group(self.causal_groups@, consistency_group) == lookup_group(
                    self.causal_groups@.subrange(i as int, self.causal_groups@.len() as int),
                    consistency_group,
                ),
            decreases self.causal_groups.len() - i,
        {
            let ghost rest = self.causal_groups@.subrange(i as int, self.causal_groups@.len() as int);
            if self.causal_groups[i].consistency_group == consistency_group {
                return Some(&self.causal_groups[i]);
            }
            assert(rest.drop_first() =~= self.causal_groups@.subrange(
                i + 1,
                self.causal_groups@.len() as int,
            ));
            i = i + 1;
        }
        None
    }

    /// The first binding of channel `channel_id`.
    pub fn binding(&self, channel_id: u16) -> (r: Option<&StreamChannelBinding>)
        ensures
            match crate::protocol_v2::lookup_binding(self.bindings@, channel_id) {
                Some(b) => r == Some(&b),
                None => r is None,
            },
    {
        let mut i: usize = 0;
        assert(self.bindings@.subrange(0, self.bindings@.len() as int) =~= self.bindings@);
        while i < self.bindings.len()
            invariant
                i <= self.bindings@.len(),
                crate::protocol_v2::lookup_binding(self.bindings@, channel_id)
                    == crate::protocol_v2::lookup_binding(
                    self.bindings@.subrange(i as int, self.bindings@.len() as int),
                    channel_id,
                ),
            decreases self.bindings.len() - i,
        {
            let ghost rest = self.bindings@.subrange(i as int, self.bindings@.len() as int);
            if self.bindings[i].channel_id == channel_id {
                return Some(&self.bindings[i]);
            }
            assert(rest.drop_first() =~= self.bindings@.subrange(i + 1, self.bindings@.len() as int));
            i = i + 1;
        }
        None
    }
}

impl StreamTableR2 {
    #[verifier::loop_isolation(false)]
    fn validate_groups(&self) -> (r: Result<(), ProtocolError>)
        ensures
            r is Ok <==> groups_r2_ok(self.causal_groups@),
            r matches Err(e) ==> e is InvalidPayload,
    {
        let g = &self.causal_groups;
        let mut i: usize = 0;
        while i < g.len()
            invariant
                i <= g@.len(),
                g@ == self.causal_groups@,
                forall|a: int|
                    0 <= a < i ==> (#[trigger] g@[a]).consistency_group != 0
                        && g@[a].logical_cycle_rate_hz != 0,
                forall|a: int, b: int| 0 <= a < b < i ==> g@[a].consistency_group != g@[b].consistency_group,
            decreases g.len() - i,
        {
            if g[i].consistency_group == 0 {
                return Err(invalid_error("R2 causal group ids must be non-zero and unique"));
            }
            let mut j: usize = 0;
            while j < i
                invariant
                    j <= i < g@.len(),
                    forall|b: int| 0 <= b < j ==> g@[b].consistency_group != g@[i as int].consistency_group,
                decreases i - j,
            {
                if g[j].consistency_group == g[i].consistency_group {
                    return Err(invalid_error("R2 causal group ids must be non-zero and unique"));
                }
                j = j + 1;
            }
            if g[i].logical_cycle_rate_hz == 0 {
                return Err(invalid_error("causal group logical cycle rate must be non-zero"));
            }
            i = i + 1;
        }
        Ok(())
    }

    /// Whether a stream before position `i` lists channel `c`.
    #[verifier::loop_isolation(false)]
    fn channel_in_earlier(&self, i: usize, c: u16) -> (r: bool)
        requires
            i <= self.streams@.len(),
        ensures
            r <==> exists|a: int| 0 <= a < i && (#[trigger] self@.streams[a].channel_ids.contains(c)),
    {
        let mut a: usize = 0;
        while a < i
            invariant
                a <= i <= self.streams@.len(),
                forall|b: int| 0 <= b < a ==> !(#[trigger] self@.streams[b].channel_ids.contains(c)),
            decreases i - a,
        {
            assert(self@.streams[a as int] == self.streams@[a as int]@);
            if contains_u16(&self.streams[a].channel_ids, c) {
                assert(self@.streams[a as int].channel_ids.contains(c));
                return true;
            }
            a = a + 1;
        }
        false
    }

    /// The channel list of stream `i`: 1..=64 distinct in-range channels,
    /// none listed by an earlier stream.
    #[verifier::loop_isolation(false)]
    fn validate_stream_channels(&self, i: usize) -> (r: Result<(), ProtocolError>)
        requires
            i < self.streams@.len(),
        ensures
            r is Ok <==> ({
                let d = self@.streams[i as int];
                &&& 1 <= d.channel_ids.len() <= MAX_CHANNEL_COUNT
                &&& forall|k: int| 0 <= k < d.channel_ids.len() ==> (d.channel_ids[k] as int) < MAX_CHANNEL_COUNT
                &&& forall|k: int, l: int| 0 <= k < l < d.channel_ids.len() ==> d.channel_ids[k] != d.channel_ids[l]
                &&& forall|a: int, c: u16|
                    0 <= a < i && (#[trigger] self@.streams[a].channel_ids.contains(c)) ==> !d.channel_ids.contains(c)
            }),
            r matches Err(e) ==> e is InvalidPayload,
    {
        let ids = &self.streams[i].channel_ids;
        let ghost d = self@.streams[i as int];
        assert(ids@ == d.channel_ids);
        validate_count(ids.len(), 1, MAX_CHANNEL_COUNT, "R2 stream channel count")?;
        let mut k: usize = 0;
        while k < ids.len()
            invariant
                i < self.streams@.len(),
                d == self@.streams[i as int],
                ids@ == d.channel_ids,
                k <= ids@.len(),
                forall|a: int| 0 <= a < k ==> (ids@[a] as int) < MAX_CHANNEL_COUNT,
                forall|a: int, b: int| 0 <= a < b < k ==> ids@[a] != ids@[b],
                forall|a: int, c: u16|
                    0 <= a < i && (#[trigger] self@.streams[a].channel_ids.contains(c))
                        ==> !ids@.subrange(0, k as int).contains(c),
            decreases ids.len() - k,
        {
            let c = ids[k];
            if c as usize >= MAX_CHANNEL_COUNT {
                return Err(invalid_error("R2 stream has an invalid or duplicate channel"));
            }
            let mut l: usize = 0;
            while l < k
                invariant
                    k < ids@.len(),
                    c == ids@[k as int],
                    l <= k,
                    forall|b: int| 0 <= b < l ==> ids@[b] != c,
                decreases k - l,
            {
                if ids[l] == c {
                    return Err(invalid_error("R2 stream has an invalid or duplicate channel"));
                }
                l = l + 1;
            }
            if self.channel_in_earlier(i, c) {
                proof {
                    let a = choose|a: int| 0 <= a < i && (#[trigger] self@.streams[a].channel_ids.contains(c));
                    assert(d.channel_ids[k as int] == c);
                    assert(d.channel_ids.contains(c));
                }
                return Err(invalid_error("R2 stream has an invalid or duplicate channel"));
            }
            proof {
                let sub = ids@.subrange(0, k as int);
                let sub1 = ids@.subrange(0, k + 1);
                assert(sub1 =~= sub.push(c));
                assert forall|a: int, c2: u16|
                    0 <= a < i && (#[trigger] self@.streams[a].channel_ids.contains(c2))
                    implies !sub1.contains(c2) by {
                    if sub1.contains(c2) {
                        let w = choose|w: int| 0 <= w < sub1.len() && sub1[w] == c2;
                        if w < k {
                            assert(sub[w] == c2);
                            assert(sub.contains(c2));
                        }
                    }
                }
            }
            k = k + 1;
        }
        proof {
            assert(ids@.subrange(0, ids@.len() as int) =~= ids@);
        }
        Ok(())
    }

    #[verifier::loop_isolation(false)]
    fn validate_streams(&self) -> (r: Result<(), ProtocolError>)
        requires
            groups_r2_ok(self.causal_groups@),
        ensures
            r is Ok <==> streams_r2_ok(self.causal_groups@, self@.streams),
            r matches Err(e) ==> e is InvalidPayload,
    {
        let ghost g = self.causal_groups@;
        let ghost s = self@.streams;
        let n = self.streams.len();
        let mut i: usize = 0;
        while i < n
            invariant
                n == self.streams@.len(),
                s == self@.streams,
                g == self.causal_groups@,
                s.len() == n,
                i <= n,
                forall|a: int| 0 <= a < i ==> descriptor_r2_ok(g, #[trigger] s[a]),
                forall|a: int, b: int| 0 <= a < b < i ==> s[a].stream_id != s[b].stream_id,
                forall|a: int, b: int, c: u16|
                    0 <= a < b < i && (#[trigger] s[a].channel_ids.contains(c)) ==> !(
                    #[trigger] s[b].channel_ids.contains(c)),
            decreases n - i,
        {
            let stream = &self.streams[i];
            assert(s[i as int] == stream@);
            if stream.stream_id == 0 {
                return Err(invalid_error("R2 stream ids must be non-zero and unique"));
            }
            let mut j: usize = 0;
            while j < i
                invariant
                    n == self.streams@.len(),
                    s == self@.streams,
                    j <= i < n,
                    stream@ == s[i as int],
                    forall|b: int| 0 <= b < j ==> s[b].stream_id != stream.stream_id,
                decreases i - j,
            {
                assert(s[j as int] == self.streams@[j as int]@);
                if self.streams[j].stream_id == stream.stream_id {
                    return Err(invalid_error("R2 stream ids must be non-zero and unique"));
                }
                j = j + 1;
            }
            let group = match self.group(stream.consistency_group) {
                Some(group) => group,
                None => {
                    return Err(invalid_error("stream references an unknown causal group"));
                },
            };
            if stream.sample_rate_hz == 0 || stream.logical_cycle_step == 0 {
                return Err(invalid_error("stream rate and logical cycle step must be non-zero"));
            }
            if group.logical_cycle_rate_hz % stream.sample_rate_hz != 0 {
                return Err(invalid_error("causal group rate is not exactly divisible by stream rate"));
            }
            let expected_step = group.logical_cycle_rate_hz / stream.sample_rate_hz;
            if stream.logical_cycle_step != expected_step {
                return Err(invalid_error("stream logical cycle step does not match the exact step"));
            }
            if stream.sample_rate_hz != stream.domain.fixed_sample_rate_hz()
                || stream.capture_phase != stream.domain.fixed_capture_phase() {
                return Err(invalid_error("stream domain, rate, or capture phase is not frozen"));
            }
            self.validate_stream_channels(i)?;
            proof {
                assert(descriptor_r2_ok(g, s[i as int]));
                assert forall|a: int, b: int, c: u16|
                    0 <= a < b < i + 1 && (#[trigger] s[a].channel_ids.contains(c)) implies !(
                    #[trigger] s[b].channel_ids.contains(c)) by {}
            }
            i = i + 1;
        }
        Ok(())
    }

    #[verifier::loop_isolation(false)]
    fn validate_bindings(&self) -> (r: Result<(), ProtocolError>)
        ensures
            r is Ok <==> bindings_r2_ok(self@.streams, self.bindings@),
            r matches Err(e) ==> e is InvalidPayload,
    {
        let ghost s = self@.streams;
        let b = &self.bindings;
        let mut i: usize = 0;
        while i < b.len()
            invariant
                i <= b@.len(),
                b@ == self.bindings@,
                s == self@.streams,
                forall|x: int, y: int| 0 <= x < y < i ==> b@[x].channel_id != b@[y].channel_id,
                forall|x: int|
                    0 <= x < i ==> ((#[trigger] lookup_stream_r2(s, b@[x].stream_id)) matches Some(d)
                        && d.channel_ids.contains(b@[x].channel_id)),
            decreases b.len() - i,
        {
            let mut j: usize = 0;
            while j < i
                invariant
                    j <= i < b@.len(),
                    forall|y: int| 0 <= y < j ==> b@[y].channel_id != b@[i as int].channel_id,
                decreases i - j,
            {
                if b[j].channel_id == b[i].channel_id {
                    return Err(invalid_error("R2 channel is bound more than once"));
                }
                j = j + 1;
            }
            let stream = match self.stream(b[i].stream_id) {
                Some(stream) => stream,
                None => {
                    return Err(invalid_error("R2 binding references an unknown stream"));
                },
            };
            if !contains_u16(&stream.channel_ids, b[i].channel_id) {
                return Err(invalid_error("R2 binding channel is absent from its stream"));
            }
            i = i + 1;
        }
        Ok(())
    }

    /// Every channel a descriptor lists is bound.
    #[verifier::loop_isolation(false)]
    fn validate_described_bound(&self) -> (r: Result<(), ProtocolError>)
        ensures
            r is Ok <==> forall|c: u16| described(self@.streams, c) ==> bound(self.bindings@, c),
            r matches Err(e) ==> e is InvalidPayload,
    {
        let ghost s = self@.streams;
        let mut i: usize = 0;
        while i < self.streams.len()
            invariant
                i <= self.streams@.len(),
                s == self@.streams,
                forall|a: int, c: u16|
                    0 <= a < i && (#[trigger] s[a].channel_ids.contains(c)) ==> bound(self.bindings@, c),
            decreases self.streams.len() - i,
        {
            let ids = &self.streams[i].channel_ids;
            assert(ids@ == s[i as int].channel_ids);
            let mut k: usize = 0;
            while k < ids.len()
                invariant
                    i < self.streams@.len(),
                    s == self@.streams,
                    ids@ == s[i as int].channel_ids,
                    k <= ids@.len(),
                    forall|w: int| 0 <= w < k ==> bound(self.bindings@, #[trigger] ids@[w]),
                decreases ids.len() - k,
            {
                let c = ids[k];
                let mut m: usize = 0;
                let mut found = false;
                while m < self.bindings.len()
                    invariant
                        m <= self.bindings@.len(),
                        found ==> bound(self.bindings@, c),
                        !found ==> forall|y: int| 0 <= y < m ==> self.bindings@[y].channel_id != c,
                    decreases self.bindings.len() - m,
                {
                    if self.bindings[m].channel_id == c {
                        found = true;
                    }
                    m = m + 1;
                }
                if !found {
                    proof {
                        assert(s[i as int].channel_ids.contains(c));
                        assert(described(s, c));
                    }
                    return Err(invalid_error("R2 stream descriptors and bindings contain different channel sets"));
                }
                k = k + 1;
            }
            proof {
                assert forall|a: int, c: u16|
                    0 <= a < i + 1 && (#[trigger] s[a].channel_ids.contains(c)) implies bound(
                    self.bindings@,
                    c,
                ) by {
                    if a == i {
                        let w = choose|w: int| 0 <= w < ids@.len() && ids@[w] == c;
                        assert(bound(self.bindings@, ids@[w]));
                    }
                }
            }
            i = i + 1;
        }
        proof {
            assert forall|c: u16| described(s, c) implies bound(self.bindings@, c) by {
                let a = choose|a: int| 0 <= a < s.len() && (#[trigger] s[a].channel_ids.contains(c));
            }
        }
        Ok(())
    }

    #[verifier::loop_isolation(false)]
    fn validate_relations(&self) -> (r: Result<(), ProtocolError>)
        ensures
            r is Ok <==> (forall|i: int|
                0 <= i < self.causal_relations@.len() ==> relation_r2_ok(
                    self@.streams,
                    #[trigger] self.causal_relations@[i],
                )) && (forall|i: int, j: int|
                0 <= i < j < self.causal_relations@.len() ==> self.causal_relations@[i]
                    != self.causal_relations@[j]),
            r matches Err(e) ==> e is InvalidPayload,
    {
        let rel = &self.causal_relations;
        let ghost s = self@.streams;
        let mut i: usize = 0;
        while i < rel.len()
            invariant
                i <= rel@.len(),
                rel@ == self.causal_relations@,
                s == self@.streams,
                forall|a: int| 0 <= a < i ==> relation_r2_ok(s, #[trigger] rel@[a]),
                forall|a: int, b: int| 0 <= a < b < i ==> rel@[a] != rel@[b],
            decreases rel.len() - i,
        {
            let r = rel[i];
            let input = match self.stream(r.input_stream_id) {
                Some(x) => x,
                None => {
                    return Err(invalid_error("R2 causal relation references an unknown input stream"));
                },
            };
            let result = match self.stream(r.result_stream_id) {
                Some(x) => x,
                None => {
                    return Err(invalid_error("R2 causal relation references an unknown result stream"));
                },
            };
            let application = match self.stream(r.application_stream_id) {
                Some(x) => x,
                None => {
                    return Err(invalid_error("R2 causal relation references an unknown application stream"));
                },
            };
            if input.consistency_group != result.consistency_group || result.consistency_group
                != application.consistency_group {
                return Err(invalid_error("R2 causal relation crosses consistency groups"));
            }
            let mut j: usize = 0;
            while j < i
                invariant
                    j <= i < rel@.len(),
                    r == rel@[i as int],
                    forall|b: int| 0 <= b < j ==> rel@[b] != r,
                decreases i - j,
            {
                if rel[j] == r {
                    return Err(invalid_error("duplicate R2 causal relation"));
                }
                j = j + 1;
            }
            i = i + 1;
        }
        Ok(())
    }

    /// Checks every rule of an R2 stream table: counts, unique non-zero
    /// groups with clocks, frozen streams whose rate divides their group's
    /// clock with the exact logical step, one descriptor per channel, one
    /// binding per described channel, and distinct in-group relations.
    pub fn validate(&self) -> (r: Result<(), ProtocolError>)
        ensures
            r is Ok <==> stream_table_r2_valid(self@),
            r matches Err(e) ==> e is InvalidPayload,
    {
        validate_count(self.causal_groups.len(), 1, MAX_CAUSAL_GROUPS_R2, "R2 causal group count")?;
        validate_count(self.streams.len(), 1, MAX_STREAM_COUNT, "R2 stream descriptor count")?;
        validate_count(self.bindings.len(), 1, MAX_CHANNEL_COUNT, "R2 stream binding count")?;
        validate_count(
            self.causal_relations.len(),
            0,
            MAX_CAUSAL_RELATION_COUNT,
            "R2 causal relation count",
        )?;
        self.validate_groups()?;
        self.validate_streams()?;
        self.validate_bindings()?;
        self.validate_described_bound()?;
        proof {
            let s = self@.streams;
            let b = self.bindings@;
            assert forall|c: u16| bound(b, c) implies described(s, c) by {
                let m = choose|m: int| 0 <= m < b.len() && (#[trigger] b[m].channel_id) == c;
                lemma_lookup_stream_r2(s, b[m].stream_id);
                let d = lookup_stream_r2(s, b[m].stream_id)->Some_0;
                let i = choose|i: int| 0 <= i < s.len() && s[i] == d;
                assert(s[i].channel_ids.contains(c));
            }
        }
        self.validate_relations()?;
        Ok(())
    }
}

/// The table is valid and every binding names a channel of the channel table.
pub open spec fn r2_valid_against_channels(t: StreamTableR2V, ch: Seq<ChannelDescriptor>) -> bool {
    &&& stream_table_r2_valid(t)
    &&& channel_table_valid(ch)
    &&& forall|i: int| 0 <= i < t.bindings.len() ==> (#[trigger] lookup_channel(ch, t.bindings[i].channel_id)) is Some
}

impl StreamTableR2 {
    pub fn validate_against_channels(&self, channels: &ChannelTable) -> (r: Result<(), ProtocolError>)
        ensures
            r is Ok <==> r2_valid_against_channels(self@, channels.channels@),
            r matches Err(e) ==> e is InvalidPayload,
    {
        self.validate()?;
        channels.validate()?;
        let mut i: usize = 0;
        while i < self.bindings.len()
            invariant
                i <= self.bindings@.len(),
                forall|a: int| 0 <= a < i ==> (#[trigger] lookup_channel(channels.channels@, self.bindings@[a].channel_id)) is Some,
            decreases self.bindings.len() - i,
        {
            if channels.channel(self.bindings[i].channel_id).is_none() {
                return Err(invalid_error("R2 binding references an unknown channel"));
            }
            i = i + 1;
        }
        Ok(())
    }
}

// ---------------------------------------------------------------------------
// CONFIGURE_STREAMS_R2
// ---------------------------------------------------------------------------

#[derive(Clone, Copy, Debug, PartialEq, Eq, Structural)]
pub struct StreamSubscriptionR2 {
    pub stream_id: u16,
    pub batch_samples: u16,
    pub channel_mask: u64,
}

/// An atomic set of stream subscriptions.
#[derive(Clone, Debug, PartialEq, Eq)]
pub struct ConfigureStreamsR2 {
    pub transaction_id: u32,
    pub subscriptions: Vec<StreamSubscriptionR2>,
}

pub struct ConfigureStreamsR2V {
    pub transaction_id: u32,
    pub subscriptions: Seq<StreamSubscriptionR2>,
}

impl View for ConfigureStreamsR2 {
    type V = ConfigureStreamsR2V;

    open spec fn view(&self) -> ConfigureStreamsR2V {
        ConfigureStreamsR2V {
            transaction_id: self.transaction_id,
            subscriptions: self.subscriptions@,
        }
    }
}

pub open spec fn subscription_shape_ok(s: StreamSubscriptionR2) -> bool {
    s.stream_id != 0 && 1 <= s.batch_samples <= MAX_BATCH_SAMPLES && s.channel_mask != 0
}

/// A non-zero transaction of 1..=8 subscriptions to distinct streams, each
/// with a batch size in range and a non-empty mask.
pub open spec fn configure_streams_shape_ok(c: ConfigureStreamsR2V) -> bool {
    &&& c.transaction_id != 0
    &&& 1 <= c.subscriptions.len() <= MAX_SUBSCRIPTIONS_R2
    &&& forall|i: int| 0 <= i < c.subscriptions.len() ==> subscription_shape_ok(#[trigger] c.subscriptions[i])
    &&& forall|i: int, j: int|
        0 <= i < j < c.subscriptions.len() ==> c.subscriptions[i].stream_id != c.subscriptions[j].stream_id
}

#[verifier::loop_isolation(false)]
pub fn validate_configure_streams_shape(configure: &ConfigureStreamsR2) -> (r: Result<(), ProtocolError>)
    ensures
        r is Ok <==> configure_streams_shape_ok(configure@),
        r matches Err(e) ==> e is InvalidPayload,
{
    if configure.transaction_id == 0 {
        return Err(invalid_error("R2 transaction id must be non-zero"));
    }
    validate_count(configure.subscriptions.len(), 1, MAX_SUBSCRIPTIONS_R2, "R2 subscriptions")?;
    let subs = &configure.subscriptions;
    let mut i: usize = 0;
    while i < subs.len()
        invariant
            i <= subs@.len(),
            forall|a: int| 0 <= a < i ==> subscription_shape_ok(#[trigger] subs@[a]),
            forall|a: int, b: int| 0 <= a < b < i ==> subs@[a].stream_id != subs@[b].stream_id,
        decreases subs.len() - i,
    {
        let sub = subs[i];
        if sub.stream_id == 0 || sub.batch_samples == 0 || sub.batch_samples as usize
            > MAX_BATCH_SAMPLES || sub.channel_mask == 0 {
            return Err(invalid_error("R2 subscriptions require unique non-zero streams, batches, and channel masks"));
        }
        let mut j: usize = 0;
        while j < i
            invariant
                j <= i,
                forall|b: int| 0 <= b < j ==> subs@[b].stream_id != sub.stream_id,
            decreases i - j,
        {
            if subs[j].stream_id == sub.stream_id {
                return Err(invalid_error("R2 subscriptions require unique non-zero streams, batches, and channel masks"));
            }
            j = j + 1;
        }
        i = i + 1;
    }
    Ok(())
}

pub open spec fn enc_subscription(s: StreamSubscriptionR2) -> Seq<u8> {
    le16(s.stream_id) + le16(s.batch_samples) + le64(s.channel_mask)
}

pub open spec fn parse_subscription(s: Seq<u8>, p: int) -> Option<(StreamSubscriptionR2, int)> {
    if p < 0 || p + 12 > s.len() {
        None
    } else {
        Some(
            (
                StreamSubscriptionR2 {
                    stream_id: from_le16(s.subrange(p, p + 2)),
                    batch_samples: from_le16(s.subrange(p + 2, p + 4)),
                    channel_mask: from_le64(s.subrange(p + 4, p + 12)),
                },
                p + 12,
            ),
        )
    }
}

pub open spec fn g_subscription() -> spec_fn(StreamSubscriptionR2) -> Seq<u8> {
    |x: StreamSubscriptionR2| enc_subscription(x)
}

pub open spec fn f_subscription() -> spec_fn(Seq<u8>, int) -> Option<(StreamSubscriptionR2, int)> {
    |s: Seq<u8>, p: int| parse_subscription(s, p)
}

proof fn lemma_subscription_elem(s: Seq<u8>)
    ensures
        elem_canonical(s, f_subscription(), g_subscription()),
        forall|x: StreamSubscriptionR2| elem_roundtrips(s, f_subscription(), g_subscription(), x),
{
    assert forall|p: int| 0 <= p implies match #[trigger] f_subscription()(s, p) {
        Some((x, q)) => p <= q <= s.len() && s.subrange(p, q) == g_subscription()(x),
        None => true,
    } by {
        if p + 12 <= s.len() {
            lemma_le16_canonical(s.subrange(p, p + 2));
            lemma_le16_canonical(s.subrange(p + 2, p + 4));
            lemma_le64_canonical(s.subrange(p + 4, p + 12));
            assert(s.subrange(p, p + 12) =~= s.subrange(p, p + 2) + s.subrange(p + 2, p + 4)
                + s.subrange(p + 4, p + 12));
        }
    }
    assert forall|x: StreamSubscriptionR2| elem_roundtrips(s, f_subscription(), g_subscription(), x) by {
        assert forall|p: int|
            0 <= p && p + g_subscription()(x).len() <= s.len() && #[trigger] s.subrange(
                p,
                p + g_subscription()(x).len(),
            ) == g_subscription()(x) implies f_subscription()(s, p) == Some(
            (x, p + g_subscription()(x).len()),
        ) by {
            lemma_le16_roundtrip(x.stream_id);
            lemma_le16_roundtrip(x.batch_samples);
            lemma_le64_roundtrip(x.channel_mask);
            let w = s.subrange(p, p + 12);
            assert(s.subrange(p, p + 2) =~= w.subrange(0, 2));
            assert(s.subrange(p + 2, p + 4) =~= w.subrange(2, 4));
            assert(s.subrange(p + 4, p + 12) =~= w.subrange(4, 12));
        }
    }
}

/// CONFIGURE_STREAMS_R2 payload: transaction id, count, zero reserved
/// half-word, then 12 bytes per subscription.
pub open spec fn enc_configure_streams(c: ConfigureStreamsR2V) -> Seq<u8> {
    le32(c.transaction_id) + le16(c.subscriptions.len() as u16) + le16(0) + enc_list(
        c.subscriptions,
        g_subscription(),
    )
}

pub open spec fn parse_configure_streams(s: Seq<u8>, p: int) -> Option<(ConfigureStreamsR2V, int)> {
    if p < 0 || p + 8 > s.len() {
        None
    } else {
        let n = from_le16(s.subrange(p + 4, p + 6));
        if from_le16(s.subrange(p + 6, p + 8)) != 0 || n < 1 || n > MAX_SUBSCRIPTIONS_R2 {
            None
        } else {
            match parse_list(s, p + 8, n as nat, f_subscription()) {
                Some((subs, q)) => {
                    let c = ConfigureStreamsR2V {
                        transaction_id: from_le32(s.subrange(p, p + 4)),
                        subscriptions: subs,
                    };
                    if configure_streams_shape_ok(c) {
                        Some((c, q))
                    } else {
                        None
                    }
                },
                None => None,
            }
        }
    }
}

/// Law: a well-shaped subscription set parses back from its encoding.
pub proof fn lemma_configure_streams_roundtrip(s: Seq<u8>, p: int, c: ConfigureStreamsR2V)
    requires
        configure_streams_shape_ok(c),
        0 <= p,
        p + enc_configure_streams(c).len() <= s.len(),
        s.subrange(p, p + enc_configure_streams(c).len()) == enc_configure_streams(c),
    ensures
        parse_configure_streams(s, p) == Some((c, p + enc_configure_streams(c).len())),
{
    let e = enc_configure_streams(c);
    let body = enc_list(c.subscriptions, g_subscription());
    lemma_le32_roundtrip(c.transaction_id);
    lemma_le16_roundtrip(c.subscriptions.len() as u16);
    lemma_le16_roundtrip(0);
    let w = s.subrange(p, p + e.len());
    assert(s.subrange(p, p + 4) =~= w.subrange(0, 4));
    assert(e.subrange(0, 4) =~= le32(c.transaction_id));
    assert(s.subrange(p + 4, p + 6) =~= w.subrange(4, 6));
    assert(e.subrange(4, 6) =~= le16(c.subscriptions.len() as u16));
    assert(s.subrange(p + 6, p + 8) =~= w.subrange(6, 8));
    assert(e.subrange(6, 8) =~= le16(0));
    assert(s.subrange(p + 8, p + 8 + body.len()) =~= w.subrange(8, e.len() as int));
    assert(e.subrange(8, e.len() as int) =~= body);
    lemma_subscription_elem(s);
    lemma_list_roundtrip(s, p + 8, c.subscriptions, f_subscription(), g_subscription());
}

/// Law: whatever the subscription grammar accepts is the encoding of its
/// result.
pub proof fn lemma_configure_streams_canonical(s: Seq<u8>, p: int)
    requires
        0 <= p <= s.len(),
    ensures
        match parse_configure_streams(s, p) {
            Some((c, q)) => p <= q <= s.len() && s.subrange(p, q) == enc_configure_streams(c),
            None => true,
        },
{
    if p + 8 <= s.len() {
        let n = from_le16(s.subrange(p + 4, p + 6));
        lemma_subscription_elem(s);
        lemma_list_canonical(s, p + 8, n as nat, f_subscription(), g_subscription());
        if let Some((c, q)) = parse_configure_streams(s, p) {
            lemma_le32_canonical(s.subrange(p, p + 4));
            lemma_le16_canonical(s.subrange(p + 4, p + 6));
            lemma_le16_canonical(s.subrange(p + 6, p + 8));
            assert(le16(0) =~= s.subrange(p + 6, p + 8));
            assert(s.subrange(p, q) =~= s.subrange(p, p + 4) + s.subrange(p + 4, p + 6)
                + s.subrange(p + 6, p + 8) + s.subrange(p + 8, q));
        }
    }
}

pub fn encode_configure_streams(configure: &ConfigureStreamsR2, bytes: &mut Vec<u8>) -> (r: Result<(), ProtocolError>)
    ensures
        r is Ok <==> configure_streams_shape_ok(configure@),
        r is Ok ==> final(bytes)@ == old(bytes)@ + enc_configure_streams(configure@),
        r is Err ==> final(bytes)@ == old(bytes)@,
        r matches Err(e) ==> e is InvalidPayload,
{
    validate_configure_streams_shape(configure)?;
    let ghost start = bytes@;
    put_u32(bytes, configure.transaction_id);
    put_u16(bytes, configure.subscriptions.len() as u16);
    put_u16(bytes, 0);
    let ghost head = bytes@;
    let subs = &configure.subscriptions;
    let mut i: usize = 0;
    while i < subs.len()
        invariant
            i <= subs@.len(),
            bytes@ == head + enc_list(subs@.subrange(0, i as int), g_subscription()),
        decreases subs.len() - i,
    {
        let ghost before = bytes@;
        put_u16(bytes, subs[i].stream_id);
        put_u16(bytes, subs[i].batch_samples);
        put_u64(bytes, subs[i].channel_mask);
        proof {
            let sub1 = subs@.subrange(0, i + 1);
            assert(sub1.drop_last() =~= subs@.subrange(0, i as int));
            assert(bytes@ =~= head + enc_list(sub1, g_subscription()));
        }
        i = i + 1;
    }
    assert(subs@.subrange(0, subs@.len() as int) =~= subs@);
    assert(bytes@ =~= start + enc_configure_streams(configure@));
    Ok(())
}

#[verifier::loop_isolation(false)]
pub fn decode_configure_streams(reader: &mut PayloadReader) -> (r: Result<ConfigureStreamsR2, ProtocolError>)
    requires
        old(reader).wf(),
    ensures
        final(reader).wf(),
        final(reader).data() == old(reader).data(),
        match parse_configure_streams(old(reader).data(), old(reader).pos()) {
            Some((c, q)) => r matches Ok(x) && x@ == c && final(reader).pos() == q,
            None => r is Err,
        },
{
    let ghost s = reader.data();
    let ghost p = reader.pos();
    let transaction_id = reader.u32()?;
    let count = reader.u16()?;
    let reserved = reader.u16()?;
    if reserved != 0 {
        return Err(invalid_error("R2 CONFIGURE_STREAMS reserved field must be zero"));
    }
    validate_count(count as usize, 1, MAX_SUBSCRIPTIONS_R2, "R2 subscriptions")?;
    let ghost p8 = reader.pos();
    let mut subscriptions: Vec<StreamSubscriptionR2> = Vec::new();
    let mut k: usize = 0;
    while k < count as usize
        invariant
            reader.wf(),
            reader.data() == s,
            k <= count,
            parse_list(s, p8, k as nat, f_subscription()) == Some((subscriptions@, reader.pos())),
        decreases count as usize - k,
    {
        let ghost at = reader.pos();
        let stream_id = match reader.u16() {
            Ok(v) => v,
            Err(e) => {
                proof {
                    lemma_parse_list_fail(s, p8, k as nat, count as nat, f_subscription());
                }
                return Err(e);
            },
        };
        let batch_samples = match reader.u16() {
            Ok(v) => v,
            Err(e) => {
                proof {
                    lemma_parse_list_fail(s, p8, k as nat, count as nat, f_subscription());
                }
                return Err(e);
            },
        };
        let channel_mask = match reader.u64() {
            Ok(v) => v,
            Err(e) => {
                proof {
                    lemma_parse_list_fail(s, p8, k as nat, count as nat, f_subscription());
                }
                return Err(e);
            },
        };
        subscriptions.push(StreamSubscriptionR2 { stream_id, batch_samples, channel_mask });
        k = k + 1;
    }
    let configure = ConfigureStreamsR2 { transaction_id, subscriptions };
    validate_configure_streams_shape(&configure)?;
    Ok(configure)
}

// ---------------------------------------------------------------------------
// Device-side validation of a subscription set
// ---------------------------------------------------------------------------

/// Payload bytes of one configured R2 batch with affine metadata and no
/// overrides.
pub open spec fn r2_configured_payload_len(batch: int, sel: Seq<ChannelDescriptor>) -> int {
    R2_SAMPLE_FIXED_PAYLOAD_BYTES + 2 * sel.len() + batch * row_width(sel) + R2_AFFINE_METADATA_BYTES
}

/// What the device requires of one subscription.
pub open spec fn subscription_for_device_ok(
    sub: StreamSubscriptionR2,
    t: StreamTableR2V,
    ch: Seq<ChannelDescriptor>,
    max_batch_samples: u16,
    max_payload: u32,
) -> bool {
    let sel = selected(ch, sub.channel_mask);
    &&& sub.batch_samples <= max_batch_samples
    &&& lookup_stream_r2(t.streams, sub.stream_id) is Some
    &&& forall|d: u64|
        d < 64 && has_bit(sub.channel_mask, d) ==> exists|i: int|
            0 <= i < ch.len() && (#[trigger] ch[i].channel_id) as u64 == d
    &&& sel.len() >= 1
    &&& forall|i: int|
        0 <= i < sel.len() ==> ((#[trigger] lookup_binding(t.bindings, sel[i].channel_id)) matches Some(
            b,
        ) && b.stream_id == sub.stream_id)
    &&& r2_configured_payload_len(sub.batch_samples as int, sel) <= max_payload
}

/// Everything `validate_configure_streams_r2_for_device` checks.
pub open spec fn configure_streams_for_device_ok(
    c: ConfigureStreamsR2V,
    t: StreamTableR2V,
    ch: Seq<ChannelDescriptor>,
    max_batch_samples: u16,
    max_payload: u32,
) -> bool {
    &&& configure_streams_shape_ok(c)
    &&& r2_valid_against_channels(t, ch)
    &&& 1 <= max_batch_samples <= MAX_BATCH_SAMPLES
    &&& 1 <= max_payload <= MAX_PAYLOAD_LEN
    &&& forall|i: int|
        0 <= i < c.subscriptions.len() ==> subscription_for_device_ok(
            #[trigger] c.subscriptions[i],
            t,
            ch,
            max_batch_samples,
            max_payload,
        )
}

#[verifier::loop_isolation(false)]
fn validate_subscription_for_device(
    sub: StreamSubscriptionR2,
    streams: &StreamTableR2,
    channels: &ChannelTable,
    max_batch_samples: u16,
    max_payload: u32,
) -> (r: Result<(), ProtocolError>)
    requires
        channel_table_valid(channels.channels@),
        1 <= sub.batch_samples <= MAX_BATCH_SAMPLES,
    ensures
        r is Ok <==> subscription_for_device_ok(sub, streams@, channels.channels@, max_batch_samples, max_payload),
        r matches Err(e) ==> e is InvalidPayload,
{
    let ghost ch = channels.channels@;
    if sub.batch_samples > max_batch_samples {
        return Err(invalid_error("stream batch samples exceed the device maximum"));
    }
    let stream = match streams.stream(sub.stream_id) {
        Some(s) => s,
        None => {
            return Err(invalid_error("unknown R2 subscription stream"));
        },
    };
    proof {
        lemma_lookup_stream_r2(streams@.streams, sub.stream_id);
    }
    let mut d: u64 = 0;
    while d < 64
        invariant
            d <= 64,
            ch == channels.channels@,
            forall|e: u64|
                e < d && has_bit(sub.channel_mask, e) ==> exists|k: int|
                    0 <= k < ch.len() && (#[trigger] ch[k].channel_id) as u64 == e,
        decreases 64 - d,
    {
        proof {
            lemma_test_bit(sub.channel_mask, d);
        }
        if sub.channel_mask & (1u64 << d) != 0 {
            if channels.channel(d as u16).is_none() {
                proof {
                    crate::protocol::lemma_lookup_channel(ch, d as u16);
                    assert forall|k: int| 0 <= k < ch.len() implies (#[trigger] ch[k].channel_id) as u64 != d by {
                        if (ch[k].channel_id) as u64 == d {
                            assert(ch[k].channel_id == d as u16);
                        }
                    }
                }
                return Err(invalid_error("stream selects unknown channels"));
            }
            proof {
                crate::protocol::lemma_lookup_channel(ch, d as u16);
                let k = choose|k: int| 0 <= k < ch.len() && ch[k].channel_id == d as u16;
                assert((ch[k].channel_id) as u64 == d);
            }
        }
        d = d + 1;
    }
    let sel = select_channels(channels, sub.channel_mask);
    let ghost selv = selected(ch, sub.channel_mask);
    assert(sel@.len() == selv.len());
    if sel.len() == 0 {
        return Err(invalid_error("stream selects no channels"));
    }
    let mut i: usize = 0;
    while i < sel.len()
        invariant
            sel@.map_values(|d: &ChannelDescriptor| *d) == selv,
            selv == selected(ch, sub.channel_mask),
            ch == channels.channels@,
            stream.stream_id == sub.stream_id,
            i <= sel@.len(),
            forall|a: int|
                0 <= a < i ==> ((#[trigger] lookup_binding(streams@.bindings, selv[a].channel_id)) matches Some(
                    b,
                ) && b.stream_id == sub.stream_id),
        decreases sel.len() - i,
    {
        assert(selv[i as int] == *sel@[i as int]);
        let binding = match streams.binding(sel[i].channel_id) {
            Some(b) => b,
            None => {
                return Err(invalid_error("channel has no R2 stream binding"));
            },
        };
        if binding.stream_id != stream.stream_id {
            return Err(invalid_error("channel belongs to another stream"));
        }
        i = i + 1;
    }
    let mut width: usize = 0;
    let mut k: usize = 0;
    proof {
        lemma_selected_len(ch, sub.channel_mask);
    }
    while k < sel.len()
        invariant
            sel@.map_values(|d: &ChannelDescriptor| *d) == selv,
            sel@.len() <= 64,
            k <= sel@.len(),
            width == row_width(selv.subrange(0, k as int)),
            width <= 4 * k,
        decreases sel.len() - k,
    {
        proof {
            assert(selv.subrange(0, k + 1).drop_last() =~= selv.subrange(0, k as int));
            assert(selv[k as int] == *sel@[k as int]);
        }
        width = width + sel[k].wire_format.byte_width();
        k = k + 1;
    }
    assert(selv.subrange(0, selv.len() as int) =~= selv);
    let batch = sub.batch_samples as usize;
    assert(batch * width <= 4096 * 256) by (nonlinear_arith)
        requires
            batch <= 4096,
            width <= 256,
    ;
    let payload_len = R2_SAMPLE_FIXED_PAYLOAD_BYTES + sel.len() * 2 + width * batch
        + R2_AFFINE_METADATA_BYTES;
    assert(width * batch == batch * width) by (nonlinear_arith);
    if payload_len > max_payload as usize {
        return Err(invalid_error("stream R2 payload exceeds the negotiated maximum"));
    }
    Ok(())
}

/// Validates an atomic subscription set against the negotiated tables and
/// device limits: either every subscription is acceptable or the whole set
/// is refused.
#[verifier::loop_isolation(false)]
pub fn validate_configure_streams_r2_for_device(
    configure: &ConfigureStreamsR2,
    streams: &StreamTableR2,
    channels: &ChannelTable,
    max_batch_samples: u16,
    max_payload: u32,
) -> (r: Result<(), ProtocolError>)
    ensures
        r is Ok <==> configure_streams_for_device_ok(
            configure@,
            streams@,
            channels.channels@,
            max_batch_samples,
            max_payload,
        ),
        r matches Err(e) ==> e is InvalidPayload,
{
    validate_configure_streams_shape(configure)?;
    streams.validate_against_channels(channels)?;
    if max_batch_samples == 0 || max_batch_samples as usize > MAX_BATCH_SAMPLES {
        return Err(invalid_error("device maximum batch samples is outside the protocol range"));
    }
    if max_payload == 0 || max_payload as usize > MAX_PAYLOAD_LEN {
        return Err(invalid_error("device maximum payload is outside the protocol range"));
    }
    let subs = &configure.subscriptions;
    let mut i: usize = 0;
    while i < subs.len()
        invariant
            i <= subs@.len(),
            subs@ == configure@.subscriptions,
            forall|a: int|
                0 <= a < i ==> subscription_for_device_ok(
                    #[trigger] subs@[a],
                    streams@,
                    channels.channels@,
                    max_batch_samples,
                    max_payload,
                ),
        decreases subs.len() - i,
    {
        assert(subscription_shape_ok(subs@[i as int]));
        validate_subscription_for_device(subs[i], streams, channels, max_batch_samples, max_payload)?;
        i = i + 1;
    }
    Ok(())
}

} // verus!
