//! SCP1 framing: the fixed 28-byte header, CRC32C trailer, and the channel
//! table that every sample codec decodes against.

use vstd::prelude::*;

use crate::wire::{
    from_le16, from_le32, from_le64, get_u16, get_u32, get_u64, le16, le32, le64,
    lemma_le16_canonical, lemma_le16_roundtrip, lemma_le32_canonical, lemma_le32_roundtrip,
    lemma_le64_canonical, lemma_le64_roundtrip, put_bytes, put_u16, put_u32, put_u64,
};

verus! {

pub const FRAME_MAGIC: [u8; 4] = [0x53u8, 0x43u8, 0x50u8, 0x31u8];

pub const PROTOCOL_VERSION: u8 = 1;

pub const PROTOCOL_VERSION_V1: u8 = 1;

pub const PROTOCOL_VERSION_V2: u8 = 2;

pub const FRAME_HEADER_LEN: usize = 28;

pub const FRAME_CRC_LEN: usize = 4;

pub const MAX_PAYLOAD_LEN: usize = 1048576;

/// Channel ids select bits of a `u64` channel mask.
pub const MAX_CHANNEL_COUNT: usize = 64;

pub const MAX_BATCH_SAMPLES: usize = 4096;

/// The four magic bytes `SCP1`.
pub open spec fn magic() -> Seq<u8> {
    seq![0x53u8, 0x43u8, 0x50u8, 0x31u8]
}

#[allow(inconsistent_fields)]
#[derive(Clone, Debug, PartialEq, Eq)]
pub enum ProtocolError {
    InvalidMagic,
    UnsupportedVersion(u8),
    PayloadTooLarge(usize),
    LengthOverflow,
    Truncated { minimum: usize, actual: usize },
    LengthMismatch { expected: usize, actual: usize },
    CrcMismatch { expected: u32, actual: u32 },
    InvalidPayload(String),
    UnknownMessageType(u8),
    UnexpectedMessageType { expected: u8, actual: u8 },
}

/// The words `message` gives for each refusal.
pub open spec fn protocol_error_text(e: ProtocolError) -> Seq<char> {
    match e {
        ProtocolError::InvalidMagic => "invalid SCP1 frame magic"@,
        ProtocolError::UnsupportedVersion(_) => "unsupported SCP1 protocol version"@,
        ProtocolError::PayloadTooLarge(_) => "payload length exceeds the 1 MiB limit"@,
        ProtocolError::LengthOverflow => "frame length overflow"@,
        ProtocolError::Truncated { .. } => "truncated frame"@,
        ProtocolError::LengthMismatch { .. } => "frame length mismatch"@,
        ProtocolError::CrcMismatch { .. } => "CRC32C mismatch"@,
        ProtocolError::InvalidPayload(message) => message@,
        ProtocolError::UnknownMessageType(_) => "unknown message type"@,
        ProtocolError::UnexpectedMessageType { .. } => "unexpected message type"@,
    }
}

impl ProtocolError {
    /// Human-readable description of the error.
    pub fn message(&self) -> (r: String)
        ensures
            r@ == protocol_error_text(*self),
    {
        match self {
            ProtocolError::InvalidMagic => "invalid SCP1 frame magic".to_string(),
            ProtocolError::UnsupportedVersion(_) => "unsupported SCP1 protocol version".to_string(),
            ProtocolError::PayloadTooLarge(_) => "payload length exceeds the 1 MiB limit".to_string(),
            ProtocolError::LengthOverflow => "frame length overflow".to_string(),
            ProtocolError::Truncated { .. } => "truncated frame".to_string(),
            ProtocolError::LengthMismatch { .. } => "frame length mismatch".to_string(),
            ProtocolError::CrcMismatch { .. } => "CRC32C mismatch".to_string(),
            ProtocolError::InvalidPayload(message) => message.clone(),
            ProtocolError::UnknownMessageType(_) => "unknown message type".to_string(),
            ProtocolError::UnexpectedMessageType { .. } => "unexpected message type".to_string(),
        }
    }
}

/// Builds an `InvalidPayload` error.
pub fn invalid_error(message: &str) -> (e: ProtocolError)
    ensures
        e matches ProtocolError::InvalidPayload(m) && m@ == message@,
{
    ProtocolError::InvalidPayload(message.to_string())
}

// ---------------------------------------------------------------------------
// CRC32C (Castagnoli, reflected polynomial 0x82F63B78)
// ---------------------------------------------------------------------------

/// One bit step of the reflected CRC32C register.
pub open spec fn crc_shift(c: u32) -> u32 {
    if c & 1 != 0 {
        (c >> 1u32) ^ 0x82F6_3B78u32
    } else {
        c >> 1u32
    }
}

pub open spec fn crc_shift_n(c: u32, n: nat) -> u32
    decreases n,
{
    if n == 0 {
        c
    } else {
        crc_shift(crc_shift_n(c, (n - 1) as nat))
    }
}

/// The register after absorbing one byte.
pub open spec fn crc_byte(c: u32, b: u8) -> u32 {
    crc_shift_n(c ^ (b as u32), 8)
}

/// The register after absorbing all of `s`, starting from all ones.
pub open spec fn crc_register(s: Seq<u8>) -> u32
    decreases s.len(),
{
    if s.len() == 0 {
        0xffff_ffffu32
    } else {
        crc_byte(crc_register(s.drop_last()), s.last())
    }
}

/// CRC32C of `s` (final complement applied).
pub open spec fn spec_crc32c(s: Seq<u8>) -> u32 {
    !crc_register(s)
}

fn crc_absorb_byte(c: u32, b: u8) -> (r: u32)
    ensures
        r == crc_byte(c, b),
{
    let mut crc = c ^ (b as u32);
    let mut k: u32 = 0;
    while k < 8
        invariant
            k <= 8,
            crc == crc_shift_n(c ^ (b as u32), k as nat),
        decreases 8 - k,
    {
        crc = if crc & 1 != 0 {
            (crc >> 1) ^ 0x82F6_3B78
        } else {
            crc >> 1
        };
        k = k + 1;
        assert(crc_shift_n(c ^ (b as u32), k as nat) == crc_shift(
            crc_shift_n(c ^ (b as u32), (k - 1) as nat),
        ));
    }
    crc
}

fn crc_absorb(start: u32, bytes: &[u8], Ghost(prefix): Ghost<Seq<u8>>) -> (r: u32)
    requires
        start == crc_register(prefix),
    ensures
        r == crc_register(prefix + bytes@),
{
    let mut crc = start;
    let mut i: usize = 0;
    while i < bytes.len()
        invariant
            i <= bytes@.len(),
            crc == crc_register(prefix + bytes@.subrange(0, i as int)),
        decreases bytes.len() - i,
    {
        let ghost before = prefix + bytes@.subrange(0, i as int);
        crc = crc_absorb_byte(crc, bytes[i]);
        i = i + 1;
        assert((prefix + bytes@.subrange(0, i as int)).drop_last() =~= before);
    }
    assert(bytes@.subrange(0, bytes@.len() as int) =~= bytes@);
    crc
}

/// CRC32C (Castagnoli) of `bytes`.
pub fn crc32c(bytes: &[u8]) -> (r: u32)
    ensures
        r == spec_crc32c(bytes@),
{
    let crc = crc_absorb(0xffff_ffff, bytes, Ghost(Seq::empty()));
    assert(Seq::<u8>::empty() + bytes@ =~= bytes@);
    !crc
}

/// Incremental CRC32C over a sequence of byte slices.
#[derive(Clone)]
pub struct Crc32c {
    register: u32,
    absorbed: Ghost<Seq<u8>>,
}

impl View for Crc32c {
    type V = Seq<u8>;

    closed spec fn view(&self) -> Seq<u8> {
        self.absorbed@
    }
}

impl Crc32c {
    pub closed spec fn wf(&self) -> bool {
        self.register == crc_register(self.absorbed@)
    }

    pub fn new() -> (c: Self)
        ensures
            c.wf(),
            c@ == Seq::<u8>::empty(),
    {
        Crc32c { register: 0xffff_ffff, absorbed: Ghost(Seq::empty()) }
    }

    pub fn update(&mut self, bytes: &[u8])
        requires
            old(self).wf(),
        ensures
            final(self).wf(),
            final(self)@ == old(self)@ + bytes@,
    {
        self.register = crc_absorb(self.register, bytes, Ghost(self.absorbed@));
        self.absorbed = Ghost(self.absorbed@ + bytes@);
    }

    pub fn finalize(&self) -> (r: u32)
        requires
            self.wf(),
        ensures
            r == spec_crc32c(self@),
    {
        !self.register
    }
}

// ---------------------------------------------------------------------------
// Frames
// ---------------------------------------------------------------------------

#[derive(Clone, Debug, PartialEq, Eq)]
pub struct Frame {
    pub version: u8,
    pub message_type: u8,
    pub flags: u16,
    pub sequence: u32,
    pub session_id: u32,
    pub timestamp_ticks: u64,
    pub payload: Vec<u8>,
}

/// Mathematical view of a frame.
pub struct FrameView {
    pub version: u8,
    pub message_type: u8,
    pub flags: u16,
    pub sequence: u32,
    pub session_id: u32,
    pub timestamp_ticks: u64,
    pub payload: Seq<u8>,
}

impl View for Frame {
    type V = FrameView;

    open spec fn view(&self) -> FrameView {
        FrameView {
            version: self.version,
            message_type: self.message_type,
            flags: self.flags,
            sequence: self.sequence,
            session_id: self.session_id,
            timestamp_ticks: self.timestamp_ticks,
            payload: self.payload@,
        }
    }
}

/// The frame versions this implementation speaks.
pub open spec fn supported_version(v: u8) -> bool {
    v == PROTOCOL_VERSION_V1 || v == PROTOCOL_VERSION_V2
}

/// Bytes 4.. of the frame up to the CRC: everything the CRC covers.
pub open spec fn frame_body(f: FrameView) -> Seq<u8> {
    seq![f.version, f.message_type] + le16(f.flags) + le32(f.sequence) + le32(
        f.payload.len() as u32,
    ) + le32(f.session_id) + le64(f.timestamp_ticks) + f.payload
}

/// The complete wire encoding of a frame.
pub open spec fn frame_bytes(f: FrameView) -> Seq<u8> {
    magic() + frame_body(f) + le32(spec_crc32c(frame_body(f)))
}

/// A frame that `Frame::encode` accepts.
pub open spec fn frame_encodable(f: FrameView) -> bool {
    f.payload.len() <= MAX_PAYLOAD_LEN
}

/// What `Frame::decode` makes of `b`.
pub open spec fn spec_decode_frame(b: Seq<u8>) -> Result<FrameView, ProtocolError> {
    if b.len() < FRAME_HEADER_LEN + FRAME_CRC_LEN {
        Err(
            ProtocolError::Truncated {
                minimum: (FRAME_HEADER_LEN + FRAME_CRC_LEN) as usize,
                actual: b.len() as usize,
            },
        )
    } else if b.subrange(0, 4) != magic() {
        Err(ProtocolError::InvalidMagic)
    } else if !supported_version(b[4]) {
        Err(ProtocolError::UnsupportedVersion(b[4]))
    } else {
        let payload_len = from_le32(b.subrange(12, 16)) as int;
        if payload_len > MAX_PAYLOAD_LEN {
            Err(ProtocolError::PayloadTooLarge(payload_len as usize))
        } else if b.len() != FRAME_HEADER_LEN + payload_len + FRAME_CRC_LEN {
            Err(
                ProtocolError::LengthMismatch {
                    expected: (FRAME_HEADER_LEN + payload_len + FRAME_CRC_LEN) as usize,
                    actual: b.len() as usize,
                },
            )
        } else {
            let end = FRAME_HEADER_LEN + payload_len;
            let stored = from_le32(b.subrange(end, end + 4));
            let computed = spec_crc32c(b.subrange(4, end));
            if stored != computed {
                Err(ProtocolError::CrcMismatch { expected: stored, actual: computed })
            } else {
                Ok(
                    FrameView {
                        version: b[4],
                        message_type: b[5],
                        flags: from_le16(b.subrange(6, 8)),
                        sequence: from_le32(b.subrange(8, 12)),
                        session_id: from_le32(b.subrange(16, 20)),
                        timestamp_ticks: from_le64(b.subrange(20, 28)),
                        payload: b.subrange(FRAME_HEADER_LEN as int, end),
                    },
                )
            }
        }
    }
}

/// Law: decoding the encoding of any encodable frame of a supported version
/// gives the frame back.
pub proof fn lemma_frame_roundtrip(f: FrameView)
    requires
        frame_encodable(f),
        supported_version(f.version),
    ensures
        spec_decode_frame(frame_bytes(f)) == Ok::<FrameView, ProtocolError>(f),
{
    let b = frame_bytes(f);
    let body = frame_body(f);
    let n = f.payload.len() as int;
    lemma_le16_roundtrip(f.flags);
    lemma_le32_roundtrip(f.sequence);
    lemma_le32_roundtrip(n as u32);
    lemma_le32_roundtrip(f.session_id);
    lemma_le64_roundtrip(f.timestamp_ticks);
    lemma_le32_roundtrip(spec_crc32c(body));
    assert(b.len() == 32 + n);
    assert(b.subrange(0, 4) =~= magic());
    assert(b.subrange(6, 8) =~= le16(f.flags));
    assert(b.subrange(8, 12) =~= le32(f.sequence));
    assert(b.subrange(12, 16) =~= le32(n as u32));
    assert(b.subrange(16, 20) =~= le32(f.session_id));
    assert(b.subrange(20, 28) =~= le64(f.timestamp_ticks));
    assert(b.subrange(28, 28 + n) =~= f.payload);
    assert(b.subrange(4, 28 + n) =~= body);
    assert(b.subrange(28 + n, 32 + n) =~= le32(spec_crc32c(body)));
}

/// Law: a successful decode accepts exactly the canonical encoding of what it
/// returns.
pub proof fn lemma_frame_decode_canonical(b: Seq<u8>)
    requires
        spec_decode_frame(b) is Ok,
    ensures
        frame_bytes(spec_decode_frame(b)->Ok_0) == b,
        frame_encodable(spec_decode_frame(b)->Ok_0),
        supported_version(spec_decode_frame(b)->Ok_0.version),
{
    let f = spec_decode_frame(b)->Ok_0;
    let n = f.payload.len() as int;
    let plen = from_le32(b.subrange(12, 16));
    assert(plen as int == n);
    lemma_le16_canonical(b.subrange(6, 8));
    lemma_le32_canonical(b.subrange(8, 12));
    lemma_le32_canonical(b.subrange(12, 16));
    lemma_le32_canonical(b.subrange(16, 20));
    lemma_le64_canonical(b.subrange(20, 28));
    lemma_le32_canonical(b.subrange(28 + n, 32 + n));
    let body = frame_body(f);
    assert(body =~= b.subrange(4, 28 + n));
    assert(b =~= b.subrange(0, 4) + b.subrange(4, 28 + n) + b.subrange(28 + n, 32 + n));
}

/// Copies `bytes[start..end]` into a new vector.
pub fn copy_range(bytes: &[u8], start: usize, end: usize) -> (out: Vec<u8>)
    requires
        start <= end <= bytes@.len(),
    ensures
        out@ == bytes@.subrange(start as int, end as int),
{
    let mut out: Vec<u8> = Vec::new();
    let mut i = start;
    while i < end
        invariant
            start <= i <= end,
            end <= bytes@.len(),
            out@ == bytes@.subrange(start as int, i as int),
        decreases end - i,
    {
        out.push(bytes[i]);
        i = i + 1;
        assert(out@ =~= bytes@.subrange(start as int, i as int));
    }
    out
}

impl Frame {
    /// A version-1 frame.
    pub fn new(
        message_type: u8,
        flags: u16,
        sequence: u32,
        session_id: u32,
        timestamp_ticks: u64,
        payload: Vec<u8>,
    ) -> (f: Frame)
        ensures
            f.version == PROTOCOL_VERSION_V1,
            f.message_type == message_type,
            f.flags == flags,
            f.sequence == sequence,
            f.session_id == session_id,
            f.timestamp_ticks == timestamp_ticks,
            f.payload@ == payload@,
    {
        Frame {
            version: PROTOCOL_VERSION_V1,
            message_type,
            flags,
            sequence,
            session_id,
            timestamp_ticks,
            payload,
        }
    }

    /// A version-2 frame.
    pub fn new_v2(
        message_type: u8,
        flags: u16,
        sequence: u32,
        session_id: u32,
        timestamp_ticks: u64,
        payload: Vec<u8>,
    ) -> (f: Frame)
        ensures
            f.version == PROTOCOL_VERSION_V2,
            f.message_type == message_type,
            f.flags == flags,
            f.sequence == sequence,
            f.session_id == session_id,
            f.timestamp_ticks == timestamp_ticks,
            f.payload@ == payload@,
    {
        Frame {
            version: PROTOCOL_VERSION_V2,
            message_type,
            flags,
            sequence,
            session_id,
            timestamp_ticks,
            payload,
        }
    }

    /// Encodes the frame; payloads over 1 MiB are refused.
    pub fn encode(&self) -> (r: Result<Vec<u8>, ProtocolError>)
        ensures
            match r {
                Ok(bytes) => frame_encodable(self@) && bytes@ == frame_bytes(self@),
                Err(e) => !frame_encodable(self@) && e == ProtocolError::PayloadTooLarge(
                    self.payload@.len() as usize,
                ),
            },
    {
        if self.payload.len() > MAX_PAYLOAD_LEN {
            return Err(ProtocolError::PayloadTooLarge(self.payload.len()));
        }
        let mut body: Vec<u8> = Vec::new();
        body.push(self.version);
        body.push(self.message_type);
        put_u16(&mut body, self.flags);
        put_u32(&mut body, self.sequence);
        put_u32(&mut body, self.payload.len() as u32);
        put_u32(&mut body, self.session_id);
        put_u64(&mut body, self.timestamp_ticks);
        put_bytes(&mut body, self.payload.as_slice());
        assert(body@ =~= frame_body(self@));
        let checksum = crc32c(body.as_slice());
        let mut bytes: Vec<u8> = Vec::new();
        bytes.push(FRAME_MAGIC[0]);
        bytes.push(FRAME_MAGIC[1]);
        bytes.push(FRAME_MAGIC[2]);
        bytes.push(FRAME_MAGIC[3]);
        put_bytes(&mut bytes, body.as_slice());
        put_u32(&mut bytes, checksum);
        assert(bytes@ =~= frame_bytes(self@));
        Ok(bytes)
    }

    /// Decodes one complete frame, checking magic, version, length, and CRC in
    /// that order.
    pub fn decode(bytes: &[u8]) -> (r: Result<Frame, ProtocolError>)
        ensures
            match r {
                Ok(f) => spec_decode_frame(bytes@) == Ok::<FrameView, ProtocolError>(f@),
                Err(e) => spec_decode_frame(bytes@) == Err::<FrameView, ProtocolError>(e),
            },
    {
        if bytes.len() < FRAME_HEADER_LEN + FRAME_CRC_LEN {
            return Err(
                ProtocolError::Truncated {
                    minimum: FRAME_HEADER_LEN + FRAME_CRC_LEN,
                    actual: bytes.len(),
                },
            );
        }
        if !(bytes[0] == FRAME_MAGIC[0] && bytes[1] == FRAME_MAGIC[1] && bytes[2] == FRAME_MAGIC[2]
            && bytes[3] == FRAME_MAGIC[3]) {
            proof {
                if bytes@.subrange(0, 4) == magic() {
                    assert(bytes@[0] == bytes@.subrange(0, 4)[0]);
                    assert(bytes@[1] == bytes@.subrange(0, 4)[1]);
                    assert(bytes@[2] == bytes@.subrange(0, 4)[2]);
                    assert(bytes@[3] == bytes@.subrange(0, 4)[3]);
                }
            }
            return Err(ProtocolError::InvalidMagic);
        }
        assert(bytes@.subrange(0, 4) =~= magic());
        if bytes[4] != PROTOCOL_VERSION_V1 && bytes[4] != PROTOCOL_VERSION_V2 {
            return Err(ProtocolError::UnsupportedVersion(bytes[4]));
        }
        let payload_len = get_u32(bytes, 12) as usize;
        if payload_len > MAX_PAYLOAD_LEN {
            return Err(ProtocolError::PayloadTooLarge(payload_len));
        }
        let expected_len = FRAME_HEADER_LEN + payload_len + FRAME_CRC_LEN;
        if bytes.len() != expected_len {
            return Err(ProtocolError::LengthMismatch { expected: expected_len, actual: bytes.len() });
        }
        let payload_end = FRAME_HEADER_LEN + payload_len;
        let expected_crc = get_u32(bytes, payload_end);
        let actual_crc = crc32c(&bytes[4..payload_end]);
        if expected_crc != actual_crc {
            return Err(ProtocolError::CrcMismatch { expected: expected_crc, actual: actual_crc });
        }
        let payload = copy_range(bytes, FRAME_HEADER_LEN, payload_end);
        Ok(
            Frame {
                version: bytes[4],
                message_type: bytes[5],
                flags: get_u16(bytes, 6),
                sequence: get_u32(bytes, 8),
                session_id: get_u32(bytes, 16),
                timestamp_ticks: get_u64(bytes, 20),
                payload,
            },
        )
    }
}


// ---------------------------------------------------------------------------
// Streaming decoder
// ---------------------------------------------------------------------------

#[derive(Clone, Copy, Debug, Default, PartialEq, Eq, Structural)]
pub struct DecoderStats {
    pub decoded_frames: u64,
    pub crc_errors: u64,
    pub malformed_headers: u64,
    pub discarded_bytes: u64,
}

/// `a + b`, clamped at `u64::MAX`.
pub open spec fn sat_add(a: u64, b: int) -> u64 {
    if a + b > u64::MAX {
        u64::MAX
    } else {
        (a + b) as u64
    }
}

/// First offset at or after `i` where the magic begins.
pub open spec fn find_magic_from(s: Seq<u8>, i: int) -> Option<int>
    decreases s.len() - i,
{
    if i < 0 || i + 4 > s.len() {
        None
    } else if s.subrange(i, i + 4) == magic() {
        Some(i)
    } else {
        find_magic_from(s, i + 1)
    }
}

pub proof fn lemma_find_magic_from(s: Seq<u8>, i: int)
    ensures
        match find_magic_from(s, i) {
            Some(j) => i <= j && j + 4 <= s.len() && s.subrange(j, j + 4) == magic(),
            None => true,
        },
    decreases s.len() - i,
{
    if i < 0 || i + 4 > s.len() {
    } else if s.subrange(i, i + 4) == magic() {
    } else {
        lemma_find_magic_from(s, i + 1);
    }
}

/// Length of the longest proper magic prefix that ends `s` (0 if none).
pub open spec fn magic_prefix_tail(s: Seq<u8>) -> int {
    if s.len() >= 3 && s.subrange(s.len() - 3, s.len() as int) == magic().subrange(0, 3) {
        3
    } else if s.len() >= 2 && s.subrange(s.len() - 2, s.len() as int) == magic().subrange(0, 2) {
        2
    } else if s.len() >= 1 && s.last() == magic()[0] {
        1
    } else {
        0
    }
}

/// Decoder state: unconsumed bytes, decoded frames, and counters.
pub struct DecoderState {
    pub buffer: Seq<u8>,
    pub frames: Seq<FrameView>,
    pub stats: DecoderStats,
}

pub open spec fn stats_discard(st: DecoderStats, n: int) -> DecoderStats {
    DecoderStats { discarded_bytes: sat_add(st.discarded_bytes, n), ..st }
}

pub open spec fn stats_malformed(st: DecoderStats) -> DecoderStats {
    stats_discard(DecoderStats { malformed_headers: sat_add(st.malformed_headers, 1), ..st }, 1)
}

pub open spec fn stats_crc(st: DecoderStats) -> DecoderStats {
    stats_discard(DecoderStats { crc_errors: sat_add(st.crc_errors, 1), ..st }, 1)
}

/// The resynchronizing scan: skip to the next magic, drop one byte at every
/// malformed or corrupt candidate, emit every frame that decodes, and stop when
/// the buffer holds no complete candidate.  Without any magic, only a trailing
/// partial magic is kept.
pub open spec fn scan(st: DecoderState) -> DecoderState
    decreases st.buffer.len(),
{
    let buf = st.buffer;
    match find_magic_from(buf, 0) {
        None => {
            let keep = magic_prefix_tail(buf);
            DecoderState {
                buffer: buf.subrange(buf.len() - keep, buf.len() as int),
                frames: st.frames,
                stats: if buf.len() - keep > 0 {
                    stats_discard(st.stats, buf.len() - keep)
                } else {
                    st.stats
                },
            }
        },
        Some(off) => {
            proof {
                lemma_find_magic_from(buf, 0);
            }
            let b = buf.subrange(off, buf.len() as int);
            let stats = if off > 0 {
                stats_discard(st.stats, off)
            } else {
                st.stats
            };
            if b.len() < FRAME_HEADER_LEN {
                DecoderState { buffer: b, frames: st.frames, stats }
            } else if !supported_version(b[4]) {
                scan(
                    DecoderState {
                        buffer: b.subrange(1, b.len() as int),
                        frames: st.frames,
                        stats: stats_malformed(stats),
                    },
                )
            } else if from_le32(b.subrange(12, 16)) > MAX_PAYLOAD_LEN {
                scan(
                    DecoderState {
                        buffer: b.subrange(1, b.len() as int),
                        frames: st.frames,
                        stats: stats_malformed(stats),
                    },
                )
            } else {
                let frame_len = FRAME_HEADER_LEN + from_le32(b.subrange(12, 16)) + FRAME_CRC_LEN;
                if b.len() < frame_len {
                    DecoderState { buffer: b, frames: st.frames, stats }
                } else {
                    match spec_decode_frame(b.subrange(0, frame_len)) {
                        Ok(f) => scan(
                            DecoderState {
                                buffer: b.subrange(frame_len, b.len() as int),
                                frames: st.frames.push(f),
                                stats: DecoderStats {
                                    decoded_frames: sat_add(stats.decoded_frames, 1),
                                    ..stats
                                },
                            },
                        ),
                        Err(ProtocolError::CrcMismatch { .. }) => scan(
                            DecoderState {
                                buffer: b.subrange(1, b.len() as int),
                                frames: st.frames,
                                stats: stats_crc(stats),
                            },
                        ),
                        Err(_) => scan(
                            DecoderState {
                                buffer: b.subrange(1, b.len() as int),
                                frames: st.frames,
                                stats: stats_malformed(stats),
                            },
                        ),
                    }
                }
            }
        },
    }
}

/// Splits an arbitrarily fragmented byte stream into frames.
#[derive(Default)]
pub struct FrameDecoder {
    buffer: Vec<u8>,
    ready: Vec<Frame>,
    stats: DecoderStats,
}

pub open spec fn frame_views(frames: Seq<Frame>) -> Seq<FrameView> {
    frames.map_values(|f: Frame| f@)
}

fn sat_add_u64(a: u64, b: u64) -> (r: u64)
    ensures
        r == sat_add(a, b as int),
{
    if a > u64::MAX - b {
        u64::MAX
    } else {
        a + b
    }
}

fn find_magic(bytes: &[u8]) -> (r: Option<usize>)
    ensures
        match find_magic_from(bytes@, 0) {
            Some(i) => r == Some(i as usize),
            None => r is None,
        },
        r matches Some(i) ==> find_magic_from(bytes@, 0) == Some(i as int),
{
    proof {
        lemma_find_magic_from(bytes@, 0);
    }
    let mut i: usize = 0;
    while i < bytes.len() && bytes.len() - i >= 4
        invariant
            i <= bytes@.len(),
            find_magic_from(bytes@, 0) == find_magic_from(bytes@, i as int),
        decreases bytes.len() - i,
    {
        if bytes[i] == FRAME_MAGIC[0] && bytes[i + 1] == FRAME_MAGIC[1] && bytes[i + 2]
            == FRAME_MAGIC[2] && bytes[i + 3] == FRAME_MAGIC[3] {
            assert(bytes@.subrange(i as int, i + 4) =~= magic());
            return Some(i);
        }
        proof {
            if bytes@.subrange(i as int, i + 4) == magic() {
                assert(bytes@[i as int] == bytes@.subrange(i as int, i + 4)[0]);
                assert(bytes@[i + 1] == bytes@.subrange(i as int, i + 4)[1]);
                assert(bytes@[i + 2] == bytes@.subrange(i as int, i + 4)[2]);
                assert(bytes@[i + 3] == bytes@.subrange(i as int, i + 4)[3]);
            }
        }
        i = i + 1;
    }
    None
}

fn magic_tail_len(bytes: &[u8]) -> (r: usize)
    ensures
        r as int == magic_prefix_tail(bytes@),
{
    let n = bytes.len();
    if n >= 3 && bytes[n - 3] == FRAME_MAGIC[0] && bytes[n - 2] == FRAME_MAGIC[1] && bytes[n - 1]
        == FRAME_MAGIC[2] {
        assert(bytes@.subrange(n - 3, n as int) =~= magic().subrange(0, 3));
        return 3;
    }
    proof {
        if n >= 3 && bytes@.subrange(n - 3, n as int) == magic().subrange(0, 3) {
            assert(bytes@[n - 3] == bytes@.subrange(n - 3, n as int)[0]);
            assert(bytes@[n - 2] == bytes@.subrange(n - 3, n as int)[1]);
            assert(bytes@[n - 1] == bytes@.subrange(n - 3, n as int)[2]);
        }
    }
    if n >= 2 && bytes[n - 2] == FRAME_MAGIC[0] && bytes[n - 1] == FRAME_MAGIC[1] {
        assert(bytes@.subrange(n - 2, n as int) =~= magic().subrange(0, 2));
        return 2;
    }
    proof {
        if n >= 2 && bytes@.subrange(n - 2, n as int) == magic().subrange(0, 2) {
            assert(bytes@[n - 2] == bytes@.subrange(n - 2, n as int)[0]);
            assert(bytes@[n - 1] == bytes@.subrange(n - 2, n as int)[1]);
        }
    }
    if n >= 1 && bytes[n - 1] == FRAME_MAGIC[0] {
        return 1;
    }
    0
}

impl FrameDecoder {
    pub closed spec fn state(&self) -> DecoderState {
        DecoderState {
            buffer: self.buffer@,
            frames: frame_views(self.ready@),
            stats: self.stats,
        }
    }

    pub fn new() -> (d: Self)
        ensures
            d.state().buffer == Seq::<u8>::empty(),
            d.state().frames == Seq::<FrameView>::empty(),
            d.state().stats == (DecoderStats {
                decoded_frames: 0,
                crc_errors: 0,
                malformed_headers: 0,
                discarded_bytes: 0,
            }),
    {
        let d = FrameDecoder {
            buffer: Vec::new(),
            ready: Vec::new(),
            stats: DecoderStats {
                decoded_frames: 0,
                crc_errors: 0,
                malformed_headers: 0,
                discarded_bytes: 0,
            },
        };
        assert(frame_views(d.ready@) =~= Seq::<FrameView>::empty());
        d
    }

    /// Appends received bytes and extracts every frame they complete; how
    /// the stream is split into pushes does not matter (`lemma_push_split`).
    pub fn push(&mut self, bytes: &[u8])
        ensures
            final(self).state() == scan(append_bytes(old(self).state(), bytes@)),
    {
        put_bytes(&mut self.buffer, bytes);
        self.parse_available();
    }

    /// Hands out the decoded frames in arrival order.
    pub fn drain_frames(&mut self) -> (frames: Vec<Frame>)
        ensures
            frame_views(frames@) == old(self).state().frames,
            final(self).state() == (DecoderState {
                frames: Seq::<FrameView>::empty(),
                ..old(self).state()
            }),
    {
        let mut frames: Vec<Frame> = Vec::new();
        std::mem::swap(&mut frames, &mut self.ready);
        assert(frame_views(self.ready@) =~= Seq::<FrameView>::empty());
        frames
    }

    pub fn stats(&self) -> (s: DecoderStats)
        ensures
            s == self.state().stats,
    {
        self.stats
    }

    fn discard_front(&mut self, count: usize)
        requires
            count <= old(self).buffer@.len(),
        ensures
            final(self).buffer@ == old(self).buffer@.subrange(
                count as int,
                old(self).buffer@.len() as int,
            ),
            final(self).ready@ == old(self).ready@,
            final(self).stats == if count > 0 {
                stats_discard(old(self).stats, count as int)
            } else {
                old(self).stats
            },
    {
        if count == 0 {
            assert(self.buffer@.subrange(0, self.buffer@.len() as int) =~= self.buffer@);
            return ;
        }
        let tail = self.buffer.split_off(count);
        self.buffer = tail;
        self.stats.discarded_bytes = sat_add_u64(self.stats.discarded_bytes, count as u64);
    }

    fn retain_possible_magic_prefix(&mut self)
        ensures
            final(self).buffer@ == old(self).buffer@.subrange(
                old(self).buffer@.len() - magic_prefix_tail(old(self).buffer@),
                old(self).buffer@.len() as int,
            ),
            final(self).ready@ == old(self).ready@,
            final(self).stats == if old(self).buffer@.len() - magic_prefix_tail(
                old(self).buffer@,
            ) > 0 {
                stats_discard(
                    old(self).stats,
                    old(self).buffer@.len() - magic_prefix_tail(old(self).buffer@),
                )
            } else {
                old(self).stats
            },
    {
        let keep = magic_tail_len(self.buffer.as_slice());
        let discard = self.buffer.len() - keep;
        self.discard_front(discard);
    }

    fn parse_available(&mut self)
        ensures
            final(self).state() == scan(old(self).state()),
    {
        loop
            invariant_except_break
                scan(self.state()) == scan(old(self).state()),
            ensures
                self.state() == scan(old(self).state()),
            decreases self.buffer@.len(),
        {
            let ghost before = self.state();
            proof {
                lemma_find_magic_from(self.buffer@, 0);
            }
            let found = find_magic(self.buffer.as_slice());
            let magic_offset = match found {
                None => {
                    self.retain_possible_magic_prefix();
                    assert(self.state() == scan(before));
                    break ;
                },
                Some(offset) => offset,
            };
            self.discard_front(magic_offset);
            let ghost b = self.buffer@;
            let ghost stats0 = self.stats;
            assert(find_magic_from(before.buffer, 0) == Some(magic_offset as int));
            assert(b == before.buffer.subrange(magic_offset as int, before.buffer.len() as int));
            assert(stats0 == if magic_offset > 0 {
                stats_discard(before.stats, magic_offset as int)
            } else {
                before.stats
            });
            if self.buffer.len() < FRAME_HEADER_LEN {
                assert(self.state() =~= scan(before));
                break ;
            }
            if self.buffer[4] != PROTOCOL_VERSION_V1 && self.buffer[4] != PROTOCOL_VERSION_V2 {
                self.stats.malformed_headers = sat_add_u64(self.stats.malformed_headers, 1);
                self.discard_front(1);
                assert(self.state() =~= (DecoderState {
                    buffer: b.subrange(1, b.len() as int),
                    frames: before.frames,
                    stats: stats_malformed(stats0),
                }));
                continue ;
            }
            let payload_len = get_u32(self.buffer.as_slice(), 12) as usize;
            if payload_len > MAX_PAYLOAD_LEN {
                self.stats.malformed_headers = sat_add_u64(self.stats.malformed_headers, 1);
                self.discard_front(1);
                assert(self.state() =~= (DecoderState {
                    buffer: b.subrange(1, b.len() as int),
                    frames: before.frames,
                    stats: stats_malformed(stats0),
                }));
                continue ;
            }
            let frame_len = FRAME_HEADER_LEN + payload_len + FRAME_CRC_LEN;
            assert(from_le32(b.subrange(12, 16)) == payload_len);
            if self.buffer.len() < frame_len {
                assert(self.state() =~= scan(before));
                break ;
            }
            let decoded = Frame::decode(&self.buffer.as_slice()[0..frame_len]);
            match decoded {
                Ok(frame) => {
                    let ghost fv = frame@;
                    self.ready.push(frame);
                    self.stats.decoded_frames = sat_add_u64(self.stats.decoded_frames, 1);
                    let tail = self.buffer.split_off(frame_len);
                    self.buffer = tail;
                    assert(frame_views(self.ready@) =~= before.frames.push(fv));
                },
                Err(ProtocolError::CrcMismatch { .. }) => {
                    self.stats.crc_errors = sat_add_u64(self.stats.crc_errors, 1);
                    self.discard_front(1);
                    assert(self.state() =~= (DecoderState {
                        buffer: b.subrange(1, b.len() as int),
                        frames: before.frames,
                        stats: stats_crc(stats0),
                    }));
                },
                Err(_) => {
                    self.stats.malformed_headers = sat_add_u64(self.stats.malformed_headers, 1);
                    self.discard_front(1);
                    assert(self.state() =~= (DecoderState {
                        buffer: b.subrange(1, b.len() as int),
                        frames: before.frames,
                        stats: stats_malformed(stats0),
                    }));
                },
            }
        }
    }
}


// ---------------------------------------------------------------------------
// Channel table
// ---------------------------------------------------------------------------

#[derive(Clone, Copy, Debug, PartialEq, Eq, Structural)]
pub enum ChannelKind {
    Analog,
    Digital,
}

#[derive(Clone, Copy, Debug, PartialEq, Eq, Structural)]
pub enum WireFormat {
    I16,
    I32,
    F32,
    U8,
}

pub open spec fn spec_byte_width(f: WireFormat) -> usize {
    match f {
        WireFormat::I16 => 2,
        WireFormat::I32 => 4,
        WireFormat::F32 => 4,
        WireFormat::U8 => 1,
    }
}

impl WireFormat {
    /// Bytes one sample of this format occupies on the wire.
    pub fn byte_width(self) -> (r: usize)
        ensures
            r == spec_byte_width(self),
    {
        match self {
            WireFormat::I16 => 2,
            WireFormat::I32 => 4,
            WireFormat::F32 => 4,
            WireFormat::U8 => 1,
        }
    }
}

/// One device channel.  `scale_bits` and `offset_bits` hold the IEEE-754
/// single-precision bit patterns of the engineering-unit conversion.
#[derive(Clone, Debug, PartialEq, Eq)]
pub struct ChannelDescriptor {
    pub channel_id: u16,
    pub kind: ChannelKind,
    pub wire_format: WireFormat,
    pub scale_bits: u32,
    pub offset_bits: u32,
    pub unit: String,
    pub name: String,
}

#[derive(Clone, Debug, PartialEq, Eq)]
pub struct ChannelTable {
    pub revision: u32,
    pub channels: Vec<ChannelDescriptor>,
}

/// First channel with id `id`.
pub open spec fn lookup_channel(s: Seq<ChannelDescriptor>, id: u16) -> Option<ChannelDescriptor>
    decreases s.len(),
{
    if s.len() == 0 {
        None
    } else if s[0].channel_id == id {
        Some(s[0])
    } else {
        lookup_channel(s.drop_first(), id)
    }
}

/// A channel table the stream codecs can rely on: 1..=64 channels with
/// distinct ids below 64 (each id is a bit of a `u64` channel mask).
pub open spec fn channel_table_valid(t: Seq<ChannelDescriptor>) -> bool {
    &&& 1 <= t.len() <= MAX_CHANNEL_COUNT
    &&& forall|i: int| 0 <= i < t.len() ==> (t[i].channel_id as int) < MAX_CHANNEL_COUNT
    &&& forall|i: int, j: int| 0 <= i < j < t.len() ==> t[i].channel_id != t[j].channel_id
}

pub proof fn lemma_lookup_channel(s: Seq<ChannelDescriptor>, id: u16)
    ensures
        lookup_channel(s, id) is Some <==> exists|i: int| 0 <= i < s.len() && s[i].channel_id == id,
        lookup_channel(s, id) matches Some(c) ==> c.channel_id == id && s.contains(c),
    decreases s.len(),
{
    if s.len() > 0 {
        lemma_lookup_channel(s.drop_first(), id);
        if s[0].channel_id != id {
            if exists|i: int| 0 <= i < s.len() && s[i].channel_id == id {
                let i = choose|i: int| 0 <= i < s.len() && s[i].channel_id == id;
                assert(s.drop_first()[i - 1].channel_id == id);
            }
            if lookup_channel(s, id) is Some {
                let c = lookup_channel(s, id)->Some_0;
                let k = choose|k: int| 0 <= k < s.drop_first().len() && s.drop_first()[k] == c;
                assert(s[k + 1] == c);
            }
        } else {
            assert(s[0] == s[0]);
            assert(s.contains(s[0]));
        }
    }
}

impl ChannelTable {
    /// The first channel with id `channel_id`.
    pub fn channel(&self, channel_id: u16) -> (r: Option<&ChannelDescriptor>)
        ensures
            match lookup_channel(self.channels@, channel_id) {
                Some(c) => r matches Some(x) && *x == c,
                None => r is None,
            },
    {
        let mut i: usize = 0;
        assert(self.channels@.subrange(0, self.channels@.len() as int) =~= self.channels@);
        while i < self.channels.len()
            invariant
                i <= self.channels@.len(),
                lookup_channel(self.channels@, channel_id) == lookup_channel(
                    self.channels@.subrange(i as int, self.channels@.len() as int),
                    channel_id,
                ),
            decreases self.channels.len() - i,
        {
            let ghost rest = self.channels@.subrange(i as int, self.channels@.len() as int);
            if self.channels[i].channel_id == channel_id {
                return Some(&self.channels[i]);
            }
            assert(rest.drop_first() =~= self.channels@.subrange(
                i + 1,
                self.channels@.len() as int,
            ));
            i = i + 1;
        }
        None
    }

    /// Accepts exactly the tables of `channel_table_valid`.
    pub fn validate(&self) -> (r: Result<(), ProtocolError>)
        ensures
            r is Ok <==> channel_table_valid(self.channels@),
            r matches Err(e) ==> e is InvalidPayload,
    {
        let n = self.channels.len();
        if n == 0 || n > MAX_CHANNEL_COUNT {
            return Err(invalid_error("channel count is outside 1..=64"));
        }
        let mut i: usize = 0;
        while i < n
            invariant
                n == self.channels@.len(),
                i <= n,
                forall|a: int| 0 <= a < i ==> (self.channels@[a].channel_id as int) < MAX_CHANNEL_COUNT,
                forall|a: int, b: int|
                    0 <= a < b < i ==> self.channels@[a].channel_id != self.channels@[b].channel_id,
            decreases n - i,
        {
            let id = self.channels[i].channel_id;
            if id as usize >= MAX_CHANNEL_COUNT {
                return Err(invalid_error("channel id is out of range"));
            }
            let mut j: usize = 0;
            while j < i
                invariant
                    n == self.channels@.len(),
                    j <= i < n,
                    id == self.channels@[i as int].channel_id,
                    forall|a: int| 0 <= a < j ==> self.channels@[a].channel_id != id,
                decreases i - j,
            {
                if self.channels[j].channel_id == id {
                    return Err(invalid_error("duplicate channel id"));
                }
                j = j + 1;
            }
            i = i + 1;
        }
        Ok(())
    }
}

/// First-revision acquisition settings: a common sample rate, the rows per
/// batch, and the mask of channels to send.
#[derive(Clone, Copy, Debug, PartialEq, Eq, Structural)]
pub struct Configure {
    pub sample_rate_hz: u32,
    pub batch_samples: u16,
    pub channel_mask: u64,
}

// ---------------------------------------------------------------------------
// The scan does not depend on how the byte stream was split
// ---------------------------------------------------------------------------

/// A whole magic starts at `k`.
pub open spec fn magic_at(s: Seq<u8>, k: int) -> bool {
    0 <= k && k + 4 <= s.len() && s.subrange(k, k + 4) == magic()
}

/// The state with more bytes received behind its buffer.
pub open spec fn append_bytes(st: DecoderState, t: Seq<u8>) -> DecoderState {
    DecoderState { buffer: st.buffer + t, ..st }
}

/// The counters after skipping `n` bytes in front of a magic.
pub open spec fn discard_if(st: DecoderStats, n: int) -> DecoderStats {
    if n > 0 {
        stats_discard(st, n)
    } else {
        st
    }
}

proof fn lemma_find_magic_char(s: Seq<u8>, i: int)
    requires
        0 <= i,
    ensures
        match find_magic_from(s, i) {
            Some(j) => i <= j && magic_at(s, j) && forall|k: int| i <= k < j ==> !#[trigger] magic_at(s, k),
            None => forall|k: int| i <= k ==> !#[trigger] magic_at(s, k),
        },
    decreases s.len() - i,
{
    if i + 4 > s.len() {
    } else if s.subrange(i, i + 4) == magic() {
    } else {
        lemma_find_magic_char(s, i + 1);
    }
}

/// `find_magic_from(s, 0)` is the first magic, or none.
proof fn lemma_first_magic(s: Seq<u8>, r: Option<int>)
    requires
        match r {
            Some(j) => magic_at(s, j) && forall|k: int| 0 <= k < j ==> !#[trigger] magic_at(s, k),
            None => forall|k: int| 0 <= k ==> !#[trigger] magic_at(s, k),
        },
    ensures
        find_magic_from(s, 0) == r,
{
    lemma_find_magic_char(s, 0);
    match find_magic_from(s, 0) {
        Some(j0) => match r {
            Some(j) => {
                if j0 < j {
                    assert(!magic_at(s, j0));
                } else if j < j0 {
                    assert(!magic_at(s, j));
                }
            },
            None => {
                assert(!magic_at(s, j0));
            },
        },
        None => match r {
            Some(j) => {
                assert(!magic_at(s, j));
            },
            None => {},
        },
    }
}

proof fn lemma_sat_add_assoc(x: u64, n: int, m: int)
    requires
        n >= 0,
        m >= 0,
    ensures
        sat_add(sat_add(x, n), m) == sat_add(x, n + m),
{
}

proof fn lemma_discard_twice(st: DecoderStats, n: int, m: int)
    requires
        n >= 0,
        m >= 0,
    ensures
        discard_if(discard_if(st, n), m) == discard_if(st, n + m),
{
    lemma_sat_add_assoc(st.discarded_bytes, n, m);
}

/// The kept tail is the longest proper magic prefix that ends `s`.
proof fn lemma_tail_max(s: Seq<u8>, m: int)
    requires
        1 <= m <= 3,
        m <= s.len(),
        s.subrange(s.len() - m, s.len() as int) == magic().subrange(0, m),
    ensures
        magic_prefix_tail(s) >= m,
{
    if m == 1 {
        assert(s.last() == s.subrange(s.len() - 1, s.len() as int)[0]);
    }
}

proof fn lemma_tail_shape(s: Seq<u8>)
    ensures
        0 <= magic_prefix_tail(s) <= 3,
        magic_prefix_tail(s) <= s.len(),
        magic_prefix_tail(s) > 0 ==> s.subrange(s.len() - magic_prefix_tail(s), s.len() as int)
            == magic().subrange(0, magic_prefix_tail(s)),
{
    if magic_prefix_tail(s) == 1 {
        assert(s.subrange(s.len() - 1, s.len() as int) =~= magic().subrange(0, 1));
    }
}

/// A scan that meets a magic at `off` goes on as a scan of the bytes from
/// there, with the skipped bytes counted.
proof fn lemma_scan_rebase(st: DecoderState, off: int)
    requires
        find_magic_from(st.buffer, 0) == Some(off),
    ensures
        scan(st) == scan(
            DecoderState {
                buffer: st.buffer.subrange(off, st.buffer.len() as int),
                frames: st.frames,
                stats: discard_if(st.stats, off),
            },
        ),
{
    lemma_find_magic_char(st.buffer, 0);
    let b = st.buffer.subrange(off, st.buffer.len() as int);
    assert(b.subrange(0, 4) =~= st.buffer.subrange(off, off + 4));
    lemma_first_magic(b, Some(0));
    assert(b.subrange(0, b.len() as int) =~= b);
}

/// Scanning, then receiving `t` and scanning again, ends where receiving
/// `t` first and scanning once ends.
proof fn lemma_scan_append(st: DecoderState, t: Seq<u8>)
    ensures
        scan(append_bytes(scan(st), t)) == scan(append_bytes(st, t)),
    decreases st.buffer.len(), 2int,
{
    match find_magic_from(st.buffer, 0) {
        Some(off) => lemma_scan_append_at_magic(st, t, off),
        None => lemma_scan_append_no_magic(st, t),
    }
}

#[verifier::rlimit(60)]
#[verifier::spinoff_prover]
proof fn lemma_scan_append_at_magic(st: DecoderState, t: Seq<u8>, off: int)
    requires
        find_magic_from(st.buffer, 0) == Some(off),
    ensures
        scan(append_bytes(scan(st), t)) == scan(append_bytes(st, t)),
    decreases st.buffer.len(), 1int,
{
    let buf = st.buffer;
    let bt = buf + t;
    lemma_find_magic_char(buf, 0);
    lemma_find_magic_char(bt, 0);
    assert forall|k: int| k + 4 <= buf.len() implies #[trigger] magic_at(bt, k) == magic_at(buf, k) by {
        if 0 <= k {
            assert(bt.subrange(k, k + 4) =~= buf.subrange(k, k + 4));
        }
    }
    lemma_first_magic(bt, Some(off));
    lemma_scan_rebase(append_bytes(st, t), off);
    let bb = buf.subrange(off, buf.len() as int);
    let stats1 = discard_if(st.stats, off);
    assert(bt.subrange(off, bt.len() as int) =~= bb + t);
    let c = bb + t;
    let sc = DecoderState { buffer: c, frames: st.frames, stats: stats1 };
    // The right side is now a scan of `c` from a magic at 0.
    assert(c.subrange(0, 4) =~= bb.subrange(0, 4));
    assert(bb.subrange(0, 4) =~= buf.subrange(off, off + 4));
    lemma_first_magic(c, Some(0));
    assert(c.subrange(0, c.len() as int) =~= c);
    if bb.len() < FRAME_HEADER_LEN {
        assert(scan(st) == DecoderState { buffer: bb, frames: st.frames, stats: stats1 });
    } else {
        assert(c[4] == bb[4]);
        assert(c.subrange(12, 16) =~= bb.subrange(12, 16));
        assert(c.subrange(1, c.len() as int) =~= bb.subrange(1, bb.len() as int) + t);
        if !supported_version(bb[4]) || from_le32(bb.subrange(12, 16)) > MAX_PAYLOAD_LEN {
            let st1 = DecoderState {
                buffer: bb.subrange(1, bb.len() as int),
                frames: st.frames,
                stats: stats_malformed(stats1),
            };
            lemma_scan_append(st1, t);
        } else {
            let frame_len = FRAME_HEADER_LEN + from_le32(bb.subrange(12, 16)) + FRAME_CRC_LEN;
            if bb.len() < frame_len {
                assert(scan(st) == DecoderState { buffer: bb, frames: st.frames, stats: stats1 });
            } else {
                assert(c.subrange(0, frame_len) =~= bb.subrange(0, frame_len));
                assert(c.subrange(frame_len, c.len() as int) =~= bb.subrange(
                    frame_len,
                    bb.len() as int,
                ) + t);
                match spec_decode_frame(bb.subrange(0, frame_len)) {
                    Ok(f) => {
                        let st1 = DecoderState {
                            buffer: bb.subrange(frame_len, bb.len() as int),
                            frames: st.frames.push(f),
                            stats: DecoderStats {
                                decoded_frames: sat_add(stats1.decoded_frames, 1),
                                ..stats1
                            },
                        };
                        lemma_scan_append(st1, t);
                    },
                    Err(ProtocolError::CrcMismatch { .. }) => {
                        let st1 = DecoderState {
                            buffer: bb.subrange(1, bb.len() as int),
                            frames: st.frames,
                            stats: stats_crc(stats1),
                        };
                        lemma_scan_append(st1, t);
                    },
                    Err(_) => {
                        let st1 = DecoderState {
                            buffer: bb.subrange(1, bb.len() as int),
                            frames: st.frames,
                            stats: stats_malformed(stats1),
                        };
                        lemma_scan_append(st1, t);
                    },
                }
            }
        }
    }
}

#[verifier::rlimit(60)]
#[verifier::spinoff_prover]
proof fn lemma_scan_append_no_magic(st: DecoderState, t: Seq<u8>)
    requires
        find_magic_from(st.buffer, 0) is None,
    ensures
        scan(append_bytes(scan(st), t)) == scan(append_bytes(st, t)),
{
    let buf = st.buffer;
    let bt = buf + t;
    lemma_find_magic_char(buf, 0);
    lemma_find_magic_char(bt, 0);
    assert forall|k: int| k + 4 <= buf.len() implies #[trigger] magic_at(bt, k) == magic_at(buf, k) by {
        if 0 <= k {
            assert(bt.subrange(k, k + 4) =~= buf.subrange(k, k + 4));
        }
    }
    let keep = magic_prefix_tail(buf);
    lemma_tail_shape(buf);
    let n = buf.len() - keep;
    let tail = buf.subrange(n, buf.len() as int);
    let s1 = discard_if(st.stats, n);
    assert(scan(st) == DecoderState { buffer: tail, frames: st.frames, stats: s1 });
    let c = tail + t;
    assert(bt =~= buf.subrange(0, n) + c);
    // No magic of the joined bytes starts before the kept tail.
    assert forall|k: int| 0 <= k < n implies !#[trigger] magic_at(bt, k) by {
        if magic_at(bt, k) {
            if k + 4 <= buf.len() {
                assert(magic_at(buf, k));
            } else {
                let m = buf.len() - k;
                assert(buf.subrange(buf.len() - m, buf.len() as int) =~= magic().subrange(0, m))
                    by {
                    assert forall|x: int| 0 <= x < m implies buf[k + x] == magic()[x] by {
                        assert(bt.subrange(k, k + 4)[x] == bt[k + x]);
                    }
                }
                lemma_tail_max(buf, m);
            }
        }
    }
    assert forall|k: int| 0 <= k implies #[trigger] magic_at(c, k) == magic_at(bt, k + n) by {
        if 0 <= k && k + 4 <= c.len() {
            assert(c.subrange(k, k + 4) =~= bt.subrange(k + n, k + n + 4));
        }
    }
    match find_magic_from(bt, 0) {
        Some(j) => {
            assert(j >= n);
            assert forall|k: int| 0 <= k < j - n implies !#[trigger] magic_at(c, k) by {
                assert(magic_at(c, k) == magic_at(bt, k + n));
            }
            assert(magic_at(c, j - n) == magic_at(bt, j));
            lemma_first_magic(c, Some(j - n));
            lemma_scan_rebase(append_bytes(st, t), j);
            lemma_scan_rebase(append_bytes(scan(st), t), j - n);
            assert(c.subrange(j - n, c.len() as int) =~= bt.subrange(j, bt.len() as int));
            lemma_discard_twice(st.stats, n, j - n);
        },
        None => {
            assert forall|k: int| 0 <= k implies !#[trigger] magic_at(c, k) by {
                assert(magic_at(c, k) == magic_at(bt, k + n));
            }
            lemma_first_magic(c, None);
            let k2 = magic_prefix_tail(bt);
            let k3 = magic_prefix_tail(c);
            lemma_tail_shape(bt);
            lemma_tail_shape(c);
            if k3 > 0 {
                assert(bt.subrange(bt.len() - k3, bt.len() as int) =~= c.subrange(
                    c.len() - k3,
                    c.len() as int,
                ));
                lemma_tail_max(bt, k3);
            }
            if k2 > 0 {
                if k2 <= c.len() {
                    assert(bt.subrange(bt.len() - k2, bt.len() as int) =~= c.subrange(
                        c.len() - k2,
                        c.len() as int,
                    ));
                    lemma_tail_max(c, k2);
                } else {
                    let m = k2 - t.len();
                    assert(buf.subrange(buf.len() - m, buf.len() as int) =~= magic().subrange(0, m))
                        by {
                        assert forall|x: int| 0 <= x < m implies buf[buf.len() - m + x]
                            == magic()[x] by {
                            assert(bt.subrange(bt.len() - k2, bt.len() as int)[x] == bt[bt.len()
                                - k2 + x]);
                        }
                    }
                    lemma_tail_max(buf, m);
                }
            }
            assert(k2 == k3);
            assert(c.subrange(c.len() - k3, c.len() as int) =~= bt.subrange(
                bt.len() - k2,
                bt.len() as int,
            ));
            lemma_discard_twice(st.stats, n, c.len() - k3);
        },
    }
}

/// Frames do not depend on how the byte stream is split: receiving `a`
/// and then `b` leaves the decoder exactly where receiving `a` followed by
/// `b` in one piece leaves it, with the same frames in the same order, the
/// same bytes held back and the same counters.
pub proof fn lemma_push_split(st: DecoderState, a: Seq<u8>, b: Seq<u8>)
    ensures
        scan(append_bytes(scan(append_bytes(st, a)), b)) == scan(append_bytes(st, a + b)),
{
    lemma_scan_append(append_bytes(st, a), b);
    assert(append_bytes(append_bytes(st, a), b).buffer =~= append_bytes(st, a + b).buffer);
}

} // verus!
