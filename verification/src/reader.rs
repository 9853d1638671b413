//! Cursor over a payload, and the matching spec-level readers that the
//! message grammars are written in.

use vstd::prelude::*;

use crate::protocol::{invalid_error, ProtocolError};
use crate::wire::{from_le16, from_le32, from_le64, get_u16, get_u32, get_u64};

verus! {

/// `n` bytes at `pos`, and the position after them.
pub open spec fn rd_bytes(s: Seq<u8>, pos: int, n: int) -> Option<(Seq<u8>, int)> {
    if 0 <= pos && 0 <= n && pos + n <= s.len() {
        Some((s.subrange(pos, pos + n), pos + n))
    } else {
        None
    }
}

pub open spec fn rd_u8(s: Seq<u8>, pos: int) -> Option<(u8, int)> {
    if 0 <= pos && pos + 1 <= s.len() {
        Some((s[pos], pos + 1))
    } else {
        None
    }
}

pub open spec fn rd_u16(s: Seq<u8>, pos: int) -> Option<(u16, int)> {
    if 0 <= pos && pos + 2 <= s.len() {
        Some((from_le16(s.subrange(pos, pos + 2)), pos + 2))
    } else {
        None
    }
}

pub open spec fn rd_i16(s: Seq<u8>, pos: int) -> Option<(i16, int)> {
    if 0 <= pos && pos + 2 <= s.len() {
        Some((from_le16(s.subrange(pos, pos + 2)) as i16, pos + 2))
    } else {
        None
    }
}

pub open spec fn rd_u32(s: Seq<u8>, pos: int) -> Option<(u32, int)> {
    if 0 <= pos && pos + 4 <= s.len() {
        Some((from_le32(s.subrange(pos, pos + 4)), pos + 4))
    } else {
        None
    }
}

pub open spec fn rd_u64(s: Seq<u8>, pos: int) -> Option<(u64, int)> {
    if 0 <= pos && pos + 8 <= s.len() {
        Some((from_le64(s.subrange(pos, pos + 8)), pos + 8))
    } else {
        None
    }
}

pub open spec fn rd_i64(s: Seq<u8>, pos: int) -> Option<(i64, int)> {
    if 0 <= pos && pos + 8 <= s.len() {
        Some((from_le64(s.subrange(pos, pos + 8)) as i64, pos + 8))
    } else {
        None
    }
}

/// Sequential reader over a payload.
pub struct PayloadReader<'a> {
    bytes: &'a [u8],
    offset: usize,
}

impl<'a> PayloadReader<'a> {
    pub closed spec fn data(&self) -> Seq<u8> {
        self.bytes@
    }

    pub closed spec fn pos(&self) -> int {
        self.offset as int
    }

    pub closed spec fn wf(&self) -> bool {
        self.offset <= self.bytes@.len()
    }

    /// A well-formed reader's position lies within its data.
    pub proof fn lemma_pos_bound(&self)
        requires
            self.wf(),
        ensures
            0 <= self.pos() <= self.data().len(),
    {
    }

    pub fn new(bytes: &'a [u8]) -> (r: Self)
        ensures
            r.wf(),
            r.data() == bytes@,
            r.pos() == 0,
    {
        PayloadReader { bytes, offset: 0 }
    }

    pub fn position(&self) -> (r: usize)
        ensures
            r as int == self.pos(),
    {
        self.offset
    }

    pub fn remaining_len(&self) -> (r: usize)
        requires
            self.wf(),
        ensures
            r as int == self.data().len() - self.pos(),
    {
        self.bytes.len() - self.offset
    }

    pub fn bytes(&mut self, len: usize) -> (r: Result<&'a [u8], ProtocolError>)
        requires
            old(self).wf(),
        ensures
            final(self).wf(),
            final(self).data() == old(self).data(),
            match rd_bytes(old(self).data(), old(self).pos(), len as int) {
                Some((v, p)) => r matches Ok(x) && x@ == v && final(self).pos() == p,
                None => r is Err && final(self).pos() == old(self).pos(),
            },
    {
        if len > self.bytes.len() - self.offset {
            return Err(invalid_error("truncated payload"));
        }
        let end = self.offset + len;
        let value = &self.bytes[self.offset..end];
        self.offset = end;
        Ok(value)
    }

    pub fn u8(&mut self) -> (r: Result<u8, ProtocolError>)
        requires
            old(self).wf(),
        ensures
            final(self).wf(),
            final(self).data() == old(self).data(),
            match rd_u8(old(self).data(), old(self).pos()) {
                Some((v, p)) => r == Ok::<u8, ProtocolError>(v) && final(self).pos() == p,
                None => r is Err && final(self).pos() == old(self).pos(),
            },
    {
        if self.offset >= self.bytes.len() {
            return Err(invalid_error("truncated u8"));
        }
        let v = self.bytes[self.offset];
        self.offset = self.offset + 1;
        Ok(v)
    }

    pub fn u16(&mut self) -> (r: Result<u16, ProtocolError>)
        requires
            old(self).wf(),
        ensures
            final(self).wf(),
            final(self).data() == old(self).data(),
            match rd_u16(old(self).data(), old(self).pos()) {
                Some((v, p)) => r == Ok::<u16, ProtocolError>(v) && final(self).pos() == p,
                None => r is Err && final(self).pos() == old(self).pos(),
            },
    {
        if self.bytes.len() - self.offset < 2 {
            return Err(invalid_error("truncated u16"));
        }
        let v = get_u16(self.bytes, self.offset);
        self.offset = self.offset + 2;
        Ok(v)
    }

    pub fn i16(&mut self) -> (r: Result<i16, ProtocolError>)
        requires
            old(self).wf(),
        ensures
            final(self).wf(),
            final(self).data() == old(self).data(),
            match rd_i16(old(self).data(), old(self).pos()) {
                Some((v, p)) => r == Ok::<i16, ProtocolError>(v) && final(self).pos() == p,
                None => r is Err && final(self).pos() == old(self).pos(),
            },
    {
        if self.bytes.len() - self.offset < 2 {
            return Err(invalid_error("truncated i16"));
        }
        let v = get_u16(self.bytes, self.offset);
        self.offset = self.offset + 2;
        Ok(v as i16)
    }

    pub fn u32(&mut self) -> (r: Result<u32, ProtocolError>)
        requires
            old(self).wf(),
        ensures
            final(self).wf(),
            final(self).data() == old(self).data(),
            match rd_u32(old(self).data(), old(self).pos()) {
                Some((v, p)) => r == Ok::<u32, ProtocolError>(v) && final(self).pos() == p,
                None => r is Err && final(self).pos() == old(self).pos(),
            },
    {
        if self.bytes.len() - self.offset < 4 {
            return Err(invalid_error("truncated u32"));
        }
        let v = get_u32(self.bytes, self.offset);
        self.offset = self.offset + 4;
        Ok(v)
    }

    pub fn u64(&mut self) -> (r: Result<u64, ProtocolError>)
        requires
            old(self).wf(),
        ensures
            final(self).wf(),
            final(self).data() == old(self).data(),
            match rd_u64(old(self).data(), old(self).pos()) {
                Some((v, p)) => r == Ok::<u64, ProtocolError>(v) && final(self).pos() == p,
                None => r is Err && final(self).pos() == old(self).pos(),
            },
    {
        if self.bytes.len() - self.offset < 8 {
            return Err(invalid_error("truncated u64"));
        }
        let v = get_u64(self.bytes, self.offset);
        self.offset = self.offset + 8;
        Ok(v)
    }

    pub fn i64(&mut self) -> (r: Result<i64, ProtocolError>)
        requires
            old(self).wf(),
        ensures
            final(self).wf(),
            final(self).data() == old(self).data(),
            match rd_i64(old(self).data(), old(self).pos()) {
                Some((v, p)) => r == Ok::<i64, ProtocolError>(v) && final(self).pos() == p,
                None => r is Err && final(self).pos() == old(self).pos(),
            },
    {
        if self.bytes.len() - self.offset < 8 {
            return Err(invalid_error("truncated i64"));
        }
        let v = get_u64(self.bytes, self.offset);
        self.offset = self.offset + 8;
        Ok(v as i64)
    }

    /// Succeeds exactly when every byte has been consumed.
    pub fn finish(&self) -> (r: Result<(), ProtocolError>)
        requires
            self.wf(),
        ensures
            r is Ok <==> self.pos() == self.data().len(),
            r matches Err(e) ==> e is InvalidPayload,
    {
        if self.offset != self.bytes.len() {
            return Err(invalid_error("payload contains unexpected trailing bytes"));
        }
        Ok(())
    }
}

} // verus!
