//! A read cursor over an owned byte buffer, with big-endian readers.

use vstd::prelude::*;

verus! {

/// The unsigned value of the two bytes at `i`, most significant first.
pub open spec fn be_u16(s: Seq<u8>, i: int) -> nat {
    (s[i] as nat) * 256 + (s[i + 1] as nat)
}

/// The unsigned value of the four bytes at `i`, most significant first.
pub open spec fn be_u32(s: Seq<u8>, i: int) -> nat {
    be_u16(s, i) * 65536 + be_u16(s, i + 2)
}

/// The unsigned value of the eight bytes at `i`, most significant first.
pub open spec fn be_u64(s: Seq<u8>, i: int) -> nat {
    be_u32(s, i) * 4294967296 + be_u32(s, i + 4)
}

/// Two's complement reading of a 16-bit pattern.
pub open spec fn signed16(v: nat) -> int {
    if v >= 32768 {
        v - 65536
    } else {
        v as int
    }
}

/// Two's complement reading of a 64-bit pattern.
pub open spec fn signed64(v: nat) -> int {
    if v >= 0x8000_0000_0000_0000 {
        v - 0x1_0000_0000_0000_0000
    } else {
        v as int
    }
}

/// A buffer and a read position inside it (or at its end).
pub struct Cursor {
    data: Vec<u8>,
    pos: usize,
}

impl Cursor {
    #[verifier::type_invariant]
    spec fn inv(&self) -> bool {
        self.pos <= self.data.len()
    }

    /// The whole buffer.
    pub closed spec fn bytes(&self) -> Seq<u8> {
        self.data@
    }

    /// The read position.
    pub closed spec fn pos(&self) -> int {
        self.pos as int
    }

    /// How many bytes are left to read.
    pub open spec fn rest(&self) -> int {
        self.bytes().len() - self.pos()
    }

    /// The position lies inside the buffer or at its end.
    pub open spec fn wf(&self) -> bool {
        0 <= self.pos() <= self.bytes().len()
    }

    /// The bytes that are left to read.
    pub open spec fn unread(&self) -> Seq<u8> {
        self.bytes().subrange(self.pos(), self.bytes().len() as int)
    }

    /// `next` reads the same buffer as `self`, `n` bytes further on.
    pub open spec fn moved(&self, next: &Cursor, n: int) -> bool {
        next.bytes() == self.bytes() && next.pos() == self.pos() + n
    }

    pub fn new(data: Vec<u8>) -> (r: Cursor)
        ensures
            r.bytes() == data@,
            r.pos() == 0,
            r.pos() <= r.bytes().len(),
    {
        Cursor { data, pos: 0 }
    }

    pub fn position(&self) -> (r: usize)
        ensures
            r == self.pos(),
            r <= self.bytes().len(),
    {
        proof {
            use_type_invariant(self);
        }
        self.pos
    }

    pub fn remaining(&self) -> (r: usize)
        ensures
            r == self.rest(),
    {
        proof {
            use_type_invariant(self);
        }
        self.data.len() - self.pos
    }

    pub fn len(&self) -> (r: usize)
        ensures
            r == self.bytes().len(),
    {
        self.data.len()
    }

    /// Moves the position `n` bytes on, stopping at the end of the buffer.
    pub fn skip(&mut self, n: usize)
        ensures
            final(self).pos() <= final(self).bytes().len(),
            final(self).bytes() == old(self).bytes(),
            final(self).pos() == if n <= old(self).rest() {
                old(self).pos() + n
            } else {
                old(self).bytes().len() as int
            },
    {
        proof {
            use_type_invariant(&*self);
        }
        if n <= self.data.len() - self.pos {
            self.pos = self.pos + n;
        } else {
            self.pos = self.data.len();
        }
    }

    pub fn read_u8(&mut self) -> (r: Option<u8>)
        ensures
            final(self).pos() <= final(self).bytes().len(),
            old(self).rest() >= 1 ==> r == Some(old(self).bytes()[old(self).pos()]) && old(
                self,
            ).moved(final(self), 1),
            old(self).rest() < 1 ==> r is None && old(self).moved(final(self), 0),
    {
        proof {
            use_type_invariant(&*self);
        }
        if self.pos < self.data.len() {
            let b = self.data[self.pos];
            self.pos = self.pos + 1;
            Some(b)
        } else {
            None
        }
    }

    pub fn read_u16(&mut self) -> (r: Option<u16>)
        ensures
            final(self).pos() <= final(self).bytes().len(),
            old(self).rest() >= 2 ==> r == Some(be_u16(old(self).bytes(), old(self).pos()) as u16)
                && old(self).moved(final(self), 2),
            old(self).rest() < 2 ==> r is None && old(self).moved(final(self), 0),
    {
        proof {
            use_type_invariant(&*self);
        }
        if self.data.len() - self.pos >= 2 {
            let hi = self.data[self.pos] as u16;
            let lo = self.data[self.pos + 1] as u16;
            self.pos = self.pos + 2;
            Some(hi * 256 + lo)
        } else {
            None
        }
    }

    pub fn read_u32(&mut self) -> (r: Option<u32>)
        ensures
            final(self).pos() <= final(self).bytes().len(),
            old(self).rest() >= 4 ==> r == Some(be_u32(old(self).bytes(), old(self).pos()) as u32)
                && old(self).moved(final(self), 4),
            old(self).rest() < 4 ==> r is None && old(self).moved(final(self), 0),
    {
        proof {
            use_type_invariant(&*self);
        }
        if self.data.len() - self.pos >= 4 {
            let hi = self.read_u16().unwrap() as u32;
            let lo = self.read_u16().unwrap() as u32;
            Some(hi * 65536 + lo)
        } else {
            None
        }
    }

    pub fn read_u64(&mut self) -> (r: Option<u64>)
        ensures
            final(self).pos() <= final(self).bytes().len(),
            old(self).rest() >= 8 ==> r == Some(be_u64(old(self).bytes(), old(self).pos()) as u64)
                && old(self).moved(final(self), 8),
            old(self).rest() < 8 ==> r is None && old(self).moved(final(self), 0),
    {
        proof {
            use_type_invariant(&*self);
        }
        if self.data.len() - self.pos >= 8 {
            let hi = self.read_u32().unwrap() as u64;
            let lo = self.read_u32().unwrap() as u64;
            Some(hi * 4294967296 + lo)
        } else {
            None
        }
    }

    /// Reads `n` bytes as they stand.
    pub fn take(&mut self, n: usize) -> (r: Option<Vec<u8>>)
        ensures
            final(self).pos() <= final(self).bytes().len(),
            n <= old(self).rest() ==> r is Some && r->0@ == old(self).bytes().subrange(
                old(self).pos(),
                old(self).pos() + n,
            ) && old(self).moved(final(self), n as int),
            n > old(self).rest() ==> r is None && old(self).moved(final(self), 0),
    {
        proof {
            use_type_invariant(&*self);
        }
        if n > self.data.len() - self.pos {
            return None;
        }
        let mut out: Vec<u8> = Vec::new();
        let start = self.pos;
        let mut i: usize = 0;
        while i < n
            invariant
                start + n <= self.data.len(),
                0 <= i <= n,
                out@ == self.data@.subrange(start as int, start + i),
            decreases n - i,
        {
            out.push(self.data[start + i]);
            i = i + 1;
            assert(out@ =~= self.data@.subrange(start as int, start + i));
        }
        self.pos = start + n;
        Some(out)
    }
}

/// Reads a 16-bit pattern as a signed value.
pub fn to_i16(v: u16) -> (r: i16)
    ensures
        r == signed16(v as nat),
{
    if v >= 32768 {
        ((v as i32) - 65536) as i16
    } else {
        v as i16
    }
}

/// Reads a 64-bit pattern as a signed value.
pub fn to_i64(v: u64) -> (r: i64)
    ensures
        r == signed64(v as nat),
{
    if v >= 0x8000_0000_0000_0000 {
        ((v - 0x8000_0000_0000_0000) as i64) + i64::MIN
    } else {
        v as i64
    }
}

} // verus!
