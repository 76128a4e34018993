//! Type-length-value framing: a 16-bit type, a 32-bit length and the value bytes,
//! both numbers big-endian.
use vstd::prelude::*;
use crate::SimpleError;

verus! {

/// The two big-endian bytes of `x`.
pub open spec fn be_bytes_u16(x: u16) -> Seq<u8> {
    seq![(x / 0x100) as u8, (x % 0x100) as u8]
}

/// The four big-endian bytes of `x`.
pub open spec fn be_bytes_u32(x: u32) -> Seq<u8> {
    seq![
        (x / 0x100_0000) as u8,
        (x / 0x1_0000 % 0x100) as u8,
        (x / 0x100 % 0x100) as u8,
        (x % 0x100) as u8,
    ]
}

/// The number that two big-endian bytes spell.
pub open spec fn be_u16(b0: u8, b1: u8) -> u16 {
    (b0 as int * 0x100 + b1 as int) as u16
}

/// The number that four big-endian bytes spell.
pub open spec fn be_u32(b0: u8, b1: u8, b2: u8, b3: u8) -> u32 {
    (b0 as int * 0x100_0000 + b1 as int * 0x1_0000 + b2 as int * 0x100 + b3 as int) as u32
}

/// One record: a type, the length that the header announces, and the value.
pub struct Tlv {
    pub tlv_type: u16,
    pub length: u32,
    pub value: Vec<u8>,
}

impl Tlv {
    /// The bytes of the record: type, length, then value.
    pub open spec fn frame(&self) -> Seq<u8> {
        be_bytes_u16(self.tlv_type) + be_bytes_u32(self.length) + self.value@
    }

    /// A record of type `ty` with an empty value.
    pub fn new_empty(ty: u16) -> (r: Self)
        ensures
            r.tlv_type == ty,
            r.length == 0,
            r.value@.len() == 0,
    {
        Tlv { tlv_type: ty, length: 0, value: Vec::new() }
    }

    /// A record of type `ty` holding `value`, whose length must fit the header.
    pub fn new(ty: u16, value: Vec<u8>) -> (r: Self)
        requires
            value@.len() < 0xFFFF_FFFF,
        ensures
            r.tlv_type == ty,
            r.length == value@.len(),
            r.value@ == value@,
    {
        let length = value.len() as u32;
        Tlv { tlv_type: ty, length, value }
    }

    /// The record as bytes.
    pub fn compose(&self) -> (r: Vec<u8>)
        requires
            self.value@.len() + 6 <= usize::MAX,
        ensures
            r@ == self.frame(),
    {
        let mut v: Vec<u8> = Vec::new();
        self.write(&mut v);
        proof {
            assert(v@ =~= self.frame());
        }
        v
    }

    /// Appends the record's bytes to `w`; returns how many were appended.
    pub fn write(&self, w: &mut Vec<u8>) -> (r: usize)
        requires
            old(w)@.len() + self.value@.len() + 6 <= usize::MAX,
        ensures
            final(w)@ == old(w)@ + self.frame(),
            r == 6 + self.value@.len(),
    {
        let t = self.tlv_type;
        let l = self.length;
        w.push((t / 0x100) as u8);
        w.push((t % 0x100) as u8);
        w.push((l / 0x100_0000) as u8);
        w.push((l / 0x1_0000 % 0x100) as u8);
        w.push((l / 0x100 % 0x100) as u8);
        w.push((l % 0x100) as u8);
        let ghost head = w@;
        let n = self.value.len();
        for i in 0..n
            invariant
                n == self.value@.len(),
                w@ == head + self.value@.take(i as int),
        {
            w.push(self.value[i]);
            proof {
                assert(self.value@.take(i + 1) =~= self.value@.take(i as int).push(self.value@[i as int]));
            }
        }
        proof {
            assert(self.value@.take(n as int) =~= self.value@);
            assert(w@ =~= old(w)@ + self.frame());
        }
        6 + n
    }

    /// Reads one record from the front of `r`; bytes after it are left alone. Fails
    /// when `r` ends before the header or before the announced value does.
    pub fn read(r: &[u8]) -> (res: Result<Self, SimpleError>)
        ensures
            res is Ok <==> r@.len() >= 6 && r@.len() - 6 >= be_u32(r@[2], r@[3], r@[4], r@[5]),
            res matches Ok(t) ==> {
                &&& t.tlv_type == be_u16(r@[0], r@[1])
                &&& t.length == be_u32(r@[2], r@[3], r@[4], r@[5])
                &&& t.value@ == r@.subrange(6, 6 + t.length as int)
            },
    {
        if r.len() < 6 {
            return Err(SimpleError::new(String::from_str("failed to fill whole buffer")));
        }
        let ty = (r[0] as u16) * 0x100 + r[1] as u16;
        let len = (r[2] as u32) * 0x100_0000 + (r[3] as u32) * 0x1_0000 + (r[4] as u32) * 0x100
            + r[5] as u32;
        if r.len() - 6 < len as usize {
            return Err(SimpleError::new(String::from_str("failed to fill whole buffer")));
        }
        let end = 6 + len as usize;
        let mut value: Vec<u8> = Vec::new();
        for i in 6..end
            invariant
                end <= r@.len(),
                value@ == r@.subrange(6, i as int),
        {
            value.push(r[i]);
            proof {
                assert(r@.subrange(6, i + 1) =~= r@.subrange(6, i as int).push(r@[i as int]));
            }
        }
        Ok(Tlv { tlv_type: ty, length: len, value })
    }
}

/// Reading the bytes of a record whose header announces its value's true length
/// gives back the same record.
pub proof fn lemma_frame_read_back(t: Tlv)
    requires
        t.length == t.value@.len(),
    ensures
        ({
            let f = t.frame();
            &&& f.len() >= 6
            &&& f.len() - 6 >= be_u32(f[2], f[3], f[4], f[5])
            &&& be_u16(f[0], f[1]) == t.tlv_type
            &&& be_u32(f[2], f[3], f[4], f[5]) == t.length
            &&& f.subrange(6, 6 + t.length as int) == t.value@
        }),
{
    let f = t.frame();
    assert(f.subrange(6, 6 + t.length as int) =~= t.value@);
}

} // verus!
