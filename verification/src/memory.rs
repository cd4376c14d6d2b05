//! The guest memory capability: raw pointer+length pairs from the guest are
//! inherently unsafe, so the host sees guest memory only through this opaque
//! handle, whose read and write are distinct, separately bounds-checked
//! operations returning structured errors instead of unchecked access.

use vstd::prelude::*;
use crate::error::Error;

verus! {

/// Guest-owned memory as the host may touch it.
pub struct GuestMemory {
    bytes: Vec<u8>,
}

impl View for GuestMemory {
    type V = Seq<u8>;

    closed spec fn view(&self) -> Seq<u8> {
        self.bytes@
    }
}

/// Memory after `data` is laid down at `ptr`; everything else is unchanged.
pub open spec fn write_region(m: Seq<u8>, ptr: int, data: Seq<u8>) -> Seq<u8>
    recommends
        0 <= ptr,
        ptr + data.len() <= m.len(),
{
    m.subrange(0, ptr) + data + m.subrange(ptr + data.len(), m.len() as int)
}

/// Little-endian bytes of a 32-bit value.
pub open spec fn le32(v: u32) -> Seq<u8> {
    seq![
        (v % 0x100) as u8,
        ((v / 0x100) % 0x100) as u8,
        ((v / 0x10000) % 0x100) as u8,
        ((v / 0x1000000) % 0x100) as u8,
    ]
}

impl GuestMemory {
    /// Memory holding the given bytes.
    pub fn from_bytes(bytes: Vec<u8>) -> (r: Self)
        ensures
            r@ == bytes@,
    {
        GuestMemory { bytes }
    }

    pub fn len(&self) -> (r: usize)
        ensures
            r == self@.len(),
    {
        self.bytes.len()
    }

    /// The whole contents, for an owner inspecting its memory.
    pub fn into_bytes(self) -> (r: Vec<u8>)
        ensures
            r@ == self@,
    {
        self.bytes
    }

    /// Bounds-checked read of `len` bytes at `ptr`.
    pub fn read_bytes(&self, ptr: u32, len: u32) -> (r: Result<Vec<u8>, Error>)
        ensures
            ptr + len <= self@.len() ==> (r matches Ok(v) && v@ == self@.subrange(
                ptr as int,
                ptr + len,
            )),
            ptr + len > self@.len() ==> (r matches Err(e) && e is OutOfBounds),
    {
        let n = self.bytes.len();
        let l = len as usize;
        let p = ptr as usize;
        if l > n || p > n - l {
            return Err(Error::OutOfBounds);
        }
        let mut out: Vec<u8> = Vec::new();
        let mut k: usize = 0;
        while k < l
            invariant
                p + l <= self@.len(),
                self@.len() <= usize::MAX,
                k <= l,
                out@ =~= self@.subrange(p as int, p + k),
            decreases l - k,
        {
            out.push(self.bytes[p + k]);
            proof {
                assert(out@ =~= self@.subrange(p as int, p + k + 1));
            }
            k = k + 1;
        }
        Ok(out)
    }

    /// Bounds-checked write of `data` at `ptr`: all of it after the check
    /// passes, none of it otherwise.
    pub fn write_bytes(&mut self, ptr: u32, data: &[u8]) -> (r: Result<(), Error>)
        ensures
            ptr + data@.len() <= old(self)@.len() ==> (r matches Ok(u) && final(self)@
                == write_region(old(self)@, ptr as int, data@)),
            ptr + data@.len() > old(self)@.len() ==> (r matches Err(e) && e is OutOfBounds
                && final(self)@ == old(self)@),
    {
        let ghost m0 = self@;
        let n = self.bytes.len();
        let l = data.len();
        let p = ptr as usize;
        if l > n || p > n - l {
            return Err(Error::OutOfBounds);
        }
        let mut k: usize = 0;
        while k < l
            invariant
                p + l <= self.bytes@.len(),
                self.bytes@.len() <= usize::MAX,
                self.bytes@.len() == m0.len(),
                k <= l,
                l == data@.len(),
                forall|i: int| 0 <= i < k ==> self.bytes@[p + i] == data@[i],
                forall|i: int|
                    0 <= i < m0.len() && !(p <= i < p + k) ==> self.bytes@[i] == m0[i],
            decreases l - k,
        {
            self.bytes.set(p + k, data[k]);
            k = k + 1;
        }
        proof {
            assert(self@ =~= write_region(m0, ptr as int, data@));
        }
        Ok(())
    }

    /// Bounds-checked write of a little-endian 32-bit value at `ptr`.
    pub fn write_u32_le(&mut self, ptr: u32, v: u32) -> (r: Result<(), Error>)
        ensures
            ptr + 4 <= old(self)@.len() ==> (r matches Ok(u) && final(self)@ == write_region(
                old(self)@,
                ptr as int,
                le32(v),
            )),
            ptr + 4 > old(self)@.len() ==> (r matches Err(e) && e is OutOfBounds && final(self)@
                == old(self)@),
    {
        let mut bytes: Vec<u8> = Vec::new();
        bytes.push((v % 0x100) as u8);
        bytes.push(((v / 0x100) % 0x100) as u8);
        bytes.push(((v / 0x10000) % 0x100) as u8);
        bytes.push(((v / 0x1000000) % 0x100) as u8);
        proof {
            assert(bytes@ =~= le32(v));
        }
        self.write_bytes(ptr, bytes.as_slice())
    }
}

} // verus!
