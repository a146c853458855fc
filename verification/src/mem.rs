//! Raw typed access to the host process image.
//!
//! The image is a flat byte array indexed by absolute addresses. Reads and
//! writes perform no checking beyond staying inside the image: which type
//! lives at an address is entirely the caller's contract, as it is for the
//! real process whose layout this models.

use vstd::prelude::*;

verus! {

use vstd::pervasive::VecAdditionalExecFns;

/// Little-endian value of four consecutive bytes.
pub open spec fn le_word(b0: u8, b1: u8, b2: u8, b3: u8) -> u32 {
    (b0 as u32) | ((b1 as u32) << 8) | ((b2 as u32) << 16) | ((b3 as u32) << 24)
}

/// Byte `k` (0 = least significant) of a 32-bit value, as stored in memory.
pub open spec fn word_byte(v: u32, k: int) -> u8 {
    if k == 0 {
        (v & 0xff) as u8
    } else if k == 1 {
        ((v >> 8) & 0xff) as u8
    } else if k == 2 {
        ((v >> 16) & 0xff) as u8
    } else {
        ((v >> 24) & 0xff) as u8
    }
}

/// Reassembling the four stored bytes of a word gives the word back.
pub proof fn lemma_word_bytes_roundtrip(v: u32)
    ensures
        le_word(word_byte(v, 0), word_byte(v, 1), word_byte(v, 2), word_byte(v, 3)) == v,
{
    assert(((v & 0xff) as u8 as u32) | ((((v >> 8) & 0xff) as u8 as u32) << 8) | ((((v >> 16)
        & 0xff) as u8 as u32) << 16) | ((((v >> 24) & 0xff) as u8 as u32) << 24) == v)
        by (bit_vector);
}

/// The host process image: a span of memory starting at address 0.
///
/// Addresses are plain indexes into the span. The image never grows or
/// shrinks: the host is trusted to remain mapped at the same locations for
/// the lifetime of the process.
pub struct Memory {
    bytes: Vec<u8>,
}

impl View for Memory {
    type V = Seq<u8>;

    closed spec fn view(&self) -> Seq<u8> {
        self.bytes@
    }
}

impl Memory {
    /// A fresh image of `size` zeroed bytes.
    pub fn new(size: usize) -> (m: Memory)
        ensures
            m@ == Seq::new(size as nat, |i: int| 0u8),
    {
        let mut bytes: Vec<u8> = Vec::new();
        while bytes.len() < size
            invariant
                bytes@.len() <= size,
                forall|i: int| 0 <= i < bytes@.len() ==> bytes@[i] == 0u8,
            decreases size - bytes@.len(),
        {
            bytes.push(0u8);
        }
        proof {
            assert(bytes@ =~= Seq::new(size as nat, |i: int| 0u8));
        }
        Memory { bytes }
    }

    /// Number of addressable bytes.
    pub fn len(&self) -> (n: usize)
        ensures
            n == self@.len(),
    {
        self.bytes.len()
    }

    /// Read the byte at `addr`.
    pub fn read_u8(&self, addr: usize) -> (b: u8)
        requires
            addr < self@.len(),
        ensures
            b == self@[addr as int],
    {
        self.bytes[addr]
    }

    /// Write the byte at `addr`. Every other address is untouched.
    pub fn write_u8(&mut self, addr: usize, v: u8)
        requires
            addr < old(self)@.len(),
        ensures
            final(self)@ == old(self)@.update(addr as int, v),
    {
        self.bytes.set(addr, v);
    }

    /// Read the little-endian 32-bit word stored at `addr`.
    pub fn read_u32(&self, addr: usize) -> (v: u32)
        requires
            addr + 4 <= self@.len(),
        ensures
            v == le_word(
                self@[addr as int],
                self@[addr as int + 1],
                self@[addr as int + 2],
                self@[addr as int + 3],
            ),
    {
        let _bound = self.bytes.len();
        let b0 = self.bytes[addr];
        let b1 = self.bytes[addr + 1];
        let b2 = self.bytes[addr + 2];
        let b3 = self.bytes[addr + 3];
        (b0 as u32) | ((b1 as u32) << 8) | ((b2 as u32) << 16) | ((b3 as u32) << 24)
    }

    /// Store `v` at `addr` as four little-endian bytes.
    pub fn write_u32(&mut self, addr: usize, v: u32)
        requires
            addr + 4 <= old(self)@.len(),
        ensures
            final(self)@.len() == old(self)@.len(),
            forall|k: int|
                0 <= k < 4 ==> final(self)@[addr as int + k] == word_byte(v, k),
            forall|i: int|
                0 <= i < old(self)@.len() && !(addr <= i < addr + 4) ==> final(self)@[i] == old(
                    self,
                )@[i],
    {
        let _bound = self.bytes.len();
        let b0: u8 = (v & 0xff) as u8;
        let b1: u8 = ((v >> 8) & 0xff) as u8;
        let b2: u8 = ((v >> 16) & 0xff) as u8;
        let b3: u8 = ((v >> 24) & 0xff) as u8;
        self.bytes.set(addr, b0);
        self.bytes.set(addr + 1, b1);
        self.bytes.set(addr + 2, b2);
        self.bytes.set(addr + 3, b3);
    }

    /// Copy `src` into the image starting at `addr`.
    ///
    /// Used to patch a fixed-size buffer in place; the caller guarantees
    /// the destination region is large enough, exactly as the real
    /// primitive demands.
    pub fn write_bytes(&mut self, addr: usize, src: &Vec<u8>)
        requires
            addr + src@.len() <= old(self)@.len(),
        ensures
            final(self)@.len() == old(self)@.len(),
            forall|i: int|
                addr <= i < addr + src@.len() ==> final(self)@[i] == src@[i - addr],
            forall|i: int|
                0 <= i < old(self)@.len() && !(addr <= i < addr + src@.len()) ==> final(self)@[i]
                    == old(self)@[i],
    {
        let _bound = self.bytes.len();
        let mut k: usize = 0;
        while k < src.len()
            invariant
                k <= src@.len(),
                addr + src@.len() <= self@.len(),
                self@.len() <= usize::MAX,
                self@.len() == old(self)@.len(),
                forall|i: int| addr <= i < addr + k ==> self@[i] == src@[i - addr],
                forall|i: int|
                    0 <= i < old(self)@.len() && !(addr <= i < addr + k) ==> self@[i] == old(
                        self,
                    )@[i],
            decreases src@.len() - k,
        {
            let b = src[k];
            self.bytes.set(addr + k, b);
            k = k + 1;
        }
    }

    /// Copy `n` bytes starting at `addr` out of the image.
    pub fn read_bytes(&self, addr: usize, n: usize) -> (r: Vec<u8>)
        requires
            addr + n <= self@.len(),
        ensures
            r@ == self@.subrange(addr as int, addr as int + n),
    {
        let _bound = self.bytes.len();
        let mut r: Vec<u8> = Vec::new();
        let mut k: usize = 0;
        while k < n
            invariant
                k <= n,
                addr + n <= self@.len(),
                self@.len() <= usize::MAX,
                r@ == self@.subrange(addr as int, addr as int + k),
            decreases n - k,
        {
            r.push(self.bytes[addr + k]);
            proof {
                assert(r@ =~= self@.subrange(addr as int, addr as int + k + 1));
            }
            k = k + 1;
        }
        r
    }

    /// Writing a value a second time changes nothing: flag toggles at a
    /// fixed address are idempotent in effect.
    pub proof fn lemma_write_idempotent(bytes: Seq<u8>, addr: int, v: u8)
        requires
            0 <= addr < bytes.len(),
        ensures
            bytes.update(addr, v).update(addr, v) == bytes.update(addr, v),
    {
        assert(bytes.update(addr, v).update(addr, v) =~= bytes.update(addr, v));
    }
}

} // verus!
