use vstd::prelude::*;

use crate::error::Error;

verus! {

/// Big-endian value of two bytes.
pub open spec fn be_u16_of(b: Seq<u8>) -> u16 {
    (b[0] as int * 0x100 + b[1] as int) as u16
}

/// Big-endian value of four bytes.
pub open spec fn be_u32_of(b: Seq<u8>) -> u32 {
    (b[0] as int * 0x100_0000 + b[1] as int * 0x1_0000 + b[2] as int * 0x100 + b[3] as int) as u32
}

/// Big-endian value of eight bytes.
pub open spec fn be_u64_of(b: Seq<u8>) -> u64 {
    (be_u32_of(b.subrange(0, 4)) as int * 0x1_0000_0000 + be_u32_of(b.subrange(4, 8)) as int) as u64
}

/// The `i8` whose two's-complement bits are `u`.
pub open spec fn i8_of(u: u8) -> i8 {
    (if u >= 0x80 { u - 0x100 } else { u as int }) as i8
}

/// The `i16` whose two's-complement bits are `u`.
pub open spec fn i16_of(u: u16) -> i16 {
    (if u >= 0x8000 { u - 0x1_0000 } else { u as int }) as i16
}

/// The `i32` whose two's-complement bits are `u`.
pub open spec fn i32_of(u: u32) -> i32 {
    (if u >= 0x8000_0000 { u - 0x1_0000_0000 } else { u as int }) as i32
}

/// The `i64` whose two's-complement bits are `u`.
pub open spec fn i64_of(u: u64) -> i64 {
    (if u >= 0x8000_0000_0000_0000 { u - 0x1_0000_0000_0000_0000 } else { u as int }) as i64
}

/// A bounds-checked reader over a borrowed byte slice.
#[derive(Debug)]
pub struct BinarySliceCursor<'a> {
    inner: &'a [u8],
    pos: usize,
}

impl<'a> BinarySliceCursor<'a> {
    /// The bytes the cursor reads from.
    pub closed spec fn data(&self) -> Seq<u8> {
        self.inner@
    }

    /// The offset of the next byte to read.
    pub closed spec fn pos_spec(&self) -> nat {
        self.pos as nat
    }

    /// The position never passes the end of the data.
    pub open spec fn wf(&self) -> bool {
        self.pos_spec() <= self.data().len()
    }

    /// Number of bytes not yet read.
    pub open spec fn remaining(&self) -> nat {
        (self.data().len() - self.pos_spec()) as nat
    }

    /// The bytes not yet read.
    pub open spec fn rest(&self) -> Seq<u8> {
        self.data().subrange(self.pos_spec() as int, self.data().len() as int)
    }

    /// Creates a cursor at the start of `slice`.
    pub fn new(slice: &'a [u8]) -> (r: Self)
        ensures
            r.wf(),
            r.data() == slice@,
            r.pos_spec() == 0,
    {
        BinarySliceCursor { inner: slice, pos: 0 }
    }

    /// Current position.
    pub fn pos(&self) -> (r: usize)
        ensures
            r == self.pos_spec(),
    {
        self.pos
    }

    /// Current position (same as [`Self::pos`]).
    pub fn position(&self) -> (r: usize)
        ensures
            r == self.pos_spec(),
    {
        self.pos
    }

    /// Moves the cursor to `pos`, which must lie within the data.
    pub fn set_pos(&mut self, pos: usize)
        requires
            pos <= old(self).data().len(),
        ensures
            final(self).wf(),
            final(self).data() == old(self).data(),
            final(self).pos_spec() == pos,
    {
        self.pos = pos;
    }

    /// Advances by `amount` bytes, or fails without moving when fewer remain.
    pub fn skip(&mut self, amount: usize) -> (r: Result<(), Error>)
        requires
            old(self).wf(),
        ensures
            final(self).wf(),
            final(self).data() == old(self).data(),
            amount <= old(self).remaining() ==> r is Ok && final(self).pos_spec() == old(self).pos_spec() + amount,
            amount > old(self).remaining() ==> r == Err::<(), Error>(
                Error::InvalidSkip { amount, available: old(self).remaining() as usize },
            ) && final(self).pos_spec() == old(self).pos_spec(),
    {
        let available = self.inner.len() - self.pos;
        if amount > available {
            return Err(Error::InvalidSkip { amount, available });
        }
        self.pos = self.pos + amount;
        Ok(())
    }

    /// Number of bytes not yet read.
    pub fn remaining_len(&self) -> (r: usize)
        requires
            self.wf(),
        ensures
            r == self.remaining(),
    {
        self.inner.len() - self.pos
    }

    /// Whether any byte is left to read.
    pub fn has_remaining(&self) -> (r: bool)
        requires
            self.wf(),
        ensures
            r == (self.remaining() > 0),
    {
        self.pos < self.inner.len()
    }

    /// Reads the next `count` bytes, or fails without moving when fewer remain.
    pub fn read(&mut self, count: usize) -> (r: Result<&'a [u8], Error>)
        requires
            old(self).wf(),
        ensures
            final(self).wf(),
            final(self).data() == old(self).data(),
            match r {
                Ok(s) => count <= old(self).remaining()
                    && s@ == old(self).data().subrange(old(self).pos_spec() as int, old(self).pos_spec() + count)
                    && final(self).pos_spec() == old(self).pos_spec() + count,
                Err(e) => count > old(self).remaining()
                    && e == Error::NotEnoughBytes { requested: count, available: old(self).remaining() as usize }
                    && final(self).pos_spec() == old(self).pos_spec(),
            },
            count <= old(self).remaining() ==> r is Ok,
    {
        let available = self.inner.len() - self.pos;
        if count <= available {
            let end = self.pos + count;
            let slice = &self.inner[self.pos..end];
            self.pos = end;
            Ok(slice)
        } else {
            Err(Error::NotEnoughBytes { requested: count, available })
        }
    }


    /// The `n` bytes that follow the position.
    pub open spec fn ahead(&self, n: nat) -> Seq<u8> {
        self.data().subrange(self.pos_spec() as int, (self.pos_spec() + n) as int)
    }

    /// Reads the next `N` bytes into an array.
    pub fn read_array<const N: usize>(&mut self) -> (r: Result<[u8; N], Error>)
        requires
            old(self).wf(),
        ensures
            final(self).wf(),
            final(self).data() == old(self).data(),
            match r {
                Ok(a) => N <= old(self).remaining() && a@ == old(self).ahead(N as nat)
                    && final(self).pos_spec() == old(self).pos_spec() + N,
                Err(e) => N > old(self).remaining()
                    && e == Error::NotEnoughBytes { requested: N, available: old(self).remaining() as usize }
                    && final(self).pos_spec() == old(self).pos_spec(),
            },
    {
        let slice = self.read(N)?;
        let mut arr: [u8; N] = vstd::array::array_fill_for_copy_types(0u8);
        let mut i: usize = 0;
        while i < N
            invariant
                i <= N,
                slice@.len() == N,
                forall|j: int| 0 <= j < i ==> arr@[j] == slice@[j],
            decreases N - i,
        {
            arr[i] = slice[i];
            i = i + 1;
        }
        assert(arr@ =~= slice@);
        Ok(arr)
    }

    /// Reads one byte.
    pub fn read_u8(&mut self) -> (r: Result<u8, Error>)
        requires
            old(self).wf(),
        ensures
            final(self).wf(),
            final(self).data() == old(self).data(),
            match r {
                Ok(v) => 1 <= old(self).remaining() && v == old(self).data()[old(self).pos_spec() as int]
                    && final(self).pos_spec() == old(self).pos_spec() + 1,
                Err(e) => old(self).remaining() < 1
                    && e == Error::NotEnoughBytes { requested: 1, available: old(self).remaining() as usize }
                    && final(self).pos_spec() == old(self).pos_spec(),
            },
    {
        let a = self.read_array::<1>()?;
        Ok(a[0])
    }

    /// Reads a big-endian `u16`.
    pub fn read_u16_be(&mut self) -> (r: Result<u16, Error>)
        requires
            old(self).wf(),
        ensures
            final(self).wf(),
            final(self).data() == old(self).data(),
            match r {
                Ok(v) => 2 <= old(self).remaining() && v == be_u16_of(old(self).ahead(2))
                    && final(self).pos_spec() == old(self).pos_spec() + 2,
                Err(e) => old(self).remaining() < 2
                    && e == Error::NotEnoughBytes { requested: 2, available: old(self).remaining() as usize }
                    && final(self).pos_spec() == old(self).pos_spec(),
            },
    {
        let a = self.read_array::<2>()?;
        Ok(a[0] as u16 * 0x100 + a[1] as u16)
    }

    /// Reads a big-endian `u32`.
    pub fn read_u32_be(&mut self) -> (r: Result<u32, Error>)
        requires
            old(self).wf(),
        ensures
            final(self).wf(),
            final(self).data() == old(self).data(),
            match r {
                Ok(v) => 4 <= old(self).remaining() && v == be_u32_of(old(self).ahead(4))
                    && final(self).pos_spec() == old(self).pos_spec() + 4,
                Err(e) => old(self).remaining() < 4
                    && e == Error::NotEnoughBytes { requested: 4, available: old(self).remaining() as usize }
                    && final(self).pos_spec() == old(self).pos_spec(),
            },
    {
        let a = self.read_array::<4>()?;
        Ok(a[0] as u32 * 0x100_0000 + a[1] as u32 * 0x1_0000 + a[2] as u32 * 0x100 + a[3] as u32)
    }

    /// Reads a big-endian `u64`.
    pub fn read_u64_be(&mut self) -> (r: Result<u64, Error>)
        requires
            old(self).wf(),
        ensures
            final(self).wf(),
            final(self).data() == old(self).data(),
            match r {
                Ok(v) => 8 <= old(self).remaining() && v == be_u64_of(old(self).ahead(8))
                    && final(self).pos_spec() == old(self).pos_spec() + 8,
                Err(e) => old(self).remaining() < 8
                    && e == Error::NotEnoughBytes { requested: 8, available: old(self).remaining() as usize }
                    && final(self).pos_spec() == old(self).pos_spec(),
            },
    {
        let a = self.read_array::<8>()?;
        let hi = a[0] as u64 * 0x100_0000 + a[1] as u64 * 0x1_0000 + a[2] as u64 * 0x100 + a[3] as u64;
        let lo = a[4] as u64 * 0x100_0000 + a[5] as u64 * 0x1_0000 + a[6] as u64 * 0x100 + a[7] as u64;
        proof {
            let s = old(self).ahead(8);
            assert(a@.subrange(0, 4) =~= s.subrange(0, 4));
            assert(a@.subrange(4, 8) =~= s.subrange(4, 8));
        }
        Ok(hi * 0x1_0000_0000 + lo)
    }

    /// Reads an `i8`.
    pub fn read_i8(&mut self) -> (r: Result<i8, Error>)
        requires
            old(self).wf(),
        ensures
            final(self).wf(),
            final(self).data() == old(self).data(),
            match r {
                Ok(v) => 1 <= old(self).remaining() && v == i8_of(old(self).data()[old(self).pos_spec() as int])
                    && final(self).pos_spec() == old(self).pos_spec() + 1,
                Err(e) => old(self).remaining() < 1
                    && e == Error::NotEnoughBytes { requested: 1, available: old(self).remaining() as usize }
                    && final(self).pos_spec() == old(self).pos_spec(),
            },
    {
        let u = self.read_u8()?;
        Ok(if u >= 0x80 { (u as i16 - 0x100) as i8 } else { u as i8 })
    }

    /// Reads a big-endian `i16`.
    pub fn read_i16_be(&mut self) -> (r: Result<i16, Error>)
        requires
            old(self).wf(),
        ensures
            final(self).wf(),
            final(self).data() == old(self).data(),
            match r {
                Ok(v) => 2 <= old(self).remaining() && v == i16_of(be_u16_of(old(self).ahead(2)))
                    && final(self).pos_spec() == old(self).pos_spec() + 2,
                Err(e) => old(self).remaining() < 2
                    && e == Error::NotEnoughBytes { requested: 2, available: old(self).remaining() as usize }
                    && final(self).pos_spec() == old(self).pos_spec(),
            },
    {
        let u = self.read_u16_be()?;
        Ok(if u >= 0x8000 { (u as i32 - 0x1_0000) as i16 } else { u as i16 })
    }

    /// Reads a big-endian `i32`.
    pub fn read_i32_be(&mut self) -> (r: Result<i32, Error>)
        requires
            old(self).wf(),
        ensures
            final(self).wf(),
            final(self).data() == old(self).data(),
            match r {
                Ok(v) => 4 <= old(self).remaining() && v == i32_of(be_u32_of(old(self).ahead(4)))
                    && final(self).pos_spec() == old(self).pos_spec() + 4,
                Err(e) => old(self).remaining() < 4
                    && e == Error::NotEnoughBytes { requested: 4, available: old(self).remaining() as usize }
                    && final(self).pos_spec() == old(self).pos_spec(),
            },
    {
        let u = self.read_u32_be()?;
        Ok(if u >= 0x8000_0000 { (u as i64 - 0x1_0000_0000) as i32 } else { u as i32 })
    }

    /// Reads a big-endian `i64`.
    pub fn read_i64_be(&mut self) -> (r: Result<i64, Error>)
        requires
            old(self).wf(),
        ensures
            final(self).wf(),
            final(self).data() == old(self).data(),
            match r {
                Ok(v) => 8 <= old(self).remaining() && v == i64_of(be_u64_of(old(self).ahead(8)))
                    && final(self).pos_spec() == old(self).pos_spec() + 8,
                Err(e) => old(self).remaining() < 8
                    && e == Error::NotEnoughBytes { requested: 8, available: old(self).remaining() as usize }
                    && final(self).pos_spec() == old(self).pos_spec(),
            },
    {
        let u = self.read_u64_be()?;
        Ok(if u >= 0x8000_0000_0000_0000 { (u as i128 - 0x1_0000_0000_0000_0000) as i64 } else { u as i64 })
    }
}

} // verus!
