//! Growable byte blocks that hold the contents of one file.

use vstd::prelude::*;

verus! {

/// Blocks grow in steps of this many bytes.
pub const BLOCK_UNIT: usize = 0x100;

/// The total size that all blocks of the filesystem may reach together.
pub const BLOCK_LIMIT: usize = 0x10000000;

/// `n` rounded up to the next multiple of `unit`.
pub open spec fn aligned_up(n: int, unit: int) -> int {
    ((n + unit - 1) / unit) * unit
}

/// Rounds `n` up to the next multiple of `unit`.
pub fn align_up(n: usize, unit: usize) -> (r: usize)
    requires
        unit > 0,
        n + unit - 1 <= usize::MAX,
    ensures
        r == aligned_up(n as int, unit as int),
        n <= r < n + unit,
        r % unit == 0,
{
    let n2 = n + (unit - 1);
    proof { lemma_aligned_up(n as int, unit as int); }
    (n2 / unit) * unit
}

/// Rounding up lands on a multiple of `unit` that is at least `n` and less than `n + unit`.
pub proof fn lemma_aligned_up(n: int, unit: int)
    requires
        n >= 0,
        unit > 0,
    ensures
        n <= aligned_up(n, unit) < n + unit,
        aligned_up(n, unit) % unit == 0,
        aligned_up(n, unit) <= n + unit - 1,
{
    let q = (n + unit - 1) / unit;
    let r = (n + unit - 1) % unit;
    assert(n + unit - 1 == q * unit + r && 0 <= r < unit) by (nonlinear_arith)
        requires unit > 0, q == (n + unit - 1) / unit, r == (n + unit - 1) % unit;
    assert((q * unit) % unit == 0) by (nonlinear_arith)
        requires unit > 0;
}


/// The bytes of one file, in a buffer that grows in steps of `BLOCK_UNIT`.
pub struct BlockBox {
    pub data: Vec<u8>,
}

impl View for BlockBox {
    type V = Seq<u8>;

    open spec fn view(&self) -> Seq<u8> {
        self.data@
    }
}

/// Whether a write of `len` bytes at `offset` reaches past a block of `size` bytes.
pub open spec fn write_grows(size: nat, offset: int, len: nat) -> bool {
    size < offset + len
}

/// The size of a block of `size` bytes after a write of `len` bytes at `offset`.
pub open spec fn grown_size(size: nat, offset: int, len: nat) -> int {
    if write_grows(size, offset, len) {
        aligned_up(offset + len, BLOCK_UNIT as int)
    } else {
        size as int
    }
}

/// How many bytes a write of `len` bytes at `offset` adds to a block of `size` bytes.
pub open spec fn write_growth(size: nat, offset: int, len: nat) -> int {
    grown_size(size, offset, len) - size
}

/// A write is refused when its offset is negative, or when the block has to
/// grow and the filesystem size `fs_size` plus that growth would pass `BLOCK_LIMIT`
/// (a negative `fs_size` never leaves room).
pub open spec fn write_refused(size: nat, fs_size: i32, offset: int, len: nat) -> bool {
    ||| offset < 0
    ||| (write_grows(size, offset, len) && (fs_size < 0 || fs_size + write_growth(size, offset, len)
        > BLOCK_LIMIT))
}

/// The inputs on which a write stays within machine arithmetic: the end position and
/// its rounding fit in a `usize`, the room check does not overflow, and a grown
/// block stays within `isize::MAX` bytes.
pub open spec fn write_defined(size: nat, fs_size: i32, offset: int, len: nat) -> bool {
    offset >= 0 ==> {
        &&& offset + len <= usize::MAX
        &&& write_grows(size, offset, len) ==> {
            &&& offset + len + (BLOCK_UNIT - 1) <= usize::MAX
            &&& fs_size < 0 ==> write_growth(size, offset, len) < -fs_size
            &&& fs_size >= 0 ==> fs_size + write_growth(size, offset, len) <= usize::MAX
            &&& (fs_size >= 0 && fs_size + write_growth(size, offset, len) <= BLOCK_LIMIT)
                ==> grown_size(size, offset, len) <= isize::MAX
        }
    }
}

/// The contents of a block after `data` was written at `offset`, the block now
/// holding `new_size` bytes: what stood before `offset` stays (bytes past the old end
/// read as zero), then come the written bytes, and everything after them is zero.
pub open spec fn written(old: Seq<u8>, new_size: int, data: Seq<u8>, offset: int) -> Seq<u8> {
    Seq::new(
        new_size as nat,
        |i: int|
            if i < offset {
                if i < old.len() {
                    old[i]
                } else {
                    0u8
                }
            } else if i < offset + data.len() {
                data[i - offset]
            } else {
                0u8
            },
    )
}

/// `n` zero bytes.
pub open spec fn zeros(n: nat) -> Seq<u8> {
    Seq::new(n, |i: int| 0u8)
}

impl BlockBox {
    /// The number of bytes the block holds.
    pub fn size(&self) -> (r: usize)
        ensures
            r == self@.len(),
    {
        self.data.len()
    }

    /// The bytes from `offset` up to `offset + size`, cut off at the end of the block.
    pub fn read(&self, offset: i64, size: u32) -> (r: &[u8])
        requires
            0 <= offset <= self@.len(),
            offset + size <= i64::MAX,
            self@.len() <= isize::MAX,
        ensures
            r@ == self@.subrange(
                offset as int,
                if offset + size <= self@.len() {
                    offset + size
                } else {
                    self@.len() as int
                },
            ),
    {
        assert(isize::MAX <= i64::MAX);
        let sz = self.data.len() as i64;
        let mut l = offset + (size as i64);
        if l > sz {
            l = sz;
        }
        vstd::slice::slice_subrange(self.data.as_slice(), offset as usize, l as usize)
    }

    /// Writes `data` at `offset`. When the block is too short it grows to the end of
    /// the write rounded up to `BLOCK_UNIT`, unless `fs_size` plus the growth would pass
    /// `BLOCK_LIMIT`. Everything after the written bytes is zeroed. Returns whether the
    /// write happened, how many bytes the block grew by, and the end position of the
    /// write (as a `u32`, cut to its low 32 bits).
    pub fn write(&mut self, fs_size: i32, data: &[u8], offset: i64) -> (r: (bool, i32, u32))
        requires
            write_defined(old(self)@.len(), fs_size, offset as int, data@.len()),
        ensures
            write_refused(old(self)@.len(), fs_size, offset as int, data@.len()) ==> {
                &&& r == (false, 0i32, 0u32)
                &&& final(self)@ == old(self)@
            },
            !write_refused(old(self)@.len(), fs_size, offset as int, data@.len()) ==> {
                &&& r.0
                &&& r.1 == write_growth(old(self)@.len(), offset as int, data@.len())
                &&& r.2 == (offset + data@.len()) as u32
                &&& final(self)@ == written(
                    old(self)@,
                    grown_size(old(self)@.len(), offset as int, data@.len()),
                    data@,
                    offset as int,
                )
            },
    {
        if offset < 0 {
            return (false, 0, 0);
        }
        let ghost old_data = self.data@;
        let original_size = self.data.len();
        let src_len = data.len();
        let off = offset as usize;
        let end_pos = src_len + off;
        let ghost new_size = grown_size(old_data.len(), offset as int, data@.len());
        let ghost target = written(old_data, new_size, data@, offset as int);
        let mut inc_mem_size: i32 = 0;
        if original_size < end_pos {
            let new_size_x = align_up(end_pos, BLOCK_UNIT);
            let growth = new_size_x - original_size;
            if fs_size < 0 || fs_size as usize + growth > BLOCK_LIMIT {
                return (false, 0, 0);
            }
            inc_mem_size = growth as i32;
            while self.data.len() < new_size_x
                invariant
                    original_size == old_data.len(),
                    original_size <= self.data.len() <= new_size_x,
                    forall|i: int| 0 <= i < original_size ==> self.data@[i] == old_data[i],
                    forall|i: int| original_size <= i < self.data.len() ==> self.data@[i] == 0u8,
                decreases new_size_x - self.data.len(),
            {
                self.data.push(0u8);
            }
        }
        assert(self.data@.len() == new_size);
        let mut k: usize = 0;
        while k < src_len
            invariant
                off == offset,
                src_len == data@.len(),
                end_pos == off + src_len,
                end_pos <= self.data@.len(),
                self.data@.len() == new_size,
                target == written(old_data, new_size, data@, offset as int),
                0 <= k <= src_len,
                forall|i: int| 0 <= i < off ==> self.data@[i] == target[i],
                forall|i: int| off <= i < off + k ==> self.data@[i] == target[i],
            decreases src_len - k,
        {
            self.data[off + k] = data[k];
            k += 1;
        }
        let mut p: usize = end_pos;
        while p < self.data.len()
            invariant
                self.data@.len() == new_size,
                target == written(old_data, new_size, data@, offset as int),
                end_pos <= p <= new_size,
                end_pos == offset + data@.len(),
                forall|i: int| 0 <= i < p ==> self.data@[i] == target[i],
            decreases self.data@.len() - p,
        {
            self.data[p] = 0u8;
            p += 1;
        }
        assert(self.data@ =~= target);
        (true, inc_mem_size, end_pos as u32)
    }
}

/// What a write leaves behind: reading `data.len()` bytes at `offset` gives back
/// exactly `data`, the bytes before `offset` that the block held are kept, and every
/// byte after the written ones is zero.
pub proof fn lemma_write_then_read(old: Seq<u8>, fs_size: i32, data: Seq<u8>, offset: int)
    requires
        !write_refused(old.len(), fs_size, offset, data.len()),
    ensures
        ({
            let new = written(old, grown_size(old.len(), offset, data.len()), data, offset);
            &&& offset + data.len() <= new.len()
            &&& new.subrange(offset, offset + data.len()) == data
            &&& forall|i: int| 0 <= i < offset && i < old.len() ==> new[i] == old[i]
            &&& forall|i: int| offset + data.len() <= i < new.len() ==> new[i] == 0u8
        }),
{
    let len = data.len();
    if write_grows(old.len(), offset, len) {
        lemma_aligned_up(offset + len, BLOCK_UNIT as int);
    }
    let new = written(old, grown_size(old.len(), offset, len), data, offset);
    assert(new.subrange(offset, offset + len) =~= data);
}

/// An accepted write never shrinks a block; a block that grows ends on a multiple of
/// `BLOCK_UNIT`, less than `BLOCK_UNIT` bytes past the end of the write, and the
/// growth keeps `fs_size` plus the growth within `BLOCK_LIMIT`.
pub proof fn lemma_write_growth(size: nat, fs_size: i32, offset: int, len: nat)
    requires
        !write_refused(size, fs_size, offset, len),
    ensures
        grown_size(size, offset, len) >= size,
        grown_size(size, offset, len) >= offset + len,
        write_grows(size, offset, len) ==> {
            &&& grown_size(size, offset, len) % (BLOCK_UNIT as int) == 0
            &&& grown_size(size, offset, len) < offset + len + BLOCK_UNIT
            &&& 0 <= fs_size + write_growth(size, offset, len) <= BLOCK_LIMIT
        },
        !write_grows(size, offset, len) ==> grown_size(size, offset, len) == size,
        (size as int) % (BLOCK_UNIT as int) == 0 ==> grown_size(size, offset, len) % (BLOCK_UNIT as int) == 0,
{
    if write_grows(size, offset, len) {
        lemma_aligned_up(offset + len, BLOCK_UNIT as int);
    }
}

/// A block of `size` zero bytes.
pub fn create_raw(size: usize) -> (r: BlockBox)
    requires
        0 < size <= isize::MAX - (BLOCK_UNIT - 1),
    ensures
        r@ == zeros(size as nat),
{
    let mut data: Vec<u8> = Vec::new();
    while data.len() < size
        invariant
            data.len() <= size,
            forall|i: int| 0 <= i < data.len() ==> data@[i] == 0u8,
        decreases size - data.len(),
    {
        data.push(0u8);
    }
    assert(data@ =~= zeros(size as nat));
    BlockBox { data }
}

} // verus!
