//! The directory entry of one file: its name, inode number and block, and the
//! handle bookkeeping of `open` and `close`.

use vstd::prelude::*;
use crate::hello_blocks::{BlockBox, BLOCK_UNIT, create_raw, zeros};
use crate::hello_inode::FileType;
use crate::platform::{random_u16_in, read_write_flag, write_only_flag};

verus! {

/// The handle `open` gives back when it refuses; never the handle of a file.
pub const INVALID_FH: u16 = 0;

/// One file of the directory.
pub struct BlockInfo {
    pub ino: u64,
    pub name: String,
    pub bbox: BlockBox,
    /// The handle that every successful `open` of this file gives back.
    pub fh: u16,
    /// How many opens have not been closed yet.
    pub read_cnt: u8,
    /// Whether an open for writing has not been closed yet.
    pub is_writing: bool,
}

/// Whether open `flags` ask for writing, given the values of the write-only and
/// read-write flags.
pub open spec fn requests_write(flags: u32, write_only: i32, read_write: i32) -> bool {
    ((flags as i32) & write_only) != 0 || ((flags as i32) & read_write) != 0
}

/// Open flags of 0 never ask for writing, whatever the flag values are.
pub proof fn lemma_no_flags_no_write(write_only: i32, read_write: i32)
    ensures
        !requests_write(0, write_only, read_write),
{
    assert((0i32 & write_only) == 0i32) by (bit_vector);
    assert((0i32 & read_write) == 0i32) by (bit_vector);
}

impl BlockInfo {
    /// The file after an open that succeeded: one more open, writing if it was
    /// writing already or `writes` asks for it.
    pub open spec fn after_open(self, writes: bool) -> BlockInfo {
        BlockInfo {
            read_cnt: (self.read_cnt + 1) as u8,
            is_writing: self.is_writing || writes,
            ..self
        }
    }

    /// The file after a close: one open less, and no writer.
    pub open spec fn after_close(self) -> BlockInfo {
        BlockInfo { read_cnt: (self.read_cnt - 1) as u8, is_writing: false, ..self }
    }

    /// An open is refused when it asks for writing while a writer holds the file.
    pub open spec fn open_refused(self, writes: bool) -> bool {
        writes && self.is_writing
    }

    /// The number of bytes of the file's block.
    pub fn size(&self) -> (r: usize)
        ensures
            r == self.bbox@.len(),
    {
        self.bbox.size()
    }

    /// Opens the file with `flags`, where `write_only` and `read_write` are the values
    /// of the flags that ask for writing. A second writer is refused with `INVALID_FH`
    /// and changes nothing; otherwise the open is counted and the file's handle comes
    /// back.
    pub fn open_with_access_bits(&mut self, flags: u32, write_only: i32, read_write: i32) -> (r: u16)
        requires
            !old(self).open_refused(requests_write(flags, write_only, read_write))
                ==> old(self).read_cnt < 255,
        ensures
            ({
                let writes = requests_write(flags, write_only, read_write);
                if old(self).open_refused(writes) {
                    r == INVALID_FH && *final(self) == *old(self)
                } else {
                    r == old(self).fh && *final(self) == old(self).after_open(writes)
                }
            }),
    {
        let fl = flags as i32;
        let is_request_write = (fl & write_only != 0) || (fl & read_write != 0);
        if is_request_write && self.is_writing {
            INVALID_FH
        } else {
            if is_request_write {
                self.is_writing = true;
            }
            self.read_cnt += 1;
            self.fh
        }
    }

    /// Opens the file with `flags`, reading the write-only and read-write flag values
    /// of the platform: either the open is refused with `INVALID_FH` (a writer holds
    /// the file and nothing changes) or it is counted and the file's handle comes back.
    pub fn open(&mut self, flags: u32) -> (r: u16)
        requires
            old(self).read_cnt < 255,
        ensures
            ({
                ||| (r == INVALID_FH && old(self).is_writing && *final(self) == *old(self))
                ||| (r == old(self).fh && *final(self) == old(self).after_open(false))
                ||| (r == old(self).fh && *final(self) == old(self).after_open(true))
            }),
            flags == 0 ==> r == old(self).fh && *final(self) == old(self).after_open(false),
    {
        let write_only = write_only_flag();
        let read_write = read_write_flag();
        proof {
            lemma_no_flags_no_write(write_only, read_write);
        }
        self.open_with_access_bits(flags, write_only, read_write)
    }

    /// Closes an open of the file through its handle `fh`: one open less, and no
    /// writer any more.
    pub fn close(&mut self, fh: u64)
        requires
            old(self).read_cnt > 0,
            fh == old(self).fh as u64,
        ensures
            *final(self) == old(self).after_close(),
    {
        self.read_cnt -= 1;
        self.is_writing = false;
    }
}

/// The handle protocol of a file: a read-only open is never refused; once an open
/// for writing succeeded, every further open for writing is refused until a close;
/// after a close any open succeeds; an open followed by a close gives back the open
/// count it started from; and none of this touches the file's name, number, handle
/// or contents.
pub proof fn lemma_open_close_protocol(b: BlockInfo, writes: bool)
    requires
        b.read_cnt < 255,
    ensures
        !b.open_refused(false),
        !b.open_refused(writes) ==> b.after_open(writes).open_refused(writes) == writes,
        !b.after_open(true).after_close().open_refused(writes),
        !b.open_refused(writes) ==> b.after_open(writes).after_close().read_cnt == b.read_cnt,
        b.after_open(writes).fh == b.fh && b.after_open(writes).ino == b.ino,
        b.after_open(writes).name == b.name && b.after_open(writes).bbox == b.bbox,
        b.after_close().fh == b.fh && b.after_close().ino == b.ino,
        b.after_close().name == b.name && b.after_close().bbox == b.bbox,
{
}

/// A new file named `fname` numbered `ino`, with a block of `BLOCK_UNIT` zero bytes,
/// no opens, and a random handle other than `INVALID_FH`.
pub fn create(fname: String, ino: u64) -> (r: BlockInfo)
    ensures
        r.name == fname,
        r.ino == ino,
        r.bbox@ == zeros(BLOCK_UNIT as nat),
        r.fh != INVALID_FH,
        r.read_cnt == 0,
        !r.is_writing,
{
    let fh = random_u16_in(INVALID_FH + 1, u16::MAX);
    BlockInfo {
        name: fname,
        ino: ino,
        bbox: create_raw(BLOCK_UNIT),
        fh: fh,
        read_cnt: 0,
        is_writing: false,
    }
}

/// `e` is the regular-file entry of the file `d`.
pub open spec fn is_file_entry(e: (u64, FileType, &str), d: BlockInfo) -> bool {
    &&& e.0 == d.ino
    &&& e.1 == FileType::RegularFile
    &&& e.2@ == d.name@
}

/// Appends to `buf` one regular-file entry for every file of `dir_infos`, in order.
pub fn readdir<'a>(buf: &mut Vec<(u64, FileType, &'a str)>, dir_infos: &'a Vec<BlockInfo>)
    ensures
        final(buf)@.len() == old(buf)@.len() + dir_infos@.len(),
        forall|i: int| 0 <= i < old(buf)@.len() ==> final(buf)@[i] == old(buf)@[i],
        forall|j: int|
            0 <= j < dir_infos@.len() ==> #[trigger] is_file_entry(
                final(buf)@[old(buf)@.len() + j],
                dir_infos@[j],
            ),
{
    let ghost start = buf@;
    let mut i: usize = 0;
    while i < dir_infos.len()
        invariant
            i <= dir_infos@.len(),
            buf@.len() == start.len() + i,
            forall|k: int| 0 <= k < start.len() ==> buf@[k] == start[k],
            forall|j: int|
                0 <= j < i ==> #[trigger] is_file_entry(buf@[start.len() + j], dir_infos@[j]),
        decreases dir_infos@.len() - i,
    {
        let d = &dir_infos[i];
        let name = d.name.as_str();
        let ghost prev = buf@;
        buf.push((d.ino, FileType::RegularFile, name));
        proof {
            assert forall|j: int| 0 <= j < i + 1 implies #[trigger] is_file_entry(
                buf@[start.len() + j],
                dir_infos@[j],
            ) by {
                if j < i {
                    assert(buf@[start.len() + j] == prev[start.len() + j]);
                } else {
                    assert(buf@[start.len() + j] == (d.ino, FileType::RegularFile, name));
                }
            }
        }
        i = i + 1;
    }
}

/// Some file of `dir_infos` is named `name`.
pub open spec fn has_name(dir_infos: Seq<BlockInfo>, name: Seq<char>) -> bool {
    exists|i: int| 0 <= i < dir_infos.len() && dir_infos[i].name@ == name
}

/// `i` is the first position in `dir_infos` of a file named `name`.
pub open spec fn is_first_name_index(dir_infos: Seq<BlockInfo>, name: Seq<char>, i: int) -> bool {
    &&& 0 <= i < dir_infos.len()
    &&& dir_infos[i].name@ == name
    &&& forall|j: int| 0 <= j < i ==> dir_infos[j].name@ != name
}

/// The inode number of the first file named `name`, or 0 when there is none.
pub fn lookup(dir_infos: &Vec<BlockInfo>, name: String) -> (r: u64)
    ensures
        forall|i: int| is_first_name_index(dir_infos@, name@, i) ==> r == dir_infos@[i].ino,
        !has_name(dir_infos@, name@) ==> r == 0,
{
    let mut i: usize = 0;
    while i < dir_infos.len()
        invariant
            i <= dir_infos@.len(),
            forall|j: int| 0 <= j < i ==> dir_infos@[j].name@ != name@,
        decreases dir_infos@.len() - i,
    {
        if dir_infos[i].name == name {
            return dir_infos[i].ino;
        }
        i = i + 1;
    }
    0
}

} // verus!
