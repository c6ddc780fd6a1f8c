//! The request logic of the filesystem: one root directory (inode 1) holding
//! regular files, each with an inode in `file_inode` and a block in `block_infos`.
//! The caller hands each request over as plain values and sends the answer on.

use vstd::prelude::*;
use crate::hello_blocks::{
    grown_size, lemma_write_growth, lemma_write_then_read, write_defined, write_growth,
    write_refused, written, zeros, BLOCK_LIMIT, BLOCK_UNIT,
};
use crate::hello_block_info::{
    create, has_name, is_file_entry, is_first_name_index, lemma_no_flags_no_write, lookup,
    requests_write, BlockInfo, INVALID_FH,
};
use crate::platform::{read_write_flag, write_only_flag};
use crate::hello_inode::{
    dir_attr_get, dir_attr_spec, exists_ino, file_attr_spec, has_ino, info_idx_get, inode_data_create, is_first_ino_index,
    lemma_free_ino_exists, next_ino, taken_inos, FileAttr, FileType, INVALID_BLOCK_ID,
    INVALID_INO,
};

verus! {

/// The inode number of the root directory.
pub const HELLO_DIR_INO: u64 = 1;

/// Why a request fails.
#[derive(Clone, Copy, Debug, PartialEq, Eq, Structural)]
pub enum FsError {
    /// No such file or directory.
    NotFound,
    /// The request is not supported.
    NotSupported,
    /// The file is busy: a writer holds it.
    Busy,
}

/// The values of the open flags that ask for writing (write-only and read-write).
#[derive(Clone, Copy, Debug, PartialEq, Eq, Structural)]
pub struct AccessBits {
    pub write_only: i32,
    pub read_write: i32,
}

/// The state of the filesystem.
pub struct HelloFs {
    pub dir_inode: FileAttr,
    pub file_inode: Vec<FileAttr>,
    pub block_infos: Vec<BlockInfo>,
    /// The sum of the sizes of all blocks.
    pub fs_size: i32,
    /// The platform's values of the open flags that ask for writing, read once when
    /// the filesystem is made; every `open` decodes its flags with them.
    pub access: AccessBits,
}

/// The sum of the sizes of the blocks of `s`.
pub open spec fn total_size(s: Seq<BlockInfo>) -> int
    decreases s.len(),
{
    if s.len() == 0 {
        0
    } else {
        total_size(s.drop_last()) + s.last().bbox@.len()
    }
}

/// Appending a file adds its size to the total.
pub proof fn lemma_total_size_push(s: Seq<BlockInfo>, b: BlockInfo)
    ensures
        total_size(s.push(b)) == total_size(s) + b.bbox@.len(),
{
    assert(s.push(b).drop_last() =~= s);
}

/// Replacing one file changes the total by the difference of the sizes.
pub proof fn lemma_total_size_update(s: Seq<BlockInfo>, i: int, b: BlockInfo)
    requires
        0 <= i < s.len(),
    ensures
        total_size(s.update(i, b)) == total_size(s) - s[i].bbox@.len() + b.bbox@.len(),
    decreases s.len(),
{
    if i < s.len() - 1 {
        lemma_total_size_update(s.drop_last(), i, b);
        assert(s.update(i, b).drop_last() =~= s.drop_last().update(i, b));
    } else {
        assert(s.update(i, b).drop_last() =~= s.drop_last());
    }
}

/// Every size is at most the total, and with every block holding at least one
/// byte the total is at least the number of blocks.
pub proof fn lemma_total_size_bounds(s: Seq<BlockInfo>)
    ensures
        forall|i: int| 0 <= i < s.len() ==> s[i].bbox@.len() <= total_size(s),
        (forall|i: int| 0 <= i < s.len() ==> s[i].bbox@.len() >= 1) ==> total_size(s) >= s.len(),
        total_size(s) >= 0,
    decreases s.len(),
{
    if s.len() > 0 {
        lemma_total_size_bounds(s.drop_last());
        assert forall|i: int| 0 <= i < s.len() implies s[i].bbox@.len() <= total_size(s) by {
            if i < s.len() - 1 {
                assert(s[i] == s.drop_last()[i]);
            }
        }
        if forall|i: int| 0 <= i < s.len() ==> s[i].bbox@.len() >= 1 {
            assert forall|i: int| 0 <= i < s.drop_last().len() implies s.drop_last()[i].bbox@.len()
                >= 1 by {
                assert(s[i] == s.drop_last()[i]);
            }
        }
    }
}

/// If some file is named `name`, one of them comes first.
proof fn lemma_first_name_below(s: Seq<BlockInfo>, name: Seq<char>, k: int)
    requires
        0 <= k < s.len(),
        s[k].name@ == name,
    ensures
        exists|i: int| is_first_name_index(s, name, i),
    decreases k,
{
    if exists|j: int| 0 <= j < k && s[j].name@ == name {
        let j = choose|j: int| 0 <= j < k && s[j].name@ == name;
        lemma_first_name_below(s, name, j);
    } else {
        assert(is_first_name_index(s, name, k));
    }
}

/// The position of the first file named `name`.
pub open spec fn first_name_index(s: Seq<BlockInfo>, name: Seq<char>) -> int {
    choose|i: int| is_first_name_index(s, name, i)
}

impl HelloFs {
    /// The state is consistent: one inode per block; each inode names a block that
    /// carries its number; inode numbers are distinct, at least 2 and fit in 32 bits;
    /// every block belongs to some inode, holds at least one byte, and has a real
    /// handle; and `fs_size` is the sum of the block sizes.
    pub open spec fn wf(&self) -> bool {
        let n = self.file_inode@.len();
        &&& self.block_infos@.len() == n
        &&& forall|i: int|
            #![trigger self.file_inode@[i]]
            0 <= i < n ==> {
                &&& (self.file_inode@[i].blocks as int) < n
                &&& self.block_infos@[self.file_inode@[i].blocks as int].ino
                    == self.file_inode@[i].ino
                &&& 2 <= self.file_inode@[i].ino <= u32::MAX
            }
        &&& forall|i: int, j: int|
            0 <= i < n && 0 <= j < n && i != j ==> self.file_inode@[i].ino
                != self.file_inode@[j].ino
        &&& forall|b: int|
            #![trigger self.block_infos@[b]]
            0 <= b < n ==> {
                &&& exists|i: int| 0 <= i < n && self.file_inode@[i].blocks == b
                &&& self.block_infos@[b].bbox@.len() >= 1
                &&& self.block_infos@[b].fh != INVALID_FH
            }
        &&& self.fs_size == total_size(self.block_infos@)
    }

    /// The position in `file_inode` of the inode numbered `ino`.
    pub open spec fn index_of_ino(&self, ino: u64) -> int {
        choose|i: int| 0 <= i < self.file_inode@.len() && self.file_inode@[i].ino == ino
    }

    /// The block of the file numbered `ino`.
    pub open spec fn block_of(&self, ino: u64) -> BlockInfo {
        self.block_infos@[self.file_inode@[self.index_of_ino(ino)].blocks as int]
    }

    /// The files, by number: each with its name and its contents.
    pub open spec fn files(&self) -> Map<u64, (Seq<char>, Seq<u8>)> {
        Map::new(
            |ino: u64| has_ino(self.file_inode@, ino),
            |ino: u64| (self.block_of(ino).name@, self.block_of(ino).bbox@),
        )
    }

    /// The number of the first file named `name`, or 0 when there is none.
    pub open spec fn ino_of_name(&self, name: Seq<char>) -> u64 {
        if has_name(self.block_infos@, name) {
            self.block_infos@[first_name_index(self.block_infos@, name)].ino
        } else {
            0
        }
    }

    /// The block index recorded for `ino`, or `INVALID_BLOCK_ID` when no inode has it.
    pub open spec fn block_index_of(&self, ino: u64) -> int {
        if has_ino(self.file_inode@, ino) {
            self.file_inode@[self.index_of_ino(ino)].blocks as int
        } else {
            INVALID_BLOCK_ID as int
        }
    }

    /// Facts that follow from consistency: the inode numbered `ino` sits at
    /// `index_of_ino(ino)` and nowhere else, and there are fewer inodes than
    /// `INVALID_INO`, with each block within `i32::MAX` bytes.
    pub proof fn lemma_wf_facts(&self, ino: u64)
        requires
            self.wf(),
        ensures
            self.file_inode@.len() <= i32::MAX,
            forall|b: int|
                0 <= b < self.block_infos@.len() ==> self.block_infos@[b].bbox@.len()
                    <= self.fs_size,
            has_ino(self.file_inode@, ino) ==> {
                &&& 0 <= self.index_of_ino(ino) < self.file_inode@.len()
                &&& self.file_inode@[self.index_of_ino(ino)].ino == ino
                &&& is_first_ino_index(self.file_inode@, ino, self.index_of_ino(ino))
                &&& forall|j: int|
                    0 <= j < self.file_inode@.len() && self.file_inode@[j].ino == ino ==> j
                        == self.index_of_ino(ino)
                &&& self.block_index_of(ino) < self.block_infos@.len()
                &&& self.block_of(ino).ino == ino
            },
    {
        lemma_total_size_bounds(self.block_infos@);
        assert forall|b: int| 0 <= b < self.block_infos@.len() implies self.block_infos@[b].bbox@.len()
            >= 1 by {
            assert(self.block_infos@[b].bbox@.len() >= 1);
        }
        if has_ino(self.file_inode@, ino) {
            let k = self.index_of_ino(ino);
            assert(self.file_inode@[k].ino == ino);
            assert(self.file_inode@[k].blocks < self.file_inode@.len());
        }
    }

    /// The file named first `name` has an inode; when no file has that name, the
    /// number looked for is 0, which no inode has.
    pub proof fn lemma_named_file_has_inode(&self, name: Seq<char>)
        requires
            self.wf(),
        ensures
            has_name(self.block_infos@, name) ==> {
                &&& is_first_name_index(self.block_infos@, name, first_name_index(self.block_infos@, name))
                &&& has_ino(self.file_inode@, self.ino_of_name(name))
            },
            !has_name(self.block_infos@, name) ==> !has_ino(self.file_inode@, self.ino_of_name(name)),
    {
        if has_name(self.block_infos@, name) {
            let k = choose|k: int| 0 <= k < self.block_infos@.len() && self.block_infos@[k].name@ == name;
            lemma_first_name_below(self.block_infos@, name, k);
            let f = first_name_index(self.block_infos@, name);
            assert(self.block_infos@[f].bbox@.len() >= 1);
            let i = choose|i: int| 0 <= i < self.file_inode@.len() && self.file_inode@[i].blocks == f;
            assert(self.file_inode@[i].ino == self.ino_of_name(name));
        } else {
            if has_ino(self.file_inode@, 0) {
                let i = choose|i: int| 0 <= i < self.file_inode@.len() && self.file_inode@[i].ino == 0;
                assert(self.file_inode@[i].ino >= 2);
            }
        }
    }

    /// The position in `file_inode` of the inode of the first file named `name`, or
    /// `INVALID_INO` when there is no such file.
    pub fn nid_get_from_name(&self, name: &str) -> (r: usize)
        requires
            self.wf(),
        ensures
            has_name(self.block_infos@, name@) ==> r == self.index_of_ino(self.ino_of_name(name@)),
            has_name(self.block_infos@, name@) ==> has_ino(self.file_inode@, self.ino_of_name(name@)),
            !has_name(self.block_infos@, name@) ==> r == INVALID_INO,
    {
        let fname = name.to_owned();
        let ino = lookup(&self.block_infos, fname);
        let r = exists_ino(&self.file_inode, ino);
        proof {
            self.lemma_named_file_has_inode(name@);
            if has_name(self.block_infos@, name@) {
                self.lemma_wf_facts(ino);
            } else {
                if has_ino(self.file_inode@, 0) {
                    let i = choose|i: int| 0 <= i < self.file_inode@.len()
                        && self.file_inode@[i].ino == 0;
                    assert(self.file_inode@[i].ino >= 2);
                }
            }
        }
        r
    }

    /// The attributes of the first file named `name`, or `NotFound`.
    pub fn lookup(&self, name: &str) -> (r: Result<FileAttr, FsError>)
        requires
            self.wf(),
        ensures
            has_name(self.block_infos@, name@) ==> r == Ok::<FileAttr, FsError>(
                self.file_inode@[self.index_of_ino(self.ino_of_name(name@))],
            ),
            has_name(self.block_infos@, name@) ==> self.files().contains_key(self.ino_of_name(name@)),
            !has_name(self.block_infos@, name@) ==> r == Err::<FileAttr, FsError>(FsError::NotFound),
    {
        let node_idx = self.nid_get_from_name(name);
        proof {
            self.lemma_named_file_has_inode(name@);
            self.lemma_wf_facts(self.ino_of_name(name@));
        }
        if node_idx != INVALID_INO {
            Ok(self.file_inode[node_idx])
        } else {
            Err(FsError::NotFound)
        }
    }

    /// The attributes of inode `ino`: the root directory for 1, a file's inode for
    /// the number of a file, `NotFound` otherwise.
    pub fn getattr(&self, ino: u64) -> (r: Result<FileAttr, FsError>)
        requires
            self.wf(),
        ensures
            ino == HELLO_DIR_INO ==> r == Ok::<FileAttr, FsError>(self.dir_inode),
            ino != HELLO_DIR_INO && has_ino(self.file_inode@, ino) ==> r == Ok::<FileAttr, FsError>(
                self.file_inode@[self.index_of_ino(ino)],
            ),
            ino != HELLO_DIR_INO && !has_ino(self.file_inode@, ino) ==> r == Err::<FileAttr, FsError>(
                FsError::NotFound,
            ),
    {
        proof { self.lemma_wf_facts(ino); }
        if ino == HELLO_DIR_INO {
            Ok(self.dir_inode)
        } else {
            let node_idx = exists_ino(&self.file_inode, ino);
            if node_idx != INVALID_INO {
                Ok(self.file_inode[node_idx])
            } else {
                Err(FsError::NotFound)
            }
        }
    }

    /// The attributes of the file numbered `ino`, which must exist.
    pub fn setattr(&self, ino: u64) -> (r: FileAttr)
        requires
            self.wf(),
            has_ino(self.file_inode@, ino),
        ensures
            r == self.file_inode@[self.index_of_ino(ino)],
    {
        proof { self.lemma_wf_facts(ino); }
        let node_idx = exists_ino(&self.file_inode, ino);
        self.file_inode[node_idx]
    }

    /// The inputs on which `read` answers: for a file read at a nonnegative offset,
    /// the number must belong to a file and the offset lie within its block.
    pub open spec fn read_defined(&self, ino: u64, offset: i64, size: u32) -> bool {
        (ino >= 2 && offset >= 0) ==> {
            &&& self.block_index_of(ino) < self.block_infos@.len()
            &&& offset <= self.block_infos@[self.block_index_of(ino)].bbox@.len()
            &&& offset + size <= i64::MAX
        }
    }

    /// Whether `read` answers on these inputs.
    pub fn can_read(&self, ino: u64, offset: i64, size: u32) -> (r: bool)
        requires
            self.wf(),
        ensures
            r == self.read_defined(ino, offset, size),
    {
        if ino >= 2 && offset >= 0 {
            proof { self.lemma_wf_facts(ino); }
            let info_idx = info_idx_get(&self.file_inode, ino);
            if info_idx >= self.block_infos.len() {
                return false;
            }
            let sz = self.block_infos[info_idx].size();
            offset as u64 <= sz as u64 && offset as u64 + size as u64 <= i64::MAX as u64
        } else {
            true
        }
    }

    /// Up to `size` bytes of file `ino` from `offset`, cut off at the end of the
    /// file; `NotFound` for an inode number below 2 or a negative offset.
    pub fn read(&self, ino: u64, offset: i64, size: u32) -> (r: Result<&[u8], FsError>)
        requires
            self.wf(),
            self.read_defined(ino, offset, size),
        ensures
            !(ino >= 2 && offset >= 0) ==> r == Err::<&[u8], FsError>(FsError::NotFound),
            (ino >= 2 && offset >= 0) ==> {
                &&& r is Ok
                &&& self.files().contains_key(ino)
                &&& r->Ok_0@ == self.files()[ino].1.subrange(
                    offset as int,
                    if offset + size <= self.files()[ino].1.len() {
                        offset + size
                    } else {
                        self.files()[ino].1.len() as int
                    },
                )
            },
    {
        if ino >= 2 && offset >= 0 {
            proof { self.lemma_wf_facts(ino); }
            let info_idx = info_idx_get(&self.file_inode, ino);
            Ok(self.block_infos[info_idx].bbox.read(offset, size))
        } else {
            Err(FsError::NotFound)
        }
    }

    /// Replacing a block by one with the same number, name, contents and handle keeps
    /// the state consistent and the files as they were.
    pub proof fn lemma_handle_update(&self, new: &HelloFs, k: int, b: BlockInfo)
        requires
            self.wf(),
            0 <= k < self.block_infos@.len(),
            b.ino == self.block_infos@[k].ino,
            b.name == self.block_infos@[k].name,
            b.bbox == self.block_infos@[k].bbox,
            b.fh == self.block_infos@[k].fh,
            new.file_inode@ == self.file_inode@,
            new.block_infos@ == self.block_infos@.update(k, b),
            new.fs_size == self.fs_size,
        ensures
            new.wf(),
            new.files() == self.files(),
    {
        lemma_total_size_update(self.block_infos@, k, b);
        assert(new.block_infos@.update(k, self.block_infos@[k]) =~= self.block_infos@);
        assert forall|b2: int| 0 <= b2 < new.block_infos@.len() implies {
            &&& exists|i: int| 0 <= i < new.file_inode@.len() && new.file_inode@[i].blocks == b2
            &&& new.block_infos@[b2].bbox@.len() >= 1
            &&& new.block_infos@[b2].fh != INVALID_FH
        } by {
            assert(self.block_infos@[b2].bbox@.len() >= 1);
        }
        assert forall|i: int| 0 <= i < new.file_inode@.len() implies {
            &&& (new.file_inode@[i].blocks as int) < new.file_inode@.len()
            &&& new.block_infos@[new.file_inode@[i].blocks as int].ino == new.file_inode@[i].ino
            &&& 2 <= new.file_inode@[i].ino <= u32::MAX
        } by {
            assert(self.file_inode@[i] == new.file_inode@[i]);
        }
        assert forall|ino: u64| #[trigger] new.files().contains_key(ino) implies new.files()[ino] == self.files()[ino] by {
            assert(new.index_of_ino(ino) == self.index_of_ino(ino));
        }
        assert(new.files() =~= self.files());
    }

    /// The inputs on which `open` answers: the number belongs to a file whose open
    /// count can still grow.
    pub open spec fn open_defined(&self, ino: u64) -> bool {
        &&& self.block_index_of(ino) < self.block_infos@.len()
        &&& self.block_infos@[self.block_index_of(ino)].read_cnt < 255
    }

    /// Whether `open` answers on these inputs.
    pub fn can_open(&self, ino: u64) -> (r: bool)
        requires
            self.wf(),
        ensures
            r == self.open_defined(ino),
    {
        proof { self.lemma_wf_facts(ino); }
        let info_idx = info_idx_get(&self.file_inode, ino);
        info_idx < self.block_infos.len() && self.block_infos[info_idx].read_cnt < 255
    }

    /// The inputs on which `open_with_access_bits` answers: the number belongs to a
    /// file whose open count can still grow, unless the open is refused.
    pub open spec fn open_with_bits_defined(&self, ino: u64, writes: bool) -> bool {
        &&& self.block_index_of(ino) < self.block_infos@.len()
        &&& !self.block_infos@[self.block_index_of(ino)].open_refused(writes)
            ==> self.block_infos@[self.block_index_of(ino)].read_cnt < 255
    }

    /// Opens file `ino` with `flags`, where `write_only` and `read_write` are the
    /// values of the flags that ask for writing: `Busy` when the open asks for writing
    /// and a writer holds the file (nothing changes), otherwise the open is counted
    /// and the file's handle comes back. The files stay as they were.
    pub fn open_with_access_bits(&mut self, ino: u64, flags: u32, write_only: i32, read_write: i32) -> (r: Result<u64, FsError>)
        requires
            old(self).wf(),
            old(self).open_with_bits_defined(ino, requests_write(flags, write_only, read_write)),
        ensures
            final(self).wf(),
            final(self).access == old(self).access,
            final(self).files() == old(self).files(),
            final(self).file_inode@ == old(self).file_inode@,
            final(self).dir_inode == old(self).dir_inode,
            final(self).fs_size == old(self).fs_size,
            ({
                let k = old(self).block_index_of(ino);
                let b = old(self).block_infos@[k];
                let writes = requests_write(flags, write_only, read_write);
                if b.open_refused(writes) {
                    r == Err::<u64, FsError>(FsError::Busy) && final(self).block_infos@ == old(self).block_infos@
                } else {
                    r == Ok::<u64, FsError>(b.fh as u64) && final(self).block_infos@
                        == old(self).block_infos@.update(k, b.after_open(writes))
                }
            }),
    {
        proof { old(self).lemma_wf_facts(ino); }
        let info_idx = info_idx_get(&self.file_inode, ino);
        let ghost k = info_idx as int;
        let ghost b = self.block_infos@[k];
        assert(b.fh != INVALID_FH);
        let fh = self.block_infos[info_idx].open_with_access_bits(flags, write_only, read_write);
        proof {
            old(self).lemma_handle_update(self, k, self.block_infos@[k]);
        }
        if fh == INVALID_FH {
            assert(self.block_infos@ =~= old(self).block_infos@);
            Err(FsError::Busy)
        } else {
            Ok(fh as u64)
        }
    }

    /// Opens file `ino` with `flags`, decoded with the platform's values of the flags
    /// that ask for writing recorded in `access`: `Busy` when the open asks for writing and a writer holds the
    /// file (nothing changes), otherwise the open is counted and the file's handle
    /// comes back; flags of 0 never ask for writing. The files stay as they were.
    pub fn open(&mut self, ino: u64, flags: u32) -> (r: Result<u64, FsError>)
        requires
            old(self).wf(),
            old(self).open_defined(ino),
        ensures
            final(self).wf(),
            final(self).access == old(self).access,
            final(self).files() == old(self).files(),
            final(self).file_inode@ == old(self).file_inode@,
            final(self).dir_inode == old(self).dir_inode,
            final(self).fs_size == old(self).fs_size,
            ({
                let k = old(self).block_index_of(ino);
                let b = old(self).block_infos@[k];
                ||| (r == Err::<u64, FsError>(FsError::Busy) && b.is_writing && final(self).block_infos@
                    == old(self).block_infos@)
                ||| (r == Ok::<u64, FsError>(b.fh as u64) && final(self).block_infos@
                    == old(self).block_infos@.update(k, b.after_open(false)))
                ||| (r == Ok::<u64, FsError>(b.fh as u64) && final(self).block_infos@
                    == old(self).block_infos@.update(k, b.after_open(true)))
            }),
            flags == 0 ==> ({
                let k = old(self).block_index_of(ino);
                let b = old(self).block_infos@[k];
                r == Ok::<u64, FsError>(b.fh as u64) && final(self).block_infos@
                    == old(self).block_infos@.update(k, b.after_open(false))
            }),
            ({
                let k = old(self).block_index_of(ino);
                let b = old(self).block_infos@[k];
                let writes = requests_write(flags, old(self).access.write_only, old(self).access.read_write);
                &&& final(self).block_infos@.len() == old(self).block_infos@.len()
                &&& forall|j: int| 0 <= j < old(self).block_infos@.len() && j != k
                    ==> final(self).block_infos@[j] == old(self).block_infos@[j]
                &&& (writes && b.is_writing) ==> {
                    &&& r == Err::<u64, FsError>(FsError::Busy)
                    &&& final(self).block_infos@[k] == b
                }
                &&& !(writes && b.is_writing) ==> {
                    &&& r == Ok::<u64, FsError>(b.fh as u64)
                    &&& final(self).block_infos@[k].is_writing == (b.is_writing || writes)
                    &&& final(self).block_infos@[k].read_cnt == b.read_cnt + 1
                    &&& final(self).block_infos@[k].fh == b.fh
                    &&& final(self).block_infos@[k].ino == b.ino
                    &&& final(self).block_infos@[k].name == b.name
                    &&& final(self).block_infos@[k].bbox == b.bbox
                }
            }),
    {
        let write_only = self.access.write_only;
        let read_write = self.access.read_write;
        proof {
            lemma_no_flags_no_write(write_only, read_write);
        }
        self.open_with_access_bits(ino, flags, write_only, read_write)
    }

    /// The inputs on which `release` answers: the number belongs to a file that is
    /// open, and `fh` is its handle.
    pub open spec fn release_defined(&self, ino: u64, fh: u64) -> bool {
        &&& self.block_index_of(ino) < self.block_infos@.len()
        &&& self.block_infos@[self.block_index_of(ino)].read_cnt > 0
        &&& fh == self.block_infos@[self.block_index_of(ino)].fh as u64
    }

    /// Whether `release` answers on these inputs.
    pub fn can_release(&self, ino: u64, fh: u64) -> (r: bool)
        requires
            self.wf(),
        ensures
            r == self.release_defined(ino, fh),
    {
        proof { self.lemma_wf_facts(ino); }
        let info_idx = info_idx_get(&self.file_inode, ino);
        info_idx < self.block_infos.len() && self.block_infos[info_idx].read_cnt > 0
            && fh == self.block_infos[info_idx].fh as u64
    }

    /// Closes an open of file `ino` through its handle `fh`. The files stay as they were.
    pub fn release(&mut self, ino: u64, fh: u64)
        requires
            old(self).wf(),
            old(self).release_defined(ino, fh),
        ensures
            final(self).wf(),
            final(self).access == old(self).access,
            final(self).files() == old(self).files(),
            final(self).file_inode@ == old(self).file_inode@,
            final(self).dir_inode == old(self).dir_inode,
            ({
                let k = old(self).block_index_of(ino);
                final(self).block_infos@ == old(self).block_infos@.update(
                    k,
                    old(self).block_infos@[k].after_close(),
                )
            }),
    {
        proof { old(self).lemma_wf_facts(ino); }
        let info_idx = info_idx_get(&self.file_inode, ino);
        self.block_infos[info_idx].close(fh);
        proof {
            old(self).lemma_handle_update(self, info_idx as int, self.block_infos@[info_idx as int]);
        }
    }

    /// Replacing block `k` by one with the same number and handle and at least one
    /// byte, while the inodes keep their numbers and block indices and `fs_size` is
    /// the new total, keeps the state consistent and changes only the file of that
    /// number, to the new block's name and contents.
    #[verifier::spinoff_prover]
    pub proof fn lemma_block_update(&self, new: &HelloFs, k: int, b: BlockInfo)
        requires
            self.wf(),
            0 <= k < self.block_infos@.len(),
            b.ino == self.block_infos@[k].ino,
            b.fh == self.block_infos@[k].fh,
            b.bbox@.len() >= 1,
            new.file_inode@.len() == self.file_inode@.len(),
            forall|i: int|
                0 <= i < self.file_inode@.len() ==> new.file_inode@[i].ino == self.file_inode@[i].ino
                    && new.file_inode@[i].blocks == self.file_inode@[i].blocks,
            new.block_infos@ == self.block_infos@.update(k, b),
            new.fs_size == total_size(new.block_infos@),
        ensures
            new.wf(),
            new.files() == self.files().insert(b.ino, (b.name@, b.bbox@)),
    {
        let n = self.file_inode@.len();
        assert forall|b2: int| 0 <= b2 < n implies {
            &&& exists|i: int| 0 <= i < n && new.file_inode@[i].blocks == b2
            &&& new.block_infos@[b2].bbox@.len() >= 1
            &&& new.block_infos@[b2].fh != INVALID_FH
        } by {
            assert(self.block_infos@[b2].bbox@.len() >= 1);
            let i = choose|i: int| 0 <= i < n && self.file_inode@[i].blocks == b2;
            assert(new.file_inode@[i].blocks == b2);
        }
        assert forall|i: int| 0 <= i < n implies {
            &&& (new.file_inode@[i].blocks as int) < n
            &&& new.block_infos@[new.file_inode@[i].blocks as int].ino == new.file_inode@[i].ino
            &&& 2 <= new.file_inode@[i].ino <= u32::MAX
        } by {
            assert(self.file_inode@[i].blocks < n);
        }
        assert forall|i: int, j: int|
            0 <= i < n && 0 <= j < n && i != j implies new.file_inode@[i].ino != new.file_inode@[j].ino by {
            assert(self.file_inode@[i].ino != self.file_inode@[j].ino);
        }
        let m = choose|i: int| 0 <= i < n && self.file_inode@[i].blocks == k;
        assert(self.file_inode@[m].ino == b.ino);
        assert forall|ino: u64| has_ino(new.file_inode@, ino) <==> has_ino(self.file_inode@, ino) by {
            if has_ino(new.file_inode@, ino) {
                let i = choose|i: int| 0 <= i < n && new.file_inode@[i].ino == ino;
                assert(self.file_inode@[i].ino == ino);
            }
            if has_ino(self.file_inode@, ino) {
                let i = choose|i: int| 0 <= i < n && self.file_inode@[i].ino == ino;
                assert(new.file_inode@[i].ino == ino);
            }
        }
        assert forall|ino: u64| #[trigger] new.files().contains_key(ino) implies new.files()[ino]
            == self.files().insert(b.ino, (b.name@, b.bbox@))[ino] by {
            self.lemma_wf_facts(ino);
            let i = new.index_of_ino(ino);
            assert(new.file_inode@[i].ino == ino);
            assert(self.file_inode@[i].ino == ino);
            assert(i == self.index_of_ino(ino));
            if ino == b.ino {
                assert(i == m);
            } else {
                assert(self.file_inode@[i].blocks != k);
            }
        }
        assert(new.files() =~= self.files().insert(b.ino, (b.name@, b.bbox@)));
    }

    /// The inputs on which `write` answers: for a write at a nonnegative offset to an
    /// inode number of at least 2, the number belongs to a file and the write into its
    /// block is within machine arithmetic and not refused.
    pub open spec fn write_request_defined(&self, ino: u64, offset: i64, len: nat) -> bool {
        (ino >= 2 && offset >= 0) ==> {
            &&& has_ino(self.file_inode@, ino)
            &&& write_defined(self.block_of(ino).bbox@.len(), self.fs_size, offset as int, len)
            &&& !write_refused(self.block_of(ino).bbox@.len(), self.fs_size, offset as int, len)
        }
    }

    /// Adds `size` to `fs_size`.
    fn fs_size_update(&mut self, size: i32)
        requires
            i32::MIN <= old(self).fs_size + size <= i32::MAX,
        ensures
            final(self).fs_size == old(self).fs_size + size,
            final(self).access == old(self).access,
            final(self).file_inode == old(self).file_inode,
            final(self).block_infos == old(self).block_infos,
            final(self).dir_inode == old(self).dir_inode,
    {
        self.fs_size += size;
    }

    /// Writes `data` at `offset` into block `info_idx`, adds the growth of the block
    /// to `fs_size` and records the end of the write as the size of the inode at
    /// `node_idx`.
    pub fn write_impl(&mut self, info_idx: usize, node_idx: usize, offset: i64, data: &[u8]) -> (r: u32)
        requires
            old(self).wf(),
            node_idx < old(self).file_inode@.len(),
            info_idx < old(self).block_infos@.len(),
            write_defined(old(self).block_infos@[info_idx as int].bbox@.len(), old(self).fs_size, offset as int, data@.len()),
            !write_refused(old(self).block_infos@[info_idx as int].bbox@.len(), old(self).fs_size, offset as int, data@.len()),
        ensures
            ({
                let b = old(self).block_infos@[info_idx as int];
                let size = b.bbox@.len();
                let contents = written(b.bbox@, grown_size(size, offset as int, data@.len()), data@, offset as int);
                &&& final(self).wf()
                &&& final(self).access == old(self).access
                &&& r == (offset + data@.len()) as u32
                &&& final(self).fs_size == old(self).fs_size + write_growth(size, offset as int, data@.len())
                &&& final(self).file_inode@ == old(self).file_inode@.update(
                    node_idx as int,
                    FileAttr { size: r as u64, ..old(self).file_inode@[node_idx as int] },
                )
                &&& final(self).block_infos@.len() == old(self).block_infos@.len()
                &&& final(self).block_infos@[info_idx as int].bbox@ == contents
                &&& final(self).block_infos@[info_idx as int].ino == b.ino
                &&& final(self).block_infos@[info_idx as int].name == b.name
                &&& final(self).block_infos@[info_idx as int].fh == b.fh
                &&& final(self).block_infos@[info_idx as int].read_cnt == b.read_cnt
                &&& final(self).block_infos@[info_idx as int].is_writing == b.is_writing
                &&& forall|j: int| 0 <= j < old(self).block_infos@.len() && j != info_idx
                    ==> final(self).block_infos@[j] == old(self).block_infos@[j]
                &&& final(self).files() == old(self).files().insert(b.ino, (b.name@, contents))
                &&& final(self).dir_inode == old(self).dir_inode
            }),
    {
        proof {
            old(self).lemma_wf_facts(0);
            lemma_write_growth(old(self).block_infos@[info_idx as int].bbox@.len(), old(self).fs_size, offset as int, data@.len());
        }
        let ret = self.block_infos[info_idx].bbox.write(self.fs_size, data, offset);
        proof {
            lemma_total_size_update(old(self).block_infos@, info_idx as int, self.block_infos@[info_idx as int]);
        }
        self.fs_size_update(ret.1);
        self.file_inode[node_idx].size = ret.2 as u64;
        proof {
            old(self).lemma_block_update(self, info_idx as int, self.block_infos@[info_idx as int]);
        }
        ret.2
    }

    /// Whether `write` answers on these inputs.
    pub fn can_write(&self, ino: u64, offset: i64, data: &[u8]) -> (r: bool)
        requires
            self.wf(),
        ensures
            r == self.write_request_defined(ino, offset, data@.len()),
    {
        if !(ino >= 2 && offset >= 0) {
            return true;
        }
        proof { self.lemma_wf_facts(ino); }
        let node_idx = exists_ino(&self.file_inode, ino);
        if node_idx == INVALID_INO {
            return false;
        }
        let info_idx = self.file_inode[node_idx].blocks as usize;
        let size = self.block_infos[info_idx].size();
        let end = offset as u128 + data.len() as u128;
        if end > usize::MAX as u128 {
            return false;
        }
        if (size as u128) < end {
            // the block has to grow
            if end + (BLOCK_UNIT as u128 - 1) > usize::MAX as u128 {
                return false;
            }
            let grown = ((end + (BLOCK_UNIT as u128 - 1)) / BLOCK_UNIT as u128) * BLOCK_UNIT as u128;
            let growth = grown - size as u128;
            // with a nonnegative fs_size, only the limit can refuse the growth
            self.fs_size as u128 + growth <= BLOCK_LIMIT as u128
        } else {
            true
        }
    }

    /// Writes `data` at `offset` into file `ino` and answers with the end position
    /// of the write; `NotSupported` for an inode number below 2 or a negative offset.
    pub fn write(&mut self, ino: u64, offset: i64, data: &[u8]) -> (r: Result<u32, FsError>)
        requires
            old(self).wf(),
            old(self).write_request_defined(ino, offset, data@.len()),
        ensures
            final(self).wf(),
            final(self).access == old(self).access,
            !(ino >= 2 && offset >= 0) ==> r == Err::<u32, FsError>(FsError::NotSupported) && *final(self) == *old(self),
            (ino >= 2 && offset >= 0) ==> {
                let b = old(self).block_of(ino);
                let size = b.bbox@.len();
                let contents = written(b.bbox@, grown_size(size, offset as int, data@.len()), data@, offset as int);
                let k = old(self).index_of_ino(ino);
                &&& r == Ok::<u32, FsError>((offset + data@.len()) as u32)
                &&& final(self).files() == old(self).files().insert(ino, (b.name@, contents))
                &&& final(self).fs_size == old(self).fs_size + write_growth(size, offset as int, data@.len())
                &&& final(self).file_inode@ == old(self).file_inode@.update(
                    k,
                    FileAttr { size: ((offset + data@.len()) as u32) as u64, ..old(self).file_inode@[k] },
                )
                &&& final(self).dir_inode == old(self).dir_inode
                &&& final(self).block_infos@.len() == old(self).block_infos@.len()
                &&& ({
                    let bi = old(self).block_index_of(ino);
                    let nb = final(self).block_infos@[bi];
                    &&& nb.bbox@ == contents
                    &&& nb.ino == b.ino
                    &&& nb.name == b.name
                    &&& nb.fh == b.fh
                    &&& nb.read_cnt == b.read_cnt
                    &&& nb.is_writing == b.is_writing
                    &&& forall|j: int| 0 <= j < old(self).block_infos@.len() && j != bi
                        ==> final(self).block_infos@[j] == old(self).block_infos@[j]
                })
            },
    {
        if ino >= 2 && offset >= 0 {
            proof { old(self).lemma_wf_facts(ino); }
            let node_idx = exists_ino(&self.file_inode, ino);
            let info_idx = self.file_inode[node_idx].blocks as usize;
            let fsize = self.write_impl(info_idx, node_idx, offset, data);
            Ok(fsize)
        } else {
            Err(FsError::NotSupported)
        }
    }

    /// Appending a block and an inode for a new number that no inode has, the inode
    /// pointing at the new block, keeps the state consistent and adds that file.
    #[verifier::spinoff_prover]
    #[verifier::rlimit(40)]
    pub proof fn lemma_push_file(&self, new: &HelloFs, name: Seq<char>)
        requires
            self.wf(),
            new.file_inode@.len() == self.file_inode@.len() + 1,
            new.block_infos@.len() == self.block_infos@.len() + 1,
            new.file_inode@.subrange(0, self.file_inode@.len() as int) == self.file_inode@,
            new.block_infos@.subrange(0, self.block_infos@.len() as int) == self.block_infos@,
            ({
                let n = self.file_inode@.len() as int;
                let a = new.file_inode@[n];
                let b = new.block_infos@[n];
                &&& a.blocks == n
                &&& a.ino == b.ino
                &&& 2 <= a.ino <= u32::MAX
                &&& !has_ino(self.file_inode@, a.ino)
                &&& b.bbox@.len() >= 1
                &&& b.fh != INVALID_FH
                &&& b.name@ == name
            }),
            new.fs_size == total_size(new.block_infos@),
        ensures
            new.wf(),
            new.files() == self.files().insert(
                new.file_inode@[self.file_inode@.len() as int].ino,
                (name, new.block_infos@[self.file_inode@.len() as int].bbox@),
            ),
    {
        let n = self.file_inode@.len();
        let ino = new.file_inode@[n as int].ino;
        let contents = new.block_infos@[n as int].bbox@;
        assert forall|i: int| 0 <= i < n implies new.file_inode@[i] == self.file_inode@[i] by {
            assert(new.file_inode@.subrange(0, n as int)[i] == new.file_inode@[i]);
        }
        assert forall|i: int| 0 <= i < n implies new.block_infos@[i] == self.block_infos@[i] by {
            assert(new.block_infos@.subrange(0, n as int)[i] == new.block_infos@[i]);
        }
        assert forall|i: int| 0 <= i < n + 1 implies {
            &&& (new.file_inode@[i].blocks as int) < n + 1
            &&& new.block_infos@[new.file_inode@[i].blocks as int].ino == new.file_inode@[i].ino
            &&& 2 <= new.file_inode@[i].ino <= u32::MAX
        } by {
            if i < n {
                assert(new.file_inode@[i] == self.file_inode@[i]);
                assert(self.file_inode@[i].blocks < n);
            }
        }
        assert forall|b: int| 0 <= b < n + 1 implies {
            &&& exists|i: int| 0 <= i < n + 1 && new.file_inode@[i].blocks == b
            &&& new.block_infos@[b].bbox@.len() >= 1
            &&& new.block_infos@[b].fh != INVALID_FH
        } by {
            if b < n {
                assert(self.block_infos@[b].bbox@.len() >= 1);
                let i = choose|i: int| 0 <= i < n && self.file_inode@[i].blocks == b;
                assert(new.file_inode@[i].blocks == b);
            } else {
                assert(new.file_inode@[n as int].blocks == b);
            }
        }
        assert forall|i: int, j: int|
            0 <= i < n + 1 && 0 <= j < n + 1 && i != j implies new.file_inode@[i].ino
                != new.file_inode@[j].ino by {
            if i < n && j < n {
                assert(self.file_inode@[i].ino != self.file_inode@[j].ino);
            } else if i < n {
                assert(self.file_inode@[i].ino != ino);
            } else if j < n {
                assert(self.file_inode@[j].ino != ino);
            }
        }
        assert(new.wf());
        assert forall|x: u64| has_ino(new.file_inode@, x) <==> (has_ino(self.file_inode@, x) || x == ino) by {
            if has_ino(new.file_inode@, x) {
                let i = choose|i: int| 0 <= i < n + 1 && new.file_inode@[i].ino == x;
                if i < n {
                    assert(self.file_inode@[i].ino == x);
                }
            }
            if has_ino(self.file_inode@, x) {
                let i = choose|i: int| 0 <= i < n && self.file_inode@[i].ino == x;
                assert(new.file_inode@[i].ino == x);
            }
        }
        assert forall|x: u64| #[trigger] new.files().contains_key(x) implies new.files()[x]
            == self.files().insert(ino, (name, contents))[x] by {
            new.lemma_wf_facts(x);
            let i = new.index_of_ino(x);
            if x == ino {
                assert(i == n);
            } else {
                self.lemma_wf_facts(x);
                let j = self.index_of_ino(x);
                assert(new.file_inode@[j].ino == x);
                assert(i == j);
                assert(self.file_inode@[j].blocks < n);
            }
        }
        assert(new.files() =~= self.files().insert(ino, (name, contents)));
    }

    /// The inputs on which `mknod_impl` answers: creating in the root directory needs
    /// room in `fs_size` for one more block.
    pub open spec fn mknod_defined(&self, parent: u64) -> bool {
        parent == HELLO_DIR_INO ==> self.fs_size + BLOCK_UNIT <= i32::MAX
    }

    /// Whether `mknod` answers: there is room in `fs_size` for one more block.
    pub fn can_mknod(&self) -> (r: bool)
        requires
            self.wf(),
        ensures
            r == self.mknod_defined(HELLO_DIR_INO),
    {
        self.fs_size <= i32::MAX - BLOCK_UNIT as i32
    }

    /// Creates the file `name` in directory `parent`. Only the root directory holds
    /// files: for another parent nothing changes and the answer is `(1, 0)`. Otherwise
    /// the new file gets the smallest number that no inode uses (counting 0 and 1 as
    /// used), a block of `BLOCK_UNIT` zero bytes at the end of `block_infos` and an
    /// inode of size 1 at the end of `file_inode`; the answer is its number and the
    /// index of its block.
    #[verifier::spinoff_prover]
    pub fn mknod_impl(&mut self, parent: u64, name: &str, _mode: u32, _rdev: u32) -> (r: (u64, usize))
        requires
            old(self).wf(),
            old(self).mknod_defined(parent),
        ensures
            final(self).wf(),
            final(self).access == old(self).access,
            parent != HELLO_DIR_INO ==> r == (HELLO_DIR_INO, 0usize) && *final(self) == *old(self),
            parent == HELLO_DIR_INO ==> {
                let n = old(self).file_inode@.len();
                let ino = r.0;
                &&& r.1 == n
                &&& 2 <= ino <= u32::MAX
                &&& !old(self).files().contains_key(ino)
                &&& !taken_inos(old(self).file_inode@).contains(ino as u32)
                &&& forall|m: u32| m < ino ==> taken_inos(old(self).file_inode@).contains(m)
                &&& final(self).files() == old(self).files().insert(ino, (name@, zeros(BLOCK_UNIT as nat)))
                &&& final(self).fs_size == old(self).fs_size + BLOCK_UNIT
                &&& final(self).file_inode@.len() == n + 1
                &&& final(self).file_inode@.subrange(0, n as int) == old(self).file_inode@
                &&& final(self).block_infos@.len() == n + 1
                &&& final(self).block_infos@.subrange(0, n as int) == old(self).block_infos@
                &&& ({
                    let a = final(self).file_inode@[n as int];
                    a == file_attr_spec(ino, 1, n as usize, a.uid, a.gid)
                })
                &&& ({
                    let b = final(self).block_infos@[n as int];
                    &&& b.ino == ino
                    &&& b.name@ == name@
                    &&& b.bbox@ == zeros(BLOCK_UNIT as nat)
                    &&& b.fh != INVALID_FH
                    &&& b.read_cnt == 0
                    &&& !b.is_writing
                })
                &&& final(self).dir_inode == old(self).dir_inode
            },
    {
        if parent != HELLO_DIR_INO {
            return (HELLO_DIR_INO, 0);
        }
        let ghost old_fs = *old(self);
        proof {
            old_fs.lemma_wf_facts(0);
            lemma_free_ino_exists(old_fs.file_inode@);
        }
        let next_info = next_ino(&self.file_inode);
        let ino: u64 = next_info.ino as u64;
        let ghost taken = taken_inos(old_fs.file_inode@);
        proof {
            assert(taken[0] == 0u32 && taken[1] == 1u32);
            assert(taken.contains(0u32) && taken.contains(1u32));
            assert forall|i: int| 0 <= i < old_fs.file_inode@.len() implies old_fs.file_inode@[i].ino != ino by {
                assert(taken[i + 2] == old_fs.file_inode@[i].ino as u32);
                assert(taken.contains(old_fs.file_inode@[i].ino as u32));
            }
        }

        let fname = name.to_owned();
        self.block_infos.push(create(fname, ino));
        let info_idx = self.block_infos.len() - 1;
        self.file_inode.push(inode_data_create(ino, 1, info_idx));
        proof {
            lemma_total_size_push(old_fs.block_infos@, self.block_infos@[info_idx as int]);
        }
        self.fs_size_update(BLOCK_UNIT as i32);
        proof {
            let n = old_fs.file_inode@.len() as int;
            assert(self.file_inode@.subrange(0, n) =~= old_fs.file_inode@);
            assert(self.block_infos@.subrange(0, n) =~= old_fs.block_infos@);
            old_fs.lemma_push_file(&*self, name@);
        }
        (ino, info_idx)
    }

    /// Creates the file `name` in the root directory, whatever `parent` says, and
    /// answers with its attributes.
    pub fn mknod(&mut self, parent: u64, name: &str, mode: u32, rdev: u32) -> (r: Result<FileAttr, FsError>)
        requires
            old(self).wf(),
            old(self).mknod_defined(HELLO_DIR_INO),
        ensures
            final(self).wf(),
            final(self).access == old(self).access,
            ({
                let n = old(self).file_inode@.len();
                let ino = final(self).file_inode@[n as int].ino;
                &&& final(self).file_inode@.len() == n + 1
                &&& final(self).file_inode@.subrange(0, n as int) == old(self).file_inode@
                &&& r == Ok::<FileAttr, FsError>(final(self).file_inode@[n as int])
                &&& !old(self).files().contains_key(ino)
                &&& forall|m: u32| m < ino ==> taken_inos(old(self).file_inode@).contains(m)
                &&& !taken_inos(old(self).file_inode@).contains(ino as u32)
                &&& final(self).files() == old(self).files().insert(ino, (name@, zeros(BLOCK_UNIT as nat)))
                &&& final(self).fs_size == old(self).fs_size + BLOCK_UNIT
                &&& final(self).dir_inode == old(self).dir_inode
                &&& final(self).block_infos@.len() == n + 1
                &&& final(self).block_infos@.subrange(0, n as int) == old(self).block_infos@
                &&& ({
                    let a = final(self).file_inode@[n as int];
                    a == file_attr_spec(ino, 1, n as usize, a.uid, a.gid)
                })
                &&& ({
                    let b = final(self).block_infos@[n as int];
                    &&& b.ino == ino
                    &&& b.name@ == name@
                    &&& b.bbox@ == zeros(BLOCK_UNIT as nat)
                    &&& b.fh != INVALID_FH
                    &&& b.read_cnt == 0
                    &&& !b.is_writing
                })
            }),
    {
        let ret = self.mknod_impl(HELLO_DIR_INO, name, 0, 0);
        if ret.0 != HELLO_DIR_INO {
            Ok(self.file_inode[ret.1])
        } else {
            Err(FsError::NotFound)
        }
    }

    /// When the block of the inode at `k` is not the last block, the inode of the
    /// last block is another one, so it is still there once the inode at `k` is gone.
    pub proof fn lemma_last_block_owner(&self, k: int)
        requires
            self.wf(),
            0 <= k < self.file_inode@.len(),
            self.file_inode@[k].blocks != self.file_inode@.len() - 1,
        ensures
            has_ino(self.file_inode@.remove(k), self.block_infos@.last().ino),
    {
        let n = self.file_inode@.len();
        assert(self.block_infos@[n - 1].bbox@.len() >= 1);
        let om = choose|i: int| 0 <= i < n && self.file_inode@[i].blocks == n - 1;
        assert(om != k);
        let fi = self.file_inode@.remove(k);
        let m = if om < k { om } else { om - 1 };
        assert(fi[m] == self.file_inode@[om]);
    }

    /// The condition on the state after taking out the inode at `k` and its block:
    /// the last block has moved into the freed slot (its inode, at `m` once the inode
    /// at `k` is gone, now pointing there as `a`), and `fs_size` is the new total.
    pub open spec fn unlinked_from(&self, new: &HelloFs, k: int, m: int, a: FileAttr) -> bool {
        let n = self.file_inode@.len() as int;
        let b = self.file_inode@[k].blocks as int;
        let fi = self.file_inode@.remove(k);
        &&& 0 <= k < n
        &&& new.block_infos@ == self.block_infos@.update(b, self.block_infos@.last()).drop_last()
        &&& new.fs_size == total_size(new.block_infos@)
        &&& b == n - 1 ==> new.file_inode@ == fi
        &&& b != n - 1 ==> {
            &&& 0 <= m < n - 1
            &&& fi[m].ino == self.block_infos@.last().ino
            &&& a.ino == fi[m].ino
            &&& a.blocks == b
            &&& new.file_inode@ == fi.update(m, a)
        }
    }

    /// Where the inodes of the state after an unlink come from: the inode at `i`
    /// is the old one at `i` or `i + 1`, with its block index kept or, for the moved
    /// block's inode, now the freed slot; and the blocks it points to are the same.
    proof fn lemma_unlink_inode(&self, new: &HelloFs, k: int, m: int, a: FileAttr, i: int)
        requires
            self.wf(),
            self.unlinked_from(new, k, m, a),
            0 <= i < self.file_inode@.len() - 1,
        ensures
            ({
                let oi = if i < k { i } else { i + 1 };
                let b = self.file_inode@[k].blocks as int;
                &&& new.file_inode@[i].ino == self.file_inode@[oi].ino
                &&& oi != k
                &&& (new.file_inode@[i].blocks as int) < self.file_inode@.len() - 1
                &&& new.block_infos@[new.file_inode@[i].blocks as int]
                    == self.block_infos@[self.file_inode@[oi].blocks as int]
            }),
    {
        let n = self.file_inode@.len() as int;
        let b = self.file_inode@[k].blocks as int;
        let l = n - 1;
        let fi = self.file_inode@.remove(k);
        let oi = if i < k { i } else { i + 1 };
        assert(fi[i] == self.file_inode@[oi]);
        let gone = self.file_inode@[k].ino;
        if b != l {
            let om = if m < k { m } else { m + 1 };
            assert(fi[m] == self.file_inode@[om]);
            assert(self.block_infos@[l].bbox@.len() >= 1);
            let w = choose|w: int| 0 <= w < n && self.file_inode@[w].blocks == l;
            assert(self.file_inode@[w].ino == self.block_infos@[l].ino);
            assert(w == om);
            if i == m {
                assert(new.block_infos@[b] == self.block_infos@[l]);
            } else {
                let bb = self.file_inode@[oi].blocks as int;
                assert(new.file_inode@[i] == fi[i]);
                assert(oi != om);
                assert(self.file_inode@[oi].ino != self.file_inode@[om].ino);
                assert(self.file_inode@[oi].ino != gone);
                assert(bb != b);
                assert(bb != l);
                assert(new.block_infos@[bb] == self.block_infos@[bb]);
            }
        } else {
            let bb = self.file_inode@[oi].blocks as int;
            assert(new.file_inode@[i] == fi[i]);
            assert(self.file_inode@[oi].ino != gone);
            assert(bb != b);
            assert(new.block_infos@[bb] == self.block_infos@[bb]);
        }
    }

    /// The state after an unlink is consistent.
    #[verifier::spinoff_prover]
    pub proof fn lemma_unlink_wf(&self, new: &HelloFs, k: int, m: int, a: FileAttr)
        requires
            self.wf(),
            self.unlinked_from(new, k, m, a),
        ensures
            new.wf(),
    {
        let n = self.file_inode@.len() as int;
        let b = self.file_inode@[k].blocks as int;
        let fi = self.file_inode@.remove(k);
        let l = n - 1;
        assert(b < n);
        assert forall|i: int| 0 <= i < n - 1 implies {
            &&& (new.file_inode@[i].blocks as int) < n - 1
            &&& new.block_infos@[new.file_inode@[i].blocks as int].ino == new.file_inode@[i].ino
            &&& 2 <= new.file_inode@[i].ino <= u32::MAX
        } by {
            self.lemma_unlink_inode(new, k, m, a, i);
            let oi = if i < k { i } else { i + 1 };
            assert(self.file_inode@[oi].blocks < n);
        }
        assert forall|i: int, j: int|
            0 <= i < n - 1 && 0 <= j < n - 1 && i != j implies new.file_inode@[i].ino
                != new.file_inode@[j].ino by {
            self.lemma_unlink_inode(new, k, m, a, i);
            self.lemma_unlink_inode(new, k, m, a, j);
            let oi = if i < k { i } else { i + 1 };
            let oj = if j < k { j } else { j + 1 };
            assert(self.file_inode@[oi].ino != self.file_inode@[oj].ino);
        }
        assert forall|j: int| 0 <= j < n - 1 implies {
            &&& exists|i: int| 0 <= i < n - 1 && new.file_inode@[i].blocks == j
            &&& new.block_infos@[j].bbox@.len() >= 1
            &&& new.block_infos@[j].fh != INVALID_FH
        } by {
            assert(self.block_infos@[j].bbox@.len() >= 1);
            assert(self.block_infos@[l].bbox@.len() >= 1);
            if b != l && j == b {
                assert(new.file_inode@[m].blocks == j);
            } else {
                let w = choose|i: int| 0 <= i < n && self.file_inode@[i].blocks == j;
                assert(w != k);
                let nw = if w < k { w } else { w - 1 };
                assert(fi[nw] == self.file_inode@[w]);
                if b != l {
                    let om = if m < k { m } else { m + 1 };
                    assert(fi[m] == self.file_inode@[om]);
                    let v = choose|v: int| 0 <= v < n && self.file_inode@[v].blocks == l;
                    assert(self.file_inode@[v].ino == self.block_infos@[l].ino);
                    assert(v == om);
                    assert(w != om);
                    assert(nw != m);
                }
                assert(new.file_inode@[nw].blocks == j);
            }
        }
    }

    /// After an unlink the files are the old ones without the one at `k`.
    #[verifier::spinoff_prover]
    pub proof fn lemma_unlink_files(&self, new: &HelloFs, k: int, m: int, a: FileAttr)
        requires
            self.wf(),
            new.wf(),
            self.unlinked_from(new, k, m, a),
        ensures
            new.files() == self.files().remove(self.file_inode@[k].ino),
    {
        let n = self.file_inode@.len() as int;
        let fi = self.file_inode@.remove(k);
        let gone = self.file_inode@[k].ino;
        assert forall|x: u64| has_ino(new.file_inode@, x) <==> (has_ino(self.file_inode@, x) && x != gone) by {
            if has_ino(new.file_inode@, x) {
                let i = choose|i: int| 0 <= i < n - 1 && new.file_inode@[i].ino == x;
                self.lemma_unlink_inode(new, k, m, a, i);
                let oi = if i < k { i } else { i + 1 };
                assert(self.file_inode@[oi].ino != gone);
            }
            if has_ino(self.file_inode@, x) && x != gone {
                let oi = choose|i: int| 0 <= i < n && self.file_inode@[i].ino == x;
                assert(oi != k);
                let i = if oi < k { oi } else { oi - 1 };
                self.lemma_unlink_inode(new, k, m, a, i);
                assert(new.file_inode@[i].ino == x);
            }
        }
        assert forall|x: u64| #[trigger] new.files().contains_key(x) implies new.files()[x]
            == self.files().remove(gone)[x] by {
            new.lemma_wf_facts(x);
            self.lemma_wf_facts(x);
            let i = new.index_of_ino(x);
            self.lemma_unlink_inode(new, k, m, a, i);
            let oi = if i < k { i } else { i + 1 };
            assert(self.index_of_ino(x) == oi);
        }
        assert(new.files() =~= self.files().remove(gone));
    }

    /// Whether `unlink` answers: some file is named `name`.
    pub fn can_unlink(&self, name: &str) -> (r: bool)
        requires
            self.wf(),
        ensures
            r == has_name(self.block_infos@, name@),
    {
        proof {
            self.lemma_named_file_has_inode(name@);
            self.lemma_wf_facts(self.ino_of_name(name@));
        }
        self.nid_get_from_name(name) != INVALID_INO
    }

    /// Removes the first file named `name`: its inode leaves `file_inode`, its block
    /// leaves `block_infos` with the last block moving into its slot (and that block's
    /// inode pointing there, its size set to the block's size), and its size leaves
    /// `fs_size`.
    #[verifier::spinoff_prover]
    pub fn unlink(&mut self, name: &str)
        requires
            old(self).wf(),
            has_name(old(self).block_infos@, name@),
        ensures
            final(self).wf(),
            final(self).access == old(self).access,
            ({
                let ino = old(self).ino_of_name(name@);
                let k = old(self).index_of_ino(ino);
                let b = old(self).file_inode@[k].blocks as int;
                let n = old(self).file_inode@.len() as int;
                let fi = old(self).file_inode@.remove(k);
                let last = old(self).block_infos@.last();
                let m = choose|m: int| 0 <= m < n - 1 && fi[m].ino == last.ino;
                &&& old(self).files().contains_key(ino)
                &&& final(self).files() == old(self).files().remove(ino)
                &&& final(self).fs_size == old(self).fs_size - old(self).block_of(ino).bbox@.len()
                &&& final(self).block_infos@ == old(self).block_infos@.update(b, last).drop_last()
                &&& b == n - 1 ==> final(self).file_inode@ == fi
                &&& b != n - 1 ==> final(self).file_inode@ == fi.update(
                    m,
                    FileAttr { blocks: b as u64, size: last.bbox@.len() as u64, ..fi[m] },
                )
                &&& final(self).dir_inode == old(self).dir_inode
            }),
    {
        let ghost old_fs = *old(self);
        let ghost gone = old_fs.ino_of_name(name@);
        proof {
            old_fs.lemma_named_file_has_inode(name@);
            old_fs.lemma_wf_facts(gone);
        }
        let node_idx = self.nid_get_from_name(name);
        let info_idx = self.file_inode[node_idx].blocks as usize;
        let block_num = self.block_infos.len();
        let is_end_block = info_idx == block_num - 1;
        let rm_size = self.block_infos[info_idx].size();
        self.file_inode.remove(node_idx);
        self.block_infos.swap_remove(info_idx);
        let ghost mut m: int = 0;
        let ghost mut a: FileAttr = self.file_inode@[0int];
        if block_num > 1 && !is_end_block {
            proof {
                old_fs.lemma_last_block_owner(node_idx as int);
                assert(self.block_infos@[info_idx as int] == old_fs.block_infos@.last());
            }
            let ino = self.block_infos[info_idx].ino;
            let node_idx2 = exists_ino(&self.file_inode, ino);
            self.file_inode[node_idx2].blocks = info_idx as u64;
            self.file_inode[node_idx2].size = self.block_infos[info_idx].size() as u64;
            proof {
                m = node_idx2 as int;
                a = self.file_inode@[m];
            }
        }
        proof {
            lemma_total_size_update(old_fs.block_infos@, info_idx as int, old_fs.block_infos@.last());
            let upd = old_fs.block_infos@.update(info_idx as int, old_fs.block_infos@.last());
            assert(upd.last() == old_fs.block_infos@.last());
            assert(total_size(self.block_infos@) == old_fs.fs_size - rm_size);
        }
        self.fs_size_update(-(rm_size as i32));
        proof {
            let fi = old_fs.file_inode@.remove(node_idx as int);
            if block_num > 1 && !is_end_block {
                assert(self.file_inode@ =~= fi.update(m, a));
                let mc = choose|mc: int| 0 <= mc < block_num - 1 && fi[mc].ino == old_fs.block_infos@.last().ino;
                assert forall|p: int, q: int| 0 <= p < block_num - 1 && 0 <= q < block_num - 1 && p != q
                    implies fi[p].ino != fi[q].ino by {
                    let op = if p < node_idx { p } else { p + 1 };
                    let oq = if q < node_idx { q } else { q + 1 };
                    assert(fi[p] == old_fs.file_inode@[op]);
                    assert(fi[q] == old_fs.file_inode@[oq]);
                }
                assert(mc == m);
            }
            assert(old_fs.unlinked_from(&*self, node_idx as int, m, a));
            old_fs.lemma_unlink_wf(&*self, node_idx as int, m, a);
            old_fs.lemma_unlink_files(&*self, node_idx as int, m, a);
            if !(block_num > 1 && !is_end_block) {
                assert(info_idx == block_num - 1);
            }
        }
    }

    /// Entry `j` of the root directory listing: `.` and `..` for the directory itself,
    /// then one regular-file entry per block, in order.
    pub open spec fn dir_entry(&self, j: int) -> (u64, FileType, Seq<char>) {
        if j == 0 {
            (HELLO_DIR_INO, FileType::Directory, seq!['.'])
        } else if j == 1 {
            (HELLO_DIR_INO, FileType::Directory, seq!['.', '.'])
        } else {
            (self.block_infos@[j - 2].ino, FileType::RegularFile, self.block_infos@[j - 2].name@)
        }
    }

    /// The listing of the root directory from position `offset` on (a negative
    /// `offset`, taken as a `usize`, skips everything): each entry with its inode
    /// number, the position of the entry after it, its kind and its name. `NotFound`
    /// for any other inode.
    pub fn readdir(&self, ino: u64, offset: i64) -> (r: Result<Vec<(u64, i64, FileType, &str)>, FsError>)
        requires
            self.wf(),
        ensures
            ino != HELLO_DIR_INO ==> r is Err && r->Err_0 == FsError::NotFound,
            ino == HELLO_DIR_INO ==> {
                let total = self.block_infos@.len() + 2;
                let skip = (offset as usize) as int;
                &&& r is Ok
                &&& r->Ok_0@.len() == if skip < total { total - skip } else { 0 }
                &&& forall|k: int|
                    #![trigger r->Ok_0@[k]]
                    0 <= k < r->Ok_0@.len() ==> {
                        let e = r->Ok_0@[k];
                        let d = self.dir_entry(skip + k);
                        &&& e.0 == d.0
                        &&& e.1 == skip + k + 1
                        &&& e.2 == d.1
                        &&& e.3@ == d.2
                    }
                &&& forall|k: int|
                    #![trigger r->Ok_0@[k]]
                    0 <= k < r->Ok_0@.len() ==> {
                        let e = r->Ok_0@[k];
                        &&& skip + k == 0 ==> e.0 == HELLO_DIR_INO && e.2 == FileType::Directory
                            && e.3@ == seq!['.']
                        &&& skip + k == 1 ==> e.0 == HELLO_DIR_INO && e.2 == FileType::Directory
                            && e.3@ == seq!['.', '.']
                        &&& skip + k >= 2 ==> {
                            &&& e.0 == self.block_infos@[skip + k - 2].ino
                            &&& e.2 == FileType::RegularFile
                            &&& e.3@ == self.block_infos@[skip + k - 2].name@
                        }
                    }
                &&& offset == 0 ==> {
                    &&& r->Ok_0@.len() == self.block_infos@.len() + 2
                    &&& forall|j: int|
                        #![trigger self.block_infos@[j]]
                        0 <= j < self.block_infos@.len() ==> {
                            let e = r->Ok_0@[j + 2];
                            &&& e.0 == self.block_infos@[j].ino
                            &&& e.1 == j + 3
                            &&& e.2 == FileType::RegularFile
                            &&& e.3@ == self.block_infos@[j].name@
                        }
                }
            },
    {
        if ino != HELLO_DIR_INO {
            return Err(FsError::NotFound);
        }
        proof { self.lemma_wf_facts(0); }
        let mut entries: Vec<(u64, FileType, &str)> = Vec::new();
        entries.push((HELLO_DIR_INO, FileType::Directory, "."));
        entries.push((HELLO_DIR_INO, FileType::Directory, ".."));
        proof {
            reveal_strlit(".");
            reveal_strlit("..");
            assert(entries@[0].2@ =~= seq!['.']);
            assert(entries@[1].2@ =~= seq!['.', '.']);
        }
        let ghost listed = entries@;
        crate::hello_block_info::readdir(&mut entries, &self.block_infos);
        let ghost all = entries@;
        proof {
            assert forall|j: int| #![trigger all[j]] 0 <= j < all.len() implies {
                let d = self.dir_entry(j);
                &&& all[j].0 == d.0
                &&& all[j].1 == d.1
                &&& all[j].2@ == d.2
            } by {
                if j >= 2 {
                    assert(is_file_entry(all[2 + (j - 2)], self.block_infos@[j - 2]));
                } else {
                    assert(all[j] == listed[j]);
                }
            }
        }
        let skip = offset as usize;
        let mut out: Vec<(u64, i64, FileType, &str)> = Vec::new();
        let mut i: usize = skip;
        while i < entries.len()
            invariant
                entries@ == all,
                all.len() == self.block_infos@.len() + 2,
                all.len() <= i32::MAX + 2,
                skip <= i,
                i < all.len() ==> out@.len() == i - skip,
                i >= all.len() ==> out@.len() == if skip < all.len() { all.len() - skip } else { 0 },
                forall|j: int|
                    #![trigger all[j]]
                    0 <= j < all.len() ==> {
                    let d = self.dir_entry(j);
                    &&& all[j].0 == d.0
                    &&& all[j].1 == d.1
                    &&& all[j].2@ == d.2
                },
                forall|k: int|
                    #![trigger out@[k]]
                    0 <= k < out@.len() ==> {
                        let e = out@[k];
                        let d = self.dir_entry(skip + k);
                        &&& e.0 == d.0
                        &&& e.1 == skip + k + 1
                        &&& e.2 == d.1
                        &&& e.3@ == d.2
                    },
            decreases all.len() - i,
        {
            let e = entries[i];
            out.push((e.0, (i + 1) as i64, e.1, e.2));
            i = i + 1;
        }
        proof {
            if offset == 0 {
                assert(skip == 0);
                assert forall|j: int|
                    #![trigger self.block_infos@[j]]
                    0 <= j < self.block_infos@.len() implies {
                        let e = out@[j + 2];
                        &&& e.0 == self.block_infos@[j].ino
                        &&& e.1 == j + 3
                        &&& e.2 == FileType::RegularFile
                        &&& e.3@ == self.block_infos@[j].name@
                    } by {
                    assert(out@[j + 2] == out@[j + 2]);
                }
            }
        }
        Ok(out)
    }

    /// Whether `setattr` answers: some inode has number `ino`.
    pub fn can_setattr(&self, ino: u64) -> (r: bool)
        requires
            self.wf(),
        ensures
            r == has_ino(self.file_inode@, ino),
    {
        proof { self.lemma_wf_facts(ino); }
        exists_ino(&self.file_inode, ino) != INVALID_INO
    }

    /// A filesystem holding one file, `hello.txt` (inode 2), that says
    /// "hello hello world" and a newline.
    pub fn new() -> (r: HelloFs)
        ensures
            r.wf(),
            r.files() == map![2u64 => (hello_name(), hello_data() + zeros((BLOCK_UNIT - 18) as nat))],
            r.fs_size == BLOCK_UNIT,
            r.file_inode@.len() == 1,
            r.file_inode@[0] == file_attr_spec(2, 18, 0, r.file_inode@[0].uid, r.file_inode@[0].gid),
            r.block_infos@[0].ino == 2,
            r.block_infos@[0].fh != INVALID_FH,
            r.block_infos@[0].read_cnt == 0,
            !r.block_infos@[0].is_writing,
            r.dir_inode == dir_attr_spec(r.dir_inode.uid, r.dir_inode.gid),
    {
        let first_ino: u64 = HELLO_DIR_INO + 1;
        let first_info_idx: usize = 0;
        let first_node_idx: usize = 0;
        let name = "hello.txt";
        proof {
            reveal_strlit("hello.txt");
        }
        let mut file_inode: Vec<FileAttr> = Vec::new();
        file_inode.push(inode_data_create(first_ino, 1, first_info_idx));
        let mut block_infos: Vec<BlockInfo> = Vec::new();
        block_infos.push(create(name.to_owned(), first_ino));
        let access = AccessBits { write_only: write_only_flag(), read_write: read_write_flag() };
        let mut hello_fs = HelloFs { dir_inode: dir_attr_get(), file_inode, block_infos, fs_size: 0, access };
        proof {
            let s = hello_fs.block_infos@;
            assert(s.drop_last() =~= Seq::<BlockInfo>::empty());
            assert(total_size(s.drop_last()) == 0);
            assert(total_size(s) == BLOCK_UNIT);
        }
        hello_fs.fs_size_update(hello_fs.block_infos[first_info_idx].size() as i32);
        proof {
            let fs = hello_fs;
            assert(fs.file_inode@[0].blocks == 0);
            assert(fs.block_infos@[0].bbox@.len() >= 1);
            assert(fs.wf());
            assert(has_ino(fs.file_inode@, 2));
        }
        let ghost before = hello_fs;
        let data: [u8; 18] = [
            0x68, 0x65, 0x6c, 0x6c, 0x6f, 0x20,
            0x68, 0x65, 0x6c, 0x6c, 0x6f, 0x20,
            0x77, 0x6f, 0x72, 0x6c, 0x64, 0x0a,
        ];
        let written_size = hello_fs.write_impl(first_info_idx, first_node_idx, 0, data.as_slice());
        let ghost mid = hello_fs;
        hello_fs.file_inode[first_node_idx].size = written_size as u64;
        proof {
            let fs = hello_fs;
            assert(data@ =~= hello_data());
            let contents = written(zeros(BLOCK_UNIT as nat), BLOCK_UNIT as int, hello_data(), 0);
            assert(contents =~= hello_data() + zeros((BLOCK_UNIT - 18) as nat));
            assert(fs.block_infos@ =~= mid.block_infos@.update(0, mid.block_infos@[0]));
            mid.lemma_block_update(&fs, 0, mid.block_infos@[0]);
            before.lemma_wf_facts(2);
            assert forall|x: u64| has_ino(before.file_inode@, x) <==> x == 2 by {
                if has_ino(before.file_inode@, x) {
                    let i = choose|i: int| 0 <= i < 1 && before.file_inode@[i].ino == x;
                    assert(i == 0);
                }
                if x == 2 {
                    assert(before.file_inode@[0].ino == x);
                }
            }
            assert(before.block_infos@[0].name@ == hello_name());
            assert(before.files() =~= map![2u64 => (hello_name(), zeros(BLOCK_UNIT as nat))]);
            assert(fs.files() =~= map![2u64 => (hello_name(), contents)]);
        }
        hello_fs
    }
}

/// What a write into a file leaves for a read: once `write` put `data` at `offset`
/// into file `ino` (the state going from `before` to `after`), the file reaches past
/// the written bytes, reading them back gives `data`, what the file held before
/// `offset` is kept, and everything after the written bytes is zero.
pub proof fn lemma_file_write_then_read(before: HelloFs, after: HelloFs, ino: u64, offset: i64, data: Seq<u8>)
    requires
        before.wf(),
        ino >= 2,
        offset >= 0,
        before.write_request_defined(ino, offset, data.len()),
        after.files() == before.files().insert(
            ino,
            (
                before.block_of(ino).name@,
                written(
                    before.block_of(ino).bbox@,
                    grown_size(before.block_of(ino).bbox@.len(), offset as int, data.len()),
                    data,
                    offset as int,
                ),
            ),
        ),
    ensures
        after.files().contains_key(ino),
        after.files()[ino].0 == before.files()[ino].0,
        offset + data.len() <= after.files()[ino].1.len(),
        after.files()[ino].1.subrange(offset as int, offset + data.len()) == data,
        forall|i: int|
            0 <= i < offset && i < before.files()[ino].1.len() ==> after.files()[ino].1[i]
                == before.files()[ino].1[i],
        forall|i: int|
            offset + data.len() <= i < after.files()[ino].1.len() ==> after.files()[ino].1[i] == 0u8,
{
    before.lemma_wf_facts(ino);
    lemma_write_then_read(before.block_of(ino).bbox@, before.fs_size, data, offset as int);
}

/// A name that no file had before a file of that name was appended resolves to the
/// appended file: once `mknod` added `name` to a directory without it, `lookup` of
/// `name` finds the new file's number.
pub proof fn lemma_lookup_after_mknod(before: HelloFs, after: HelloFs, name: Seq<char>)
    requires
        !has_name(before.block_infos@, name),
        after.block_infos@.len() == before.block_infos@.len() + 1,
        after.block_infos@.subrange(0, before.block_infos@.len() as int) == before.block_infos@,
        after.block_infos@[before.block_infos@.len() as int].name@ == name,
    ensures
        has_name(after.block_infos@, name),
        after.ino_of_name(name) == after.block_infos@[before.block_infos@.len() as int].ino,
{
    let n = before.block_infos@.len() as int;
    let s = after.block_infos@;
    assert forall|j: int| 0 <= j < n implies s[j].name@ != name by {
        assert(s.subrange(0, n)[j] == s[j]);
        assert(before.block_infos@[j].name@ != name);
    }
    assert(is_first_name_index(s, name, n));
    let f = first_name_index(s, name);
    assert(is_first_name_index(s, name, f));
    assert(f == n);
}

/// The name of the file a new filesystem holds.
pub open spec fn hello_name() -> Seq<char> {
    seq!['h', 'e', 'l', 'l', 'o', '.', 't', 'x', 't']
}

/// "hello hello world" and a newline, as bytes.
pub open spec fn hello_data() -> Seq<u8> {
    seq![
        0x68u8, 0x65, 0x6c, 0x6c, 0x6f, 0x20,
        0x68, 0x65, 0x6c, 0x6c, 0x6f, 0x20,
        0x77, 0x6f, 0x72, 0x6c, 0x64, 0x0a,
    ]
}

} // verus!
