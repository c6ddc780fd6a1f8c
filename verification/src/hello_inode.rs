//! Inode attributes and the lookups over the table of file inodes.

use vstd::prelude::*;
use crate::platform::{current_gid, current_uid, sort_u32};

verus! {

/// The index that `exists_ino` gives back when no inode has the number asked for.
pub const INVALID_INO: usize = 0xFFFFFFFF;

/// The block index that `info_idx_get` gives back when no inode has the number asked for.
pub const INVALID_BLOCK_ID: usize = 0xFFFFFFFF;

/// The kinds of directory entries this filesystem has.
#[derive(Clone, Copy, Debug, PartialEq, Eq, Structural)]
pub enum FileType {
    Directory,
    RegularFile,
}

/// The attributes of one inode. Its timestamps are always the epoch, so they are
/// not stored.
#[derive(Clone, Copy, Debug, PartialEq, Eq, Structural)]
pub struct FileAttr {
    pub ino: u64,
    pub size: u64,
    /// For a file, the index of its block in the filesystem's list of blocks.
    pub blocks: u64,
    pub kind: FileType,
    pub perm: u16,
    pub nlink: u32,
    pub uid: u32,
    pub gid: u32,
    pub rdev: u32,
    pub flags: u32,
}

/// The attributes of the root directory (inode 1) owned by user `uid` and group `gid`.
pub open spec fn dir_attr_spec(uid: u32, gid: u32) -> FileAttr {
    FileAttr {
        ino: 1,
        size: 0,
        blocks: 0xFFFFFFFF,
        kind: FileType::Directory,
        perm: 0o775,
        nlink: 1,
        uid: uid,
        gid: gid,
        rdev: 0,
        flags: 0,
    }
}

/// The attributes of a regular file numbered `ino` of `size` bytes whose block is at
/// `info_idx`, owned by user `uid` and group `gid`.
pub open spec fn file_attr_spec(ino: u64, size: u64, info_idx: usize, uid: u32, gid: u32) -> FileAttr {
    FileAttr {
        ino: ino,
        size: size,
        blocks: info_idx as u64,
        kind: FileType::RegularFile,
        perm: 0o644,
        nlink: 1,
        uid: uid,
        gid: gid,
        rdev: 0,
        flags: 0,
    }
}

/// The attributes of the root directory owned by user `uid` and group `gid`.
pub fn dir_attr_for(uid: u32, gid: u32) -> (r: FileAttr)
    ensures
        r == dir_attr_spec(uid, gid),
{
    FileAttr {
        ino: 1,
        size: 0,
        blocks: 0xFFFFFFFF,
        kind: FileType::Directory,
        perm: 0o775,
        nlink: 1,
        uid: uid,
        gid: gid,
        rdev: 0,
        flags: 0,
    }
}

/// The attributes of a regular file numbered `ino` of `size` bytes whose block is at
/// `info_idx`, owned by user `uid` and group `gid`.
pub fn file_attr_for(ino: u64, size: u64, info_idx: usize, uid: u32, gid: u32) -> (r: FileAttr)
    ensures
        r == file_attr_spec(ino, size, info_idx, uid, gid),
{
    FileAttr {
        ino: ino,
        size: size,
        blocks: info_idx as u64,
        kind: FileType::RegularFile,
        perm: 0o644,
        nlink: 1,
        uid: uid,
        gid: gid,
        rdev: 0,
        flags: 0,
    }
}

/// The attributes of the root directory (inode 1), owned by the user and group of
/// the running process (which depend on the process, so only the other fields are
/// fixed here; `dir_attr_for` states the owners exactly).
pub fn dir_attr_get() -> (r: FileAttr)
    ensures
        r == dir_attr_spec(r.uid, r.gid),
{
    dir_attr_for(current_uid(), current_gid())
}

/// The attributes of a regular file numbered `ino` of `size` bytes whose block is
/// at `info_idx`, owned by the user and group of the running process (which depend
/// on the process; `file_attr_for` states the owners exactly).
pub fn inode_data_create(ino: u64, size: u64, info_idx: usize) -> (r: FileAttr)
    ensures
        r == file_attr_spec(ino, size, info_idx, r.uid, r.gid),
{
    file_attr_for(ino, size, info_idx, current_uid(), current_gid())
}

/// Some inode of `inodes` has number `ino`.
pub open spec fn has_ino(inodes: Seq<FileAttr>, ino: u64) -> bool {
    exists|i: int| 0 <= i < inodes.len() && inodes[i].ino == ino
}

/// `i` is the first position in `inodes` of an inode numbered `ino`.
pub open spec fn is_first_ino_index(inodes: Seq<FileAttr>, ino: u64, i: int) -> bool {
    &&& 0 <= i < inodes.len()
    &&& inodes[i].ino == ino
    &&& forall|j: int| 0 <= j < i ==> inodes[j].ino != ino
}

/// The position of the first inode numbered `ino`, or `INVALID_INO` when there is none.
pub fn exists_ino(inodes: &Vec<FileAttr>, ino: u64) -> (r: usize)
    ensures
        has_ino(inodes@, ino) ==> is_first_ino_index(inodes@, ino, r as int),
        !has_ino(inodes@, ino) ==> r == INVALID_INO,
{
    let mut node_idx: usize = INVALID_INO;
    let mut i: usize = 0;
    while i < inodes.len()
        invariant
            i <= inodes.len(),
            node_idx == INVALID_INO,
            forall|j: int| 0 <= j < i ==> inodes@[j].ino != ino,
        decreases inodes.len() - i,
    {
        if inodes[i].ino == ino {
            node_idx = i;
            return node_idx;
        }
        i = i + 1;
    }
    node_idx
}

/// The block index stored in the first inode numbered `ino`, or `INVALID_BLOCK_ID`
/// when there is none.
pub fn info_idx_get(inodes: &Vec<FileAttr>, ino: u64) -> (r: usize)
    ensures
        forall|i: int| is_first_ino_index(inodes@, ino, i) ==> r == inodes@[i].blocks as usize,
        !has_ino(inodes@, ino) ==> r == INVALID_BLOCK_ID,
{
    let mut iid: usize = INVALID_BLOCK_ID;
    let mut i: usize = 0;
    while i < inodes.len()
        invariant
            i <= inodes.len(),
            iid == INVALID_BLOCK_ID,
            forall|j: int| 0 <= j < i ==> inodes@[j].ino != ino,
        decreases inodes.len() - i,
    {
        if inodes[i].ino == ino {
            iid = inodes[i].blocks as usize;
            return iid;
        }
        i = i + 1;
    }
    iid
}

/// The inode number `next_ino` picks and the count it reports next to it.
pub struct NextIno {
    pub ino: u32,
    pub index: u32,
}

/// The numbers that count as taken: 0 and 1, and the number of every inode cut to
/// 32 bits.
pub open spec fn taken_inos(inodes: Seq<FileAttr>) -> Seq<u32> {
    seq![0u32, 1u32] + inodes.map_values(|a: FileAttr| a.ino as u32)
}

/// While there are at most `u32::MAX - 2` inodes, some 32-bit number is not taken.
pub proof fn lemma_free_ino_exists(inodes: Seq<FileAttr>)
    requires
        inodes.len() + 2 <= u32::MAX,
    ensures
        exists|n: u32| !taken_inos(inodes).contains(n),
{
    let t = taken_inos(inodes);
    let ti = t.map_values(|x: u32| x as int);
    if forall|n: u32| t.contains(n) {
        let r = vstd::set_lib::set_int_range(0, u32::MAX + 1);
        assert forall|x: int| r.contains(x) implies ti.to_set().contains(x) by {
            let n = x as u32;
            assert(t.contains(n));
            let k = choose|k: int| 0 <= k < t.len() && t[k] == n;
            assert(ti[k] == x);
        }
        vstd::set_lib::lemma_int_range(0, u32::MAX + 1);
        ti.lemma_cardinality_of_set();
        vstd::seq_lib::seq_to_set_is_finite(ti);
        vstd::set_lib::lemma_len_subset(r, ti.to_set());
    }
}

/// `r` is the answer of `next_ino` for `inodes`: the smallest number that is not
/// taken, and the number of inodes plus three (cut to 32 bits).
pub open spec fn is_next_ino(inodes: Seq<FileAttr>, r: NextIno) -> bool {
    &&& !taken_inos(inodes).contains(r.ino)
    &&& forall|n: u32| n < r.ino ==> taken_inos(inodes).contains(n)
    &&& r.index == (inodes.len() + 3) as u32
}

/// The answer of `next_ino` does not depend on the order of the inodes: for two
/// tables holding the same inodes, the answers agree.
pub proof fn lemma_next_ino_order_free(v1: Seq<FileAttr>, v2: Seq<FileAttr>, r1: NextIno, r2: NextIno)
    requires
        v1.to_multiset() == v2.to_multiset(),
        is_next_ino(v1, r1),
        is_next_ino(v2, r2),
    ensures
        r1 == r2,
{
    broadcast use vstd::seq_lib::group_to_multiset_ensures;
    assert(v1.len() == v1.to_multiset().len());
    assert(v2.len() == v2.to_multiset().len());
    assert forall|x: u32| taken_inos(v1).contains(x) <==> taken_inos(v2).contains(x) by {
        if taken_inos(v1).contains(x) {
            lemma_taken_by_multiset(v1, v2, x);
        }
        if taken_inos(v2).contains(x) {
            lemma_taken_by_multiset(v2, v1, x);
        }
    }
    if r1.ino < r2.ino {
        assert(taken_inos(v2).contains(r1.ino));
    }
    if r2.ino < r1.ino {
        assert(taken_inos(v1).contains(r2.ino));
    }
}

/// A number taken in a table is taken in any table holding the same inodes.
proof fn lemma_taken_by_multiset(v1: Seq<FileAttr>, v2: Seq<FileAttr>, x: u32)
    requires
        v1.to_multiset() == v2.to_multiset(),
        taken_inos(v1).contains(x),
    ensures
        taken_inos(v2).contains(x),
{
    broadcast use vstd::seq_lib::group_to_multiset_ensures;
    let t1 = taken_inos(v1);
    let t2 = taken_inos(v2);
    let k = choose|k: int| 0 <= k < t1.len() && t1[k] == x;
    if k < 2 {
        assert(t2[k] == x);
    } else {
        let a = v1[k - 2];
        assert(t1[k] == a.ino as u32);
        assert(v1.contains(a));
        assert(v1.to_multiset().count(a) > 0);
        assert(v2.contains(a));
        let j = choose|j: int| 0 <= j < v2.len() && v2[j] == a;
        assert(t2[j + 2] == a.ino as u32);
    }
}

/// The smallest number that is not taken, and the number of inodes plus three.
pub fn next_ino(inodes: &Vec<FileAttr>) -> (r: NextIno)
    requires
        exists|n: u32| !taken_inos(inodes@).contains(n),
        inodes@.len() + 3 <= usize::MAX,
    ensures
        is_next_ino(inodes@, r),
{
    let mut inos: Vec<u32> = Vec::new();
    inos.push(0);
    inos.push(1);
    let mut i: usize = 0;
    while i < inodes.len()
        invariant
            i <= inodes.len(),
            inos@ == taken_inos(inodes@.subrange(0, i as int)),
        decreases inodes.len() - i,
    {
        inos.push(inodes[i].ino as u32);
        i = i + 1;
        assert(inos@ =~= taken_inos(inodes@.subrange(0, i as int)));
    }
    assert(inodes@.subrange(0, i as int) =~= inodes@);
    let ghost taken = inos@;
    sort_u32(&mut inos);
    let ghost s = inos@;
    proof {
        broadcast use vstd::seq_lib::group_to_multiset_ensures;
        assert forall|x: u32| s.contains(x) <==> taken.contains(x) by {
            assert(s.to_multiset().count(x) == taken.to_multiset().count(x));
        }
        assert(s.len() == s.to_multiset().len());
        assert(taken.len() == taken.to_multiset().len());
        assert(taken[0] == 0u32);
        assert(s.contains(0u32));
        let k = choose|k: int| 0 <= k < s.len() && s[k] == 0u32;
        assert(s[0] <= s[k]);
    }
    let mut next_ino: u32 = 2;
    let mut idx: usize = 0;
    let end_idx = inos.len() - 1;
    loop
        invariant_except_break
            s == inos@,
            s.len() == inodes@.len() + 2,
            end_idx == s.len() - 1,
            idx <= end_idx,
            forall|a: int, b: int| 0 <= a <= b < s.len() ==> s[a] <= s[b],
            forall|x: u32| s.contains(x) <==> taken.contains(x),
            taken == taken_inos(inodes@),
            exists|n: u32| !taken.contains(n),
            forall|n: u32| n <= s[idx as int] ==> s.contains(n),
        ensures
            inos@.len() == inodes@.len() + 2,
            !taken.contains(next_ino),
            forall|n: u32| n < next_ino ==> taken.contains(n),
        decreases end_idx - idx,
    {
        let cur = inos[idx];
        if cur == u32::MAX {
            proof {
                let n = choose|n: u32| !taken.contains(n);
                assert(s.contains(n));
            }
        }
        next_ino = cur + 1;
        if idx < end_idx {
            if inos[idx + 1] > next_ino {
                proof {
                    assert forall|x: u32| !(s.contains(x) && x == next_ino) by {
                        if s.contains(x) {
                            let k = choose|k: int| 0 <= k < s.len() && s[k] == x;
                            if k <= idx {
                                assert(s[k] <= s[idx as int]);
                            } else {
                                assert(s[idx + 1] <= s[k]);
                            }
                        }
                    }
                    assert forall|n: u32| n < next_ino implies taken.contains(n) by {
                        assert(s.contains(n));
                    }
                }
                break;
            }
            proof {
                assert(s[idx as int] <= s[idx + 1]);
                assert forall|n: u32| n <= s[idx + 1] implies s.contains(n) by {
                    if n > s[idx as int] {
                        assert(n == s[idx + 1]);
                        assert(s[idx + 1] == s[idx + 1]);
                    }
                }
            }
            idx = idx + 1;
        } else {
            proof {
                assert forall|x: u32| !(s.contains(x) && x == next_ino) by {
                    if s.contains(x) {
                        let k = choose|k: int| 0 <= k < s.len() && s[k] == x;
                        assert(s[k] <= s[idx as int]);
                    }
                }
                assert forall|n: u32| n < next_ino implies taken.contains(n) by {
                    assert(s.contains(n));
                }
            }
            break;
        }
    }
    NextIno { ino: next_ino, index: (inos.len() + 1) as u32 }
}

} // verus!
