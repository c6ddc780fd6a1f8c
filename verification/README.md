# hello_fs

A small FUSE filesystem whose request logic is verified with Verus.

- `src/hello_blocks.rs`: the byte block of one file (`BlockBox`): reads cut at the
  block end, writes that grow the block in steps of `BLOCK_UNIT` within `BLOCK_LIMIT`
  and zero everything after the written bytes.
- `src/hello_block_info.rs`: a directory entry (`BlockInfo`) with the open/close
  handle protocol (one writer at a time), `create`, `readdir` and `lookup`.
- `src/hello_inode.rs`: inode attributes and the lookups over the inode table,
  including `next_ino`, which picks the smallest free inode number.
- `src/hello_fs.rs`: the filesystem state (`HelloFs`) with its consistency
  invariant `wf`, the abstract view `files` (inode number to name and contents),
  and one function per request.
- `src/platform.rs`: the calls into `rand`, `nix`, `libc` and the standard sort.
- `app/main.rs`: mounts the filesystem with the `fuse` crate and forwards requests.
