//! A small in-memory filesystem: fixed-alignment byte blocks, per-file
//! open/close bookkeeping, an inode table, and the request logic of the
//! filesystem that ties them together.

pub mod hello_blocks;
pub mod hello_inode;
mod platform;
pub mod hello_block_info;
pub mod hello_fs;
