//! The calls this library makes into `rand`, `nix`, `libc` and the standard
//! library's slice sort. Each item here is believed, not proved: its doc comment
//! says what it claims of the code it calls.

use vstd::prelude::*;

verus! {

/// Calls `rand::Rng::gen_range` with the range `low..=high` on `rand::thread_rng()`.
/// rand documents that it panics on an empty range and otherwise returns a value
/// inside the range; the value itself depends on chance, so only the range is stated.
#[verifier::external_body]
pub(crate) fn random_u16_in(low: u16, high: u16) -> (r: u16)
    requires
        low <= high,
    ensures
        low <= r <= high,
{
    rand::Rng::gen_range(&mut rand::thread_rng(), low..=high)
}

/// Calls `nix::unistd::Uid::current()` (the real user id of the process, `getuid`)
/// and converts it with `libc::uid_t::from`. The value depends on the process, so
/// nothing is stated of it.
#[verifier::external_body]
pub(crate) fn current_uid() -> u32 {
    libc::uid_t::from(nix::unistd::Uid::current())
}

/// Calls `nix::unistd::Gid::current()` (the real group id of the process, `getgid`)
/// and converts it with `libc::gid_t::from`. The value depends on the process, so
/// nothing is stated of it.
#[verifier::external_body]
pub(crate) fn current_gid() -> u32 {
    libc::gid_t::from(nix::unistd::Gid::current())
}

/// Reads `libc::O_WRONLY`. libc gives it different values on different platforms,
/// so nothing is stated of it.
#[verifier::external_body]
pub(crate) fn write_only_flag() -> i32 {
    libc::O_WRONLY
}

/// Reads `libc::O_RDWR`. libc gives it different values on different platforms,
/// so nothing is stated of it.
#[verifier::external_body]
pub(crate) fn read_write_flag() -> i32 {
    libc::O_RDWR
}

/// Calls the standard library's `sort` on the vector's elements. Its documentation
/// promises that the slice ends up sorted in nondecreasing order; a sort permutes
/// the elements, so the vector holds the same values as before.
#[verifier::external_body]
pub(crate) fn sort_u32(v: &mut Vec<u32>)
    ensures
        final(v)@.to_multiset() == old(v)@.to_multiset(),
        forall|i: int, j: int| 0 <= i <= j < final(v)@.len() ==> final(v)@[i] <= final(v)@[j],
{
    v.sort();
}

} // verus!
