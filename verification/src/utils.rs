//! Path segments and the caller's privilege.

use crate::text::{base_start, base_start_of, chars_of};
use vstd::prelude::*;
use vstd::string::StrSliceExecFns;

verus! {

/// The final segment of a path: what follows its last `/`, or all of it when
/// it holds none.
pub open spec fn final_segment(path: Seq<char>) -> Seq<char> {
    path.skip(base_start(path) as int)
}

/// The final segment of `name`, taken as a path.
pub fn base_name(name: &str) -> (base: &str)
    ensures
        base@ == final_segment(name@),
{
    let v = chars_of(name);
    let start = base_start_of(v.as_slice());
    let base = name.substring_char(start, v.len());
    assert(base@ =~= final_segment(name@));
    base
}

/// The effective user identifier of the calling process.
///
/// Calls `nix::unistd::geteuid` and unwraps the `Uid` it returns. Nothing is
/// claimed of the number: it is whatever the operating system reports.
#[verifier::external_body]
fn effective_user_id() -> u32 {
    nix::unistd::geteuid().as_raw()
}

/// The user identifier of the superuser.
pub const ROOT_UID: u32 = 0;

/// Whether `uid` is the user identifier of the superuser.
pub fn is_superuser(uid: u32) -> (privileged: bool)
    ensures
        privileged == (uid == ROOT_UID),
{
    uid == ROOT_UID
}

/// Whether the calling process runs with the privileges of the superuser:
/// `is_superuser` of the effective user identifier that the operating system
/// reports for it.
pub(crate) fn is_root() -> bool {
    is_superuser(effective_user_id())
}

} // verus!
