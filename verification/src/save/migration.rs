//! The decisions of the save migration chain: the current version, which step
//! applies to an envelope's version, and the error for a version no step
//! starts from. Running a step's transform over the decoded record is
//! the caller's.

use vstd::prelude::*;

use crate::storage::error::StorageError;
use crate::storage::text::{nat_decimal, push_decimal};

verus! {

/// The current on-disk save format version.
pub const CURRENT_SAVE_VERSION: u32 = 1;

/// The step to apply at `version`, given the `from` version of each step in
/// chain order: the first step that starts from `version`, if any.
pub fn find_step(froms: &[u32], version: u32) -> (r: Option<usize>)
    ensures
        r matches Some(i) ==> i < froms@.len() && froms@[i as int] == version && forall|j: int|
            0 <= j < i ==> froms@[j] != version,
        r is None ==> forall|j: int| 0 <= j < froms@.len() ==> froms@[j] != version,
{
    let mut k: usize = 0;
    while k < froms.len()
        invariant
            k <= froms@.len(),
            forall|j: int| 0 <= j < k ==> froms@[j] != version,
        decreases froms@.len() - k,
    {
        if froms[k] == version {
            return Some(k);
        }
        k = k + 1;
    }
    None
}

/// The error for a save version that no migration step starts from:
/// `"no migration step from save_version {version}"`.
pub fn no_step_error(version: u32) -> (e: StorageError)
    ensures
        e is Envelope,
        e.message() == "no migration step from save_version "@ + nat_decimal(version as nat),
{
    let mut s = String::from_str("no migration step from save_version ");
    push_decimal(&mut s, version as u64);
    StorageError::Envelope(s)
}

} // verus!
