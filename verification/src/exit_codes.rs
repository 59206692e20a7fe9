//! Process exit codes.

use vstd::prelude::*;

verus! {

/// Everything asked for was done.
pub const SUCCESS: i32 = 0;

/// The file system or the journal failed.
pub const OPERATIONAL_FAILURE: i32 = 1;

/// The plan was refused: invalid, leaving its root, or against a policy.
pub const POLICY_FAILURE: i32 = 2;

/// An operation failed in an all-or-nothing transaction, which was rolled back.
pub const TRANSACTIONAL_FAILURE: i32 = 3;

} // verus!
