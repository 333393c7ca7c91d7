//! File system paths, carried through the engine unread.

use vstd::prelude::*;

verus! {

/// `std::path::PathBuf`, as a value that the engine stores and hands on. What a
/// path holds is never looked at here.
#[verifier::external_type_specification]
#[verifier::external_body]
pub struct ExPathBuf(std::path::PathBuf);

/// `PathBuf::clone`: the copy is the same path as the one it was made from.
pub assume_specification[ <std::path::PathBuf as Clone>::clone ](path: &std::path::PathBuf) -> (copy:
    std::path::PathBuf)
    ensures
        copy == *path,
;

} // verus!
