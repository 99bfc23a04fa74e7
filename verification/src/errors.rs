//! Error values raised by group construction and by dispatch.
//!
//! All errors are plain values; the core never aborts on a bad input, it
//! hands a structured error to the caller.

use vstd::prelude::*;

verus! {

/// Rejection raised while constructing an interface group.
#[derive(Debug)]
pub enum BuildError {
    /// Two members of the same group carry the same selector; the table
    /// would route one of them unreachably, so construction fails
    /// atomically. Carries one of the duplicated selectors.
    DuplicateSelector { selector: Vec<u8> },
}

/// Rejection raised by the dispatch contract at lookup or decode time.
#[derive(Debug)]
pub enum DispatchError {
    /// The selector handed in matches no member of the group. Carries the
    /// group's name and the offending bytes; the caller may retry against
    /// another group.
    UnknownSelector { group: String, selector: Vec<u8> },
    /// The matched member's payload decoder refused the data: fewer bytes
    /// than the member's minimum encoded payload length.
    PayloadTooShort { needed: usize, got: usize },
}

} // verus!
