use vstd::prelude::*;

verus! {

/// The failure that an operation of a scope environment can report.
///
/// No operation of this library produces it: binding and scope creation
/// always succeed. It is kept so that callers can treat `insert` as fallible.
#[derive(Debug, Clone)]
pub enum ScopError {
    Error(String),
}

} // verus!
