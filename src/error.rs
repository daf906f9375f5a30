use vstd::prelude::*;

verus! {

/// Why a byte buffer could not be read as a record.
#[derive(Clone, Copy, Debug, PartialEq, Eq, Structural)]
pub enum PackError {
    /// The buffer is shorter than the record's fixed width.
    InvalidAccountData,
}

} // verus!
