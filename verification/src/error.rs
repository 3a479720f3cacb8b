//! Why a store operation was refused.

use vstd::prelude::*;

verus! {

/// Error of a store operation.
#[derive(Debug, Clone, PartialEq, Eq)]
pub enum StoreError {
    /// The named thing does not exist.
    NotFound(String),
    /// Stored data or the request contradicts itself.
    InvalidState(String),
    /// A stored identifier is not 16 bytes long.
    InvalidId,
}

/// What a [`StoreError`] says.
pub enum Fault {
    NotFound(Seq<char>),
    InvalidState(Seq<char>),
    InvalidId,
}

impl View for StoreError {
    type V = Fault;

    open spec fn view(&self) -> Fault {
        match self {
            StoreError::NotFound(s) => Fault::NotFound(s@),
            StoreError::InvalidState(s) => Fault::InvalidState(s@),
            StoreError::InvalidId => Fault::InvalidId,
        }
    }
}

} // verus!
