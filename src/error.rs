use vstd::prelude::*;
use crate::h256::H256;

verus! {

/// The ways in which work on the tree and its proofs can fail.
#[derive(Debug, Clone, PartialEq, Eq)]
pub enum Error {
    MissingKey(usize, H256),
    CorruptedProof,
    EmptyProof,
    EmptyKeys,
    IncorrectNumberOfLeaves { expected: usize, actual: usize },
    Store(String),
    CorruptedStack,
    NonSiblings,
    InvalidCode(u8),
    NonMergableRange,
    ExistenceProof,
    NonExistenceProof,
}

pub type Result<T> = core::result::Result<T, Error>;

} // verus!
