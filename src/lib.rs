//! Path algebra, hashing and standardized proof conversion for a
//! 256-level sparse Merkle tree.

pub mod blake2b;
pub mod error;
pub mod h256;
pub mod proof_ics23;

pub use blake2b::{Blake2bHasher, Hasher};
pub use error::{Error, Result};
pub use h256::{H256, TREE_HEIGHT};
pub use proof_ics23::MerkleProof;
