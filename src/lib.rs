//! Consensus-critical state of client-side-validated contracts: state values
//! with their canonical byte encoding, ordering and hash-based concealment;
//! the balance rule of fungible transitions; and the folding of operations
//! into the live outputs of a contract.

pub mod bytes;
pub mod conceal;
pub mod fungible;
pub mod history;
pub mod value;

