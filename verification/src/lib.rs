//! A whitelist commitment engine: identities are hashed into leaves of a
//! flat-array Merkle tree, and membership is later proved or checked against
//! the committed root.

pub mod hashing;
pub mod laws;
pub mod merkle;
pub mod state;

pub use merkle::MerkleTree;
pub use merkle::TreeError;
pub use merkle::check_hash_value;
pub use merkle::create_hash_tree;
pub use merkle::get_hash_proof;
pub use state::AccountAddress;
pub use state::ClaimError;
pub use state::ClaimNFTParams;
pub use state::InitParams;
pub use state::State;
pub use state::check_proof;
pub use state::init_state;
pub use state::token_id_hex;
