//! SLH-DSA (SPHINCS+, FIPS 205) public-key recomputation for the security-category-1 parameter
//! sets, over plain byte values.
//!
//! Two operations are provided:
//!
//! - [slh_keygen_root]: recomputes the public-key root `PK.root` from the secret seed `SK.seed`;
//! - [slh_verify_root]: recomputes `PK.root` from a message and a signature.
//!
//! Both return the recomputed root; a caller compares it against the known public key.
//!
//! The computations keep the shape that a zero-knowledge circuit needs: every branch on
//! secret-derived values (WOTS+ chain starts, authentication-path directions, tree indices) is
//! replaced by fixed work with masked selections. That data independence holds by construction
//! of the code and is not stated or proved by any contract. No circuit is produced: the values
//! are plain bytes and words, and SHAKE256 and SHA-256 are computed on them by the `sha3` and
//! `sha2` crates, since the ZKBoo circuit backend and its in-circuit hash crates are not
//! available as dependencies.
//!
//! Each function states its result over a specification that follows FIPS 205 directly
//! (recursive XMSS and FORS nodes, plain chains, branching authentication paths); the proofs show
//! that the data-independent implementations compute exactly that, and that a genuine signature
//! recomputes the key-generation root ([slh::lemma_verify_root_of_valid_signature]).
pub mod address;
pub mod fors;
pub mod hashes;
pub mod params;
pub mod slh;
pub mod util;
pub mod wots;
pub mod xmss;

pub use params::{
    slh_dsa_sha2_128f, slh_dsa_sha2_128s, slh_dsa_shake_128f, slh_dsa_shake_128s, HashInstantiation,
    SlhDsaParams, N,
};
pub use hashes::Node;
pub use slh::{slh_keygen_root, slh_verify_root};
