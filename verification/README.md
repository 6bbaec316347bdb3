# zkboo_slhdsa

SLH-DSA (SPHINCS+, FIPS 205) public-key recomputation for the security-category-1 parameter
sets SLH-DSA-SHAKE-128s/128f and SLH-DSA-SHA2-128s/128f, written in Verus.

- `slh_keygen_root` recomputes `PK.root` from `SK.seed`;
- `slh_verify_root` recomputes `PK.root` from a message and a signature.

The implementation keeps the data-independent shape needed for zero-knowledge circuits: WOTS+
chains always run all `w − 1` steps, authentication-path directions are applied with masked
conditional swaps, and the XMSS root is built with an iterative treehash. Each function is
proved equal to a specification that follows FIPS 205 directly (recursive `xmss_node`, plain
chains, branching authentication paths), and `slh::lemma_verify_root_of_valid_signature`
proves that a genuine signature recomputes the key-generation root (with per-scheme round trips
for WOTS+, XMSS, FORS and the hypertree).

SHAKE256 and SHA-256 come from the `sha3` and `sha2` crates, behind two trusted wrappers in
`src/hashes.rs`; everything else is verified. These crates stand where an in-circuit design would
use ZKBoo's SHAKE256 and SHA-256 gadgets (`zkboo-keccak`, `zkboo-sha2`), which are not
available as dependencies: on plain values they compute the same functions. For the same reason
no ZKBoo circuit is produced; values are plain bytes and words.

The masked, fixed-work shape (no branch on secret-derived values) holds by construction and is
not stated by any contract: a contract over plain values cannot speak of control flow.

Layout: `params` (parameter sets and sizes), `address` (the 32-byte `ADRS`), `hashes`
(`F`, `H`, `T_l`, `PRF`, `H_msg`, MGF1), `util` (masks, selections, `base_2b`), `wots`, `xmss`,
`fors`, `slh` (top level and digest parsing).
