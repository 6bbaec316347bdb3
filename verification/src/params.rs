//! SLH-DSA parameter sets (FIPS 205, Table 2), restricted to security category 1, for which the
//! security parameter is `n` = [N] = 16 bytes and the WOTS+ Winternitz parameter is `w` = 16
//! (`lg_w` = 4). Both the SHAKE and the SHA2 hash instantiations are supported.
use vstd::prelude::*;

verus! {

/// The security parameter `n` in bytes: the size of hash nodes, seeds, and the public-key root.
pub const N: usize = 16;

/// The number of WOTS+ hash chains `len = len1 + len2`: 32 message digits (two per byte of an
/// `n`-byte value at `lg_w` = 4) plus 3 checksum digits.
pub const WOTS_LEN: usize = 35;

/// The hash-function instantiation of an SLH-DSA parameter set (FIPS 205, §11).
#[derive(Debug, Clone, Copy, PartialEq, Eq, Structural)]
pub enum HashInstantiation {
    /// SHAKE256 for every function, with the full 32-byte address.
    Shake,
    /// SHA-256 for every function (security category 1), with the compressed 22-byte address.
    Sha2,
}

/// An SLH-DSA parameter set (with `n` = [N] and `lg_w` = 4 fixed).
#[derive(Debug, Clone, Copy, PartialEq, Eq, Structural)]
pub struct SlhDsaParams {
    /// The hash-function instantiation.
    pub hash: HashInstantiation,
    /// The total hypertree height `h`.
    pub h: usize,
    /// The number of hypertree layers `d`.
    pub d: usize,
    /// The height `h' = h/d` of each XMSS tree.
    pub h_prime: usize,
    /// The number of FORS trees `k`.
    pub k: usize,
    /// The height `a` of each FORS tree.
    pub a: usize,
    /// The message-digest length `m` in bytes.
    pub m: usize,
}

/// The SLH-DSA-SHAKE-128s ("small") parameter set.
pub fn slh_dsa_shake_128s() -> (p: SlhDsaParams)
    ensures
        p == (SlhDsaParams {
            hash: HashInstantiation::Shake,
            h: 63,
            d: 7,
            h_prime: 9,
            k: 14,
            a: 12,
            m: 30,
        }),
        verify_params_ok(p),
        spec_sig_len(p) == 7856,
{
    SlhDsaParams {
    hash: HashInstantiation::Shake,
    h: 63,
    d: 7,
    h_prime: 9,
    k: 14,
    a: 12,
    m: 30,
    }
}

/// The SLH-DSA-SHAKE-128f ("fast") parameter set.
pub fn slh_dsa_shake_128f() -> (p: SlhDsaParams)
    ensures
        p == (SlhDsaParams {
            hash: HashInstantiation::Shake,
            h: 66,
            d: 22,
            h_prime: 3,
            k: 33,
            a: 6,
            m: 34,
        }),
        verify_params_ok(p),
        spec_sig_len(p) == 17088,
{
    SlhDsaParams {
    hash: HashInstantiation::Shake,
    h: 66,
    d: 22,
    h_prime: 3,
    k: 33,
    a: 6,
    m: 34,
    }
}

/// The SLH-DSA-SHA2-128s ("small") parameter set.
pub fn slh_dsa_sha2_128s() -> (p: SlhDsaParams)
    ensures
        p == (SlhDsaParams {
            hash: HashInstantiation::Sha2,
            h: 63,
            d: 7,
            h_prime: 9,
            k: 14,
            a: 12,
            m: 30,
        }),
        verify_params_ok(p),
        spec_sig_len(p) == 7856,
{
    SlhDsaParams {
    hash: HashInstantiation::Sha2,
    h: 63,
    d: 7,
    h_prime: 9,
    k: 14,
    a: 12,
    m: 30,
    }
}

/// The SLH-DSA-SHA2-128f ("fast") parameter set.
pub fn slh_dsa_sha2_128f() -> (p: SlhDsaParams)
    ensures
        p == (SlhDsaParams {
            hash: HashInstantiation::Sha2,
            h: 66,
            d: 22,
            h_prime: 3,
            k: 33,
            a: 6,
            m: 34,
        }),
        verify_params_ok(p),
        spec_sig_len(p) == 17088,
{
    SlhDsaParams {
    hash: HashInstantiation::Sha2,
    h: 66,
    d: 22,
    h_prime: 3,
    k: 33,
    a: 6,
    m: 34,
    }
}

/// The signature length `(1 + k(a+1) + h + d·len) · n` of a parameter set, in bytes.
pub open spec fn spec_sig_len(p: SlhDsaParams) -> int {
    N * (1 + p.k * (p.a + 1) + p.h + p.d * WOTS_LEN)
}

/// The number of message-digest bytes that hold the `k` FORS indices, `⌈k·a/8⌉`.
pub open spec fn md_len(p: SlhDsaParams) -> int {
    (p.k * p.a + 7) / 8
}

/// The number of digest bytes that hold the tree index, `⌈(h − h')/8⌉`.
pub open spec fn tree_len(p: SlhDsaParams) -> int {
    (p.h - p.h_prime + 7) / 8
}

/// The number of digest bytes that hold the leaf index, `⌈h'/8⌉`.
pub open spec fn leaf_len(p: SlhDsaParams) -> int {
    (p.h_prime + 7) / 8
}

/// The conditions under which a parameter set can be parsed and verified: the digest layout of
/// FIPS 205, Algorithm 20, and the word sizes that carry the tree and leaf indices.
pub open spec fn verify_params_ok(p: SlhDsaParams) -> bool {
    &&& p.a < usize::MAX
    &&& spec_sig_len(p) <= usize::MAX
    &&& 1 <= p.a <= 25
    &&& 1 <= p.h_prime <= 31
    &&& p.d * p.h_prime <= p.h
    &&& 1 <= p.h - p.h_prime <= 64
    &&& md_len(p) + tree_len(p) + leaf_len(p) == p.m
    &&& p.hash == HashInstantiation::Sha2 ==> p.m <= 32 * (u32::MAX as int)
}

impl SlhDsaParams {
    /// The signature length in bytes: `(1 + k(a+1) + h + d·len) · n`.
    pub fn sig_len(&self) -> (len: usize)
        requires
            self.a < usize::MAX,
            spec_sig_len(*self) <= usize::MAX,
        ensures
            len == spec_sig_len(*self),
    {
        let k = self.k;
        let a1 = self.a + 1;
        let h = self.h;
        let d = self.d;
        assert(k * a1 <= usize::MAX && d * 35 <= usize::MAX) by (nonlinear_arith)
            requires
                16 * (1 + k * a1 + h + d * 35) <= usize::MAX,
                k >= 0,
                a1 >= 0,
                d >= 0,
        ;
        N * (1 + k * a1 + h + d * WOTS_LEN)
    }

    /// The public-key length in bytes: `PK.seed ‖ PK.root`.
    pub fn pk_len(&self) -> (len: usize)
        ensures
            len == 2 * N,
    {
        2 * N
    }
}

} // verus!
