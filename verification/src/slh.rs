//! The top-level SLH-DSA computations: key generation and signature verification (FIPS 205,
//! §9–10), each returning the recomputed public-key root.
use crate::address::{
    adrs_set_key_pair, adrs_set_layer, adrs_set_tree, adrs_set_type_and_clear, adrs_zero,
    lemma_set_word_agree, lemma_set_word_value, lemma_word_at_determines, set_word, word_at, Adrs,
    ADRS_FORS_TREE,
};
use crate::fors::{fors_pk_from_sig, spec_fors_pk_from_sig};
use crate::hashes::{
    h_msg, sha256_digest, shake256_output, spec_h_msg, spec_mgf1_sha256, u32_be, Node,
};
use crate::params::{
    leaf_len, md_len, spec_sig_len, tree_len, verify_params_ok, HashInstantiation, SlhDsaParams, N,
};
use crate::util::{base_2b, base_2b_u32};
use crate::wots::LEN;
use crate::xmss::{
    lemma_xmss_root_from_valid_sig, xmss_node, xmss_path_node, xmss_pk_from_sig, xmss_root,
    xmss_sig_valid,
};
use vstd::arithmetic::power2::{
    lemma2_to64, lemma2_to64_rest, lemma_pow2_adds, lemma_pow2_pos, lemma_pow2_strictly_increases,
    pow2,
};
use vstd::bits::{
    lemma_u64_low_bits_mask_is_mod, lemma_u64_shl_is_mul, lemma_u64_shr_is_div, low_bits_mask,
};
use vstd::prelude::*;
use vstd::slice::slice_subrange;

verus! {

/// The public-key root generated from `SK.seed` (FIPS 205, Algorithm 18): the root of the
/// top-layer XMSS tree, `xmss_node(SK.seed, 0, h', PK.seed, ADRS)` with layer address `d − 1`.
pub open spec fn spec_slh_keygen_root(p: SlhDsaParams, sk_seed: Seq<u8>, pk_seed: Seq<u8>) -> Seq<
    u8,
> {
    xmss_node(
        p.hash,
        sk_seed,
        pk_seed,
        adrs_set_layer(adrs_zero(), (p.d - 1) as u32),
        0,
        p.h_prime as nat,
    )
}

/// Recomputes the SLH-DSA public-key root `PK.root` from the secret seed `SK.seed` (FIPS 205,
/// Algorithm 18, root computation).
pub fn slh_keygen_root(sk_seed: Node, pk_seed: &[u8; N], params: &SlhDsaParams) -> (root: Node)
    requires
        params.d >= 1,
        params.h_prime < usize::BITS,
    ensures
        root@ == spec_slh_keygen_root(*params, sk_seed@, pk_seed@),
{
    let pk_seed: Node = *pk_seed;
    let mut adrs = Adrs::new();
    adrs.set_layer((params.d - 1) as u32);
    xmss_root(params, &sk_seed, &pk_seed, &adrs, params.h_prime)
}

/// The big-endian integer `toInt(s, |s|)` of a byte string (FIPS 205, Algorithm 3).
pub open spec fn be_int(s: Seq<u8>) -> nat
    decreases s.len(),
{
    if s.len() == 0 {
        0
    } else {
        be_int(s.drop_last()) * 256 + s.last() as nat
    }
}

proof fn lemma_be_int_bound(s: Seq<u8>)
    ensures
        be_int(s) < pow2(8 * s.len()),
    decreases s.len(),
{
    lemma2_to64();
    if s.len() == 0 {
    } else {
        lemma_be_int_bound(s.drop_last());
        let n = (s.len() - 1) as nat;
        lemma_pow2_adds(8 * n, 8);
        assert(8 * n + 8 == 8 * s.len());
        let p = pow2(8 * n) as int;
        let v = be_int(s.drop_last()) as int;
        assert(v * 256 + 255 < p * 256) by (nonlinear_arith)
            requires
                v < p,
        ;
    }
}

/// Key generation computes the root of the single XMSS tree on the top hypertree layer (FIPS 205,
/// Algorithm 18): for the address whose layer word is `d − 1` and whose other bytes are all
/// zero, the generated root is `xmss_node(SK.seed, 0, h', PK.seed, ADRS)`.
pub proof fn lemma_keygen_root_is_top_tree(
    p: SlhDsaParams,
    sk_seed: Seq<u8>,
    pk_seed: Seq<u8>,
    top: Seq<u8>,
)
    requires
        1 <= p.d <= u32::MAX as int + 1,
        top.len() == 32,
        word_at(top, 0) == p.d - 1,
        forall|i: int| 4 <= i < 32 ==> top[i] == 0,
    ensures
        spec_slh_keygen_root(p, sk_seed, pk_seed) == xmss_node(
            p.hash,
            sk_seed,
            pk_seed,
            top,
            0,
            p.h_prime as nat,
        ),
{
    let v = (p.d - 1) as u32;
    lemma_word_at_determines(top, 0, v);
    lemma_set_word_agree(top, adrs_zero(), 0, v);
    assert(adrs_set_layer(adrs_zero(), v) == top);
}

/// Reads up to 8 bytes as a big-endian integer.
fn be_bytes_to_u64(s: &[u8]) -> (v: u64)
    requires
        s@.len() <= 8,
    ensures
        v == be_int(s@),
{
    let mut acc: u64 = 0;
    let mut i: usize = 0;
    while i < s.len()
        invariant
            i <= s@.len() <= 8,
            acc == be_int(s@.subrange(0, i as int)),
        decreases s@.len() - i,
    {
        proof {
            lemma_be_int_bound(s@.subrange(0, i as int));
            lemma2_to64();
            lemma2_to64_rest();
            if i < 7 {
                lemma_pow2_strictly_increases(8 * i as nat, 56);
            }
            assert(s@.subrange(0, i + 1).drop_last() =~= s@.subrange(0, i as int));
        }
        acc = acc * 256 + s[i] as u64;
        i = i + 1;
    }
    assert(s@.subrange(0, s@.len() as int) =~= s@);
    acc
}

/// Keeping the low `b` bits with a shift pair computes the value modulo 2^b.
proof fn lemma_keep_low_bits(x: u64, b: u64)
    requires
        1 <= b <= 64,
    ensures
        ((x << ((64 - b) as u64)) >> ((64 - b) as u64)) == x as nat % pow2(b as nat),
{
    let s = (64 - b) as u64;
    let r = (x << s) >> s;
    if b == 64 {
        lemma2_to64_rest();
        assert(r == x) by (bit_vector)
            requires
                s == 0,
                r == (x << s) >> s,
        ;
    } else {
        vstd::bits::lemma_u64_pow2_no_overflow(b as nat);
        lemma_u64_shl_is_mul(1, b);
        let m = ((1u64 << b) - 1) as u64;
        assert(r == x & m) by (bit_vector)
            requires
                1 <= b < 64,
                s == 64 - b,
                r == (x << s) >> s,
                m == (1u64 << b) - 1,
        ;
        assert(m == low_bits_mask(b as nat) as u64);
        lemma_u64_low_bits_mask_is_mod(x, b as nat);
    }
}

/// The FORS indices of a message digest: `base_2b(md, a, k)` over its first `⌈k·a/8⌉` bytes.
pub open spec fn digest_fors_indices(digest: Seq<u8>, p: SlhDsaParams) -> Seq<u32> {
    Seq::new(
        p.k as nat,
        |i: int| base_2b(digest.subrange(0, md_len(p)), p.a as nat, p.k as nat)[i] as u32,
    )
}

/// The hypertree index of a message digest: `toInt(tmp_idx_tree) mod 2^(h − h')`.
pub open spec fn digest_tree_index(digest: Seq<u8>, p: SlhDsaParams) -> u64 {
    (be_int(digest.subrange(md_len(p), md_len(p) + tree_len(p))) % pow2(
        (p.h - p.h_prime) as nat,
    )) as u64
}

/// The leaf index of a message digest: `toInt(tmp_idx_leaf) mod 2^h'`.
pub open spec fn digest_leaf_index(digest: Seq<u8>, p: SlhDsaParams) -> u32 {
    (be_int(digest.subrange(md_len(p) + tree_len(p), md_len(p) + tree_len(p) + leaf_len(p)))
        % pow2(p.h_prime as nat)) as u32
}

/// Parses a message digest (FIPS 205, Algorithm 20, steps 6–10): the `k` FORS tree indices
/// (`a`-bit values), then the hypertree index (`h − h'` bits) and the leaf index (`h'` bits).
pub fn parse_digest(digest: &[u8], params: &SlhDsaParams) -> (out: (Vec<u32>, u64, u32))
    requires
        verify_params_ok(*params),
        digest@.len() == params.m,
    ensures
        out.0@ == digest_fors_indices(digest@, *params),
        out.1 == digest_tree_index(digest@, *params),
        out.2 == digest_leaf_index(digest@, *params),
        out.0@.len() == params.k,
        forall|i: int| 0 <= i < params.k ==> out.0@[i] < pow2(params.a as nat),
        out.1 < pow2((params.h - params.h_prime) as nat),
        out.2 < pow2(params.h_prime as nat),
{
    let k = params.k;
    let a = params.a;
    assert(k * a <= k * (a + 1) && k * (a + 1) <= k * (a + 1) * 16) by (nonlinear_arith)
        requires
            k >= 0,
            a >= 0,
    ;
    let md_len = (k * a + 7) / 8;
    let tree_bits = params.h - params.h_prime;
    let tree_len = (tree_bits + 7) / 8;
    let leaf_len = (params.h_prime + 7) / 8;
    let md = slice_subrange(digest, 0, md_len);
    let indices = base_2b_u32(md, a, k);
    proof {
        assert forall|i: int| 0 <= i < k implies indices@[i] < pow2(a as nat) by {
            crate::util::lemma_bits_be_bound(md@, i * a, a as nat);
        }
        assert(indices@ =~= digest_fors_indices(digest@, *params));
    }
    let tree_bytes = slice_subrange(digest, md_len, md_len + tree_len);
    let tree_raw = be_bytes_to_u64(tree_bytes);
    let idx_tree = (tree_raw << ((64 - tree_bits) as u64)) >> ((64 - tree_bits) as u64);
    proof {
        lemma_keep_low_bits(tree_raw, tree_bits as u64);
        lemma_pow2_pos(tree_bits as nat);
    }
    let leaf_bytes = slice_subrange(digest, md_len + tree_len, md_len + tree_len + leaf_len);
    let leaf_raw = be_bytes_to_u64(leaf_bytes);
    let leaf64 = (leaf_raw << ((64 - params.h_prime) as u64)) >> ((64 - params.h_prime) as u64);
    proof {
        lemma_keep_low_bits(leaf_raw, params.h_prime as u64);
        lemma_pow2_pos(params.h_prime as nat);
        lemma2_to64();
        lemma_pow2_strictly_increases(params.h_prime as nat, 32);
    }
    let idx_leaf = leaf64 as u32;
    (indices, idx_tree, idx_leaf)
}

/// The length `(len + h')·n` of one XMSS signature in the hypertree signature.
pub open spec fn xmss_sig_len(h_prime: nat) -> int {
    (LEN + h_prime) * N
}

/// The tree index of hypertree layer `j`: `idx_tree` shifted right by `j·h'` bits.
pub open spec fn ht_layer_tree(idx_tree: u64, h_prime: nat, j: nat) -> u64 {
    (idx_tree as nat / pow2(j * h_prime)) as u64
}

/// The leaf index of hypertree layer `j`: `idx_leaf` on layer 0, then the low `h'` bits of the
/// tree index of the layer below.
pub open spec fn ht_layer_leaf(idx_tree: u64, idx_leaf: u32, h_prime: nat, j: nat) -> u32 {
    if j == 0 {
        idx_leaf
    } else {
        ((idx_tree as nat / pow2(((j - 1) * h_prime) as nat)) % pow2(h_prime)) as u32
    }
}

/// The address of the XMSS tree `tree` on hypertree layer `j`.
pub open spec fn layer_adrs(j: nat, tree: u64) -> Seq<u8> {
    adrs_set_tree(adrs_set_layer(adrs_zero(), j as u32), tree)
}

/// The root of hypertree layer `j` recomputed from the hypertree signature (FIPS 205,
/// Algorithm 12, without the final comparison): layer 0 signs `msg`, each layer above signs
/// the root of the layer below.
pub open spec fn ht_node(
    hash: HashInstantiation,
    msg: Seq<u8>,
    sig_ht: Seq<u8>,
    pk_seed: Seq<u8>,
    idx_tree: u64,
    idx_leaf: u32,
    h_prime: nat,
    j: nat,
) -> Seq<u8>
    decreases j,
{
    let signed = if j == 0 {
        msg
    } else {
        ht_node(hash, msg, sig_ht, pk_seed, idx_tree, idx_leaf, h_prime, (j - 1) as nat)
    };
    xmss_path_node(
        hash,
        ht_layer_leaf(idx_tree, idx_leaf, h_prime, j),
        sig_ht.subrange(j * xmss_sig_len(h_prime), (j + 1) * xmss_sig_len(h_prime)),
        signed,
        pk_seed,
        layer_adrs(j, ht_layer_tree(idx_tree, h_prime, j)),
        h_prime,
    )
}

/// The 64-bit tree index is split into the two big-endian words at bytes 8..16.
proof fn lemma_tree_words(t: u64)
    ensures
        ((t >> 32u64) as u32) as int * 0x1_0000_0000 + (t as u32) as int == t,
{
    let hi = (t >> 32u64) as u32;
    let lo = t as u32;
    assert(hi as int * 0x1_0000_0000 + lo as int == t) by (bit_vector)
        requires
            hi == (t >> 32u64) as u32,
            lo == t as u32,
    ;
}

/// The address of XMSS tree `tree` on hypertree layer `j` (FIPS 205, Algorithm 12): layer
/// address `j` at bytes 0..4, the tree address `tree` big-endian at bytes 4..16, and every other
/// byte zero.
pub proof fn lemma_layer_adrs_layout(j: u32, tree: u64)
    ensures
        ({
            let x = layer_adrs(j as nat, tree);
            &&& x.len() == 32
            &&& word_at(x, 0) == j
            &&& word_at(x, 4) == 0
            &&& word_at(x, 8) * 0x1_0000_0000 + word_at(x, 12) == tree
            &&& forall|i: int| 16 <= i < 32 ==> x[i] == 0
        }),
{
    let a0 = adrs_zero();
    let a1 = set_word(a0, 0, j);
    let a2 = set_word(a1, 4, 0);
    let a3 = set_word(a2, 8, (tree >> 32u64) as u32);
    let x = set_word(a3, 12, tree as u32);
    lemma_set_word_value(a0, 0, j);
    lemma_set_word_value(a1, 4, 0);
    lemma_set_word_value(a2, 8, (tree >> 32u64) as u32);
    lemma_set_word_value(a3, 12, tree as u32);
    lemma_tree_words(tree);
    assert(x == layer_adrs(j as nat, tree));
}

/// The FORS address of a message digest: tree `idx_tree`, type `FORS_TREE`, key pair
/// `idx_leaf`.
pub open spec fn fors_adrs_of(idx_tree: u64, idx_leaf: u32) -> Seq<u8> {
    adrs_set_key_pair(
        adrs_set_type_and_clear(adrs_set_tree(adrs_zero(), idx_tree), ADRS_FORS_TREE),
        idx_leaf,
    )
}

/// The FORS address of a message digest (FIPS 205, Algorithm 20, steps 11–13): bytes 0..4 (the
/// layer) zero, the tree index big-endian at bytes 4..16, type `FORS_TREE` at bytes 16..20, the
/// full leaf index as key-pair address at bytes 20..24, and bytes 24..32 zero.
pub proof fn lemma_fors_adrs_of_layout(idx_tree: u64, idx_leaf: u32)
    ensures
        ({
            let x = fors_adrs_of(idx_tree, idx_leaf);
            &&& x.len() == 32
            &&& word_at(x, 0) == 0
            &&& word_at(x, 4) == 0
            &&& word_at(x, 8) * 0x1_0000_0000 + word_at(x, 12) == idx_tree
            &&& word_at(x, 16) == ADRS_FORS_TREE
            &&& word_at(x, 20) == idx_leaf
            &&& word_at(x, 24) == 0
            &&& word_at(x, 28) == 0
        }),
{
    let a0 = adrs_zero();
    let a1 = set_word(a0, 4, 0);
    let a2 = set_word(a1, 8, (idx_tree >> 32u64) as u32);
    let a3 = set_word(a2, 12, idx_tree as u32);
    let a4 = set_word(a3, 16, ADRS_FORS_TREE);
    let a5 = set_word(a4, 20, 0);
    let a6 = set_word(a5, 24, 0);
    let a7 = set_word(a6, 28, 0);
    let x = set_word(a7, 20, idx_leaf);
    lemma_set_word_value(a0, 4, 0);
    lemma_set_word_value(a1, 8, (idx_tree >> 32u64) as u32);
    lemma_set_word_value(a2, 12, idx_tree as u32);
    lemma_set_word_value(a3, 16, ADRS_FORS_TREE);
    lemma_set_word_value(a4, 20, 0);
    lemma_set_word_value(a5, 24, 0);
    lemma_set_word_value(a6, 28, 0);
    lemma_set_word_value(a7, 20, idx_leaf);
    lemma_tree_words(idx_tree);
    assert(x == fors_adrs_of(idx_tree, idx_leaf));
}

/// The FORS signature part of an SLH-DSA signature (after the randomizer `R`).
pub open spec fn sig_fors_part(sig: Seq<u8>, p: SlhDsaParams) -> Seq<u8> {
    sig.subrange(N as int, N + p.k * (p.a + 1) * N)
}

/// The hypertree signature part of an SLH-DSA signature (after `R` and the FORS signature).
pub open spec fn sig_ht_part(sig: Seq<u8>, p: SlhDsaParams) -> Seq<u8> {
    sig.subrange(N + p.k * (p.a + 1) * N, sig.len() as int)
}

/// An SLH-DSA signature is split into its three parts without overlap or gap (FIPS 205,
/// Algorithm 20, steps 5–7): the randomizer `R` (`n` bytes), the FORS signature (`k·(a+1)·n`
/// bytes) and the hypertree signature (`(h + d·len)·n` bytes), in this order.
pub proof fn lemma_sig_parts(sig: Seq<u8>, p: SlhDsaParams)
    requires
        sig.len() == spec_sig_len(p),
    ensures
        sig_fors_part(sig, p).len() == p.k * (p.a + 1) * N,
        sig_ht_part(sig, p).len() == (p.h + p.d * LEN) * N,
        sig.subrange(0, N as int) + sig_fors_part(sig, p) + sig_ht_part(sig, p) == sig,
{
    assert(N * (1 + p.k * (p.a + 1) + p.h + p.d * LEN) == N + p.k * (p.a + 1) * N + (p.h + p.d
        * LEN) * N) by (nonlinear_arith);
    assert(sig.subrange(0, N as int) + sig_fors_part(sig, p) + sig_ht_part(sig, p) =~= sig);
}

/// The message digest `H_msg(R, PK.seed, PK.root, M)` that a signature is checked against.
pub open spec fn verify_digest(
    msg: Seq<u8>,
    sig: Seq<u8>,
    pk_seed: Seq<u8>,
    pk_root: Seq<u8>,
    p: SlhDsaParams,
) -> Seq<u8> {
    spec_h_msg(p.hash, sig.subrange(0, N as int), pk_seed, pk_root, msg, p.m as nat)
}

/// The digest that verification parses is `H_msg(R, PK.seed, PK.root, M)` over the whole
/// message `M`, with `R` the first `n` bytes of the signature (FIPS 205, §11.1 and §11.2.1):
/// `SHAKE256(R ‖ PK.seed ‖ PK.root ‖ M, 8m)`, or
/// `MGF1-SHA-256(R ‖ PK.seed ‖ SHA-256(R ‖ PK.seed ‖ PK.root ‖ M), m)`.
pub proof fn lemma_verify_digest_is_h_msg(
    msg: Seq<u8>,
    sig: Seq<u8>,
    pk_seed: Seq<u8>,
    pk_root: Seq<u8>,
    p: SlhDsaParams,
)
    ensures
        p.hash == HashInstantiation::Shake ==> verify_digest(msg, sig, pk_seed, pk_root, p)
            == shake256_output(sig.subrange(0, N as int) + pk_seed + pk_root + msg, p.m as nat),
        p.hash == HashInstantiation::Sha2 ==> verify_digest(msg, sig, pk_seed, pk_root, p)
            == spec_mgf1_sha256(
            sig.subrange(0, N as int) + pk_seed + sha256_digest(
                sig.subrange(0, N as int) + pk_seed + pk_root + msg,
            ),
            p.m as nat,
        ),
{
}

/// Verification reads the message only through `H_msg`: two messages whose hash inputs over the
/// whole message give the same hash (the SHAKE256 output, or the inner SHA-256 digest) yield
/// the same recomputed root for every signature.
pub proof fn lemma_verify_root_reads_msg_through_h_msg(
    msg1: Seq<u8>,
    msg2: Seq<u8>,
    sig: Seq<u8>,
    pk_seed: Seq<u8>,
    pk_root: Seq<u8>,
    p: SlhDsaParams,
)
    requires
        p.hash == HashInstantiation::Shake ==> shake256_output(
            sig.subrange(0, N as int) + pk_seed + pk_root + msg1,
            p.m as nat,
        ) == shake256_output(sig.subrange(0, N as int) + pk_seed + pk_root + msg2, p.m as nat),
        p.hash == HashInstantiation::Sha2 ==> sha256_digest(
            sig.subrange(0, N as int) + pk_seed + pk_root + msg1,
        ) == sha256_digest(sig.subrange(0, N as int) + pk_seed + pk_root + msg2),
    ensures
        spec_slh_verify_root(msg1, sig, pk_seed, pk_root, p) == spec_slh_verify_root(
            msg2,
            sig,
            pk_seed,
            pk_root,
            p,
        ),
{
    lemma_verify_digest_is_h_msg(msg1, sig, pk_seed, pk_root, p);
    lemma_verify_digest_is_h_msg(msg2, sig, pk_seed, pk_root, p);
    assert(verify_digest(msg1, sig, pk_seed, pk_root, p) == verify_digest(
        msg2,
        sig,
        pk_seed,
        pk_root,
        p,
    ));
}

/// The FORS public key recomputed from a signature (FIPS 205, Algorithm 20, steps 11–13).
pub open spec fn verify_pk_fors(
    msg: Seq<u8>,
    sig: Seq<u8>,
    pk_seed: Seq<u8>,
    pk_root: Seq<u8>,
    p: SlhDsaParams,
) -> Seq<u8> {
    let digest = verify_digest(msg, sig, pk_seed, pk_root, p);
    spec_fors_pk_from_sig(
        p.hash,
        sig_fors_part(sig, p),
        digest_fors_indices(digest, p),
        pk_seed,
        fors_adrs_of(digest_tree_index(digest, p), digest_leaf_index(digest, p)),
        p.k as nat,
        p.a as nat,
    )
}

/// The public-key root recomputed from a message and a signature (FIPS 205, Algorithm 20,
/// without the final comparison with `PK.root`): the hypertree walk from the FORS public key.
pub open spec fn spec_slh_verify_root(
    msg: Seq<u8>,
    sig: Seq<u8>,
    pk_seed: Seq<u8>,
    pk_root: Seq<u8>,
    p: SlhDsaParams,
) -> Seq<u8> {
    let digest = verify_digest(msg, sig, pk_seed, pk_root, p);
    let pk_fors = verify_pk_fors(msg, sig, pk_seed, pk_root, p);
    if p.d == 0 {
        pk_fors
    } else {
        ht_node(
            p.hash,
            pk_fors,
            sig_ht_part(sig, p),
            pk_seed,
            digest_tree_index(digest, p),
            digest_leaf_index(digest, p),
            p.h_prime as nat,
            (p.d - 1) as nat,
        )
    }
}

/// Recomputes the SLH-DSA public-key root `PK.root` from a message and a signature (FIPS 205,
/// Algorithm 20), with signature-independent control flow.
pub fn slh_verify_root(
    msg: Vec<u8>,
    sig: Vec<u8>,
    pk_seed: &[u8; N],
    pk_root: &[u8; N],
    params: &SlhDsaParams,
) -> (root: Node)
    requires
        verify_params_ok(*params),
        sig@.len() == spec_sig_len(*params),
    ensures
        root@ == spec_slh_verify_root(msg@, sig@, pk_seed@, pk_root@, *params),
{
    let sig_len = params.sig_len();
    let pk_seed: Node = *pk_seed;
    let pk_root: Node = *pk_root;
    let k = params.k;
    let a = params.a;
    let d = params.d;
    let hp = params.h_prime;
    assert(k * (a + 1) * 16 <= sig_len && d * ((LEN + hp) * 16) <= 16 * (params.h + d * LEN)
        && (d - 1) * hp <= params.h - hp) by (nonlinear_arith)
        requires
            sig_len == 16 * (1 + k * (a + 1) + params.h + d * 35),
            d * hp <= params.h,
            a >= 0,
    ;
    // Split the signature: randomizer R, FORS signature, hypertree signature.
    let r = crate::util::node_from_slice(sig.as_slice());
    let fors_len = k * (a + 1) * N;
    let sig_fors = slice_subrange(sig.as_slice(), N, N + fors_len);
    let sig_ht = slice_subrange(sig.as_slice(), N + fors_len, sig_len);
    // Compute and parse the message digest: k a-bit FORS indices, then the hypertree index
    // (h − h' bits) and the leaf index (h' bits).
    let digest = h_msg(params, &r, &pk_seed, &pk_root, msg.as_slice());
    let (indices, idx_tree, idx_leaf) = parse_digest(digest.as_slice(), params);
    // Recompute the FORS public key.
    let mut fors_adrs = Adrs::new();
    fors_adrs.set_tree_addr_wire(&idx_tree);
    fors_adrs.set_type_and_clear(ADRS_FORS_TREE);
    fors_adrs.set_key_pair_wire(&idx_leaf);
    let pk_fors = fors_pk_from_sig(
        params,
        sig_fors,
        indices.as_slice(),
        &pk_seed,
        &fors_adrs,
        k,
        a,
    );
    // Walk the hypertree: layer j sits in the tree indexed by the high bits of idx_tree, at the
    // leaf given by the next h' bits (layer 0 uses idx_leaf from the digest directly).
    let xmss_len = (LEN + hp) * N;
    let mut node = pk_fors;
    let ghost sig_ht_v = sig_ht@;
    for j in 0..d
        invariant
            1 <= hp <= 31,
            (d - 1) * hp <= 64,
            xmss_len == xmss_sig_len(hp as nat),
            d * xmss_len <= sig_ht@.len(),
            sig_ht@.len() <= sig_len,
            sig_ht@ == sig_ht_v,
            j == 0 ==> node@ == pk_fors@,
            j > 0 ==> node@ == ht_node(
                params.hash,
                pk_fors@,
                sig_ht_v,
                pk_seed@,
                idx_tree,
                idx_leaf,
                hp as nat,
                (j - 1) as nat,
            ),
    {
        assert((j + 1) * xmss_len <= d * xmss_len && j * xmss_len + xmss_len == (j + 1) * xmss_len)
            by (nonlinear_arith)
            requires
                j < d,
                xmss_len >= 0,
        ;
        let layer_tree: u64;
        let layer_leaf: u32;
        if j == 0 {
            layer_tree = idx_tree;
            layer_leaf = idx_leaf;
            proof {
                lemma2_to64();
                assert(idx_tree as nat / pow2(0) == idx_tree);
            }
        } else {
            assert((j - 1) * hp <= (d - 1) * hp - hp) by (nonlinear_arith)
                requires
                    1 <= j < d,
                    hp >= 1,
            ;
            let sh = ((j - 1) * hp) as u64;
            let shifted = idx_tree >> sh;
            let leaf = (shifted << ((64 - hp) as u64)) >> ((64 - hp) as u64);
            layer_tree = shifted >> (hp as u64);
            layer_leaf = leaf as u32;
            proof {
                lemma_u64_shr_is_div(idx_tree, sh);
                lemma_keep_low_bits(shifted, hp as u64);
                lemma_u64_shr_is_div(shifted, hp as u64);
                lemma_pow2_pos(sh as nat);
                lemma_pow2_pos(hp as nat);
                vstd::arithmetic::div_mod::lemma_div_denominator(
                    idx_tree as int,
                    pow2(sh as nat) as int,
                    pow2(hp as nat) as int,
                );
                lemma_pow2_adds(sh as nat, hp as nat);
                assert(sh + hp == j * hp) by (nonlinear_arith)
                    requires
                        sh == (j - 1) * hp,
                        j >= 1,
                ;
            }
        }
        let mut layer_adrs = Adrs::new();
        layer_adrs.set_layer(j as u32);
        layer_adrs.set_tree_addr_wire(&layer_tree);
        let layer_sig = slice_subrange(sig_ht, j * xmss_len, (j + 1) * xmss_len);
        node = xmss_pk_from_sig(params, &layer_leaf, layer_sig, &node, &pk_seed, &layer_adrs, hp);
    }
    node
}

/// The message signed on hypertree layer `j` (FIPS 205, Algorithm 13): `msg` on layer 0, then
/// the root of the XMSS tree of the layer below.
pub open spec fn ht_layer_msg(
    hash: HashInstantiation,
    sk_seed: Seq<u8>,
    pk_seed: Seq<u8>,
    msg: Seq<u8>,
    idx_tree: u64,
    h_prime: nat,
    j: nat,
) -> Seq<u8> {
    if j == 0 {
        msg
    } else {
        xmss_node(
            hash,
            sk_seed,
            pk_seed,
            layer_adrs((j - 1) as nat, ht_layer_tree(idx_tree, h_prime, (j - 1) as nat)),
            0,
            h_prime,
        )
    }
}

/// A genuine hypertree signature of `msg` (FIPS 205, Algorithm 13): on each of the `d` layers,
/// a genuine XMSS signature of that layer's message by that layer's leaf.
pub open spec fn ht_sig_valid(
    hash: HashInstantiation,
    sk_seed: Seq<u8>,
    pk_seed: Seq<u8>,
    msg: Seq<u8>,
    sig_ht: Seq<u8>,
    idx_tree: u64,
    idx_leaf: u32,
    h_prime: nat,
    d: nat,
) -> bool {
    forall|j: nat|
        #![trigger ht_layer_leaf(idx_tree, idx_leaf, h_prime, j)]
        j < d ==> xmss_sig_valid(
            hash,
            sk_seed,
            pk_seed,
            layer_adrs(j, ht_layer_tree(idx_tree, h_prime, j)),
            ht_layer_leaf(idx_tree, idx_leaf, h_prime, j),
            ht_layer_msg(hash, sk_seed, pk_seed, msg, idx_tree, h_prime, j),
            sig_ht.subrange(j * xmss_sig_len(h_prime), (j + 1) * xmss_sig_len(h_prime)),
            h_prime,
        )
}

/// Hypertree verification recovers the tree roots: for a genuine hypertree signature, the root
/// recomputed on layer `j` is the root of the XMSS tree generated from `SK.seed` on that layer.
pub proof fn lemma_ht_node_from_valid_sig(
    hash: HashInstantiation,
    sk_seed: Seq<u8>,
    pk_seed: Seq<u8>,
    msg: Seq<u8>,
    sig_ht: Seq<u8>,
    idx_tree: u64,
    idx_leaf: u32,
    h_prime: nat,
    d: nat,
    j: nat,
)
    requires
        1 <= h_prime <= 31,
        j < d,
        idx_leaf < pow2(h_prime),
        sig_ht.len() >= d * xmss_sig_len(h_prime),
        ht_sig_valid(hash, sk_seed, pk_seed, msg, sig_ht, idx_tree, idx_leaf, h_prime, d),
    ensures
        ht_node(hash, msg, sig_ht, pk_seed, idx_tree, idx_leaf, h_prime, j) == xmss_node(
            hash,
            sk_seed,
            pk_seed,
            layer_adrs(j, ht_layer_tree(idx_tree, h_prime, j)),
            0,
            h_prime,
        ),
    decreases j,
{
    if j > 0 {
        lemma_ht_node_from_valid_sig(
            hash,
            sk_seed,
            pk_seed,
            msg,
            sig_ht,
            idx_tree,
            idx_leaf,
            h_prime,
            d,
            (j - 1) as nat,
        );
    }
    let leaf = ht_layer_leaf(idx_tree, idx_leaf, h_prime, j);
    let xl = xmss_sig_len(h_prime);
    assert((j + 1) * xl <= d * xl && 0 <= j * xl && j * xl + xl == (j + 1) * xl)
        by (nonlinear_arith)
        requires
            j < d,
            xl >= 0,
    ;
    if j > 0 {
        lemma_pow2_pos(h_prime);
        lemma2_to64();
        lemma_pow2_strictly_increases(h_prime, 32);
        let x = idx_tree as nat / pow2(((j - 1) * h_prime) as nat);
        assert(x % pow2(h_prime) < pow2(h_prime));
        assert(leaf < pow2(h_prime));
    }
    lemma_xmss_root_from_valid_sig(
        hash,
        sk_seed,
        pk_seed,
        layer_adrs(j, ht_layer_tree(idx_tree, h_prime, j)),
        leaf,
        ht_layer_msg(hash, sk_seed, pk_seed, msg, idx_tree, h_prime, j),
        sig_ht.subrange(j * xl, (j + 1) * xl),
        h_prime,
    );
}

/// A genuine SLH-DSA signature of `msg` under `SK.seed` (FIPS 205, Algorithm 19): whatever its
/// randomizer and FORS part, its hypertree part is a genuine hypertree signature of the FORS
/// public key that they determine, at the tree and leaf that the message digest selects.
pub open spec fn slh_sig_valid(
    msg: Seq<u8>,
    sig: Seq<u8>,
    pk_seed: Seq<u8>,
    pk_root: Seq<u8>,
    sk_seed: Seq<u8>,
    p: SlhDsaParams,
) -> bool {
    let digest = verify_digest(msg, sig, pk_seed, pk_root, p);
    ht_sig_valid(
        p.hash,
        sk_seed,
        pk_seed,
        verify_pk_fors(msg, sig, pk_seed, pk_root, p),
        sig_ht_part(sig, p),
        digest_tree_index(digest, p),
        digest_leaf_index(digest, p),
        p.h_prime as nat,
        p.d as nat,
    )
}

/// Verification recomputes the public key: for a genuine signature made with `SK.seed`, the root
/// recomputed from the message and the signature is the root generated from `SK.seed`, on every
/// parameter set whose hypertree height is `h = d·h'` (as all of FIPS 205's are).
pub proof fn lemma_verify_root_of_valid_signature(
    msg: Seq<u8>,
    sig: Seq<u8>,
    pk_seed: Seq<u8>,
    pk_root: Seq<u8>,
    sk_seed: Seq<u8>,
    p: SlhDsaParams,
)
    requires
        verify_params_ok(p),
        p.h == p.d * p.h_prime,
        sig.len() == spec_sig_len(p),
        slh_sig_valid(msg, sig, pk_seed, pk_root, sk_seed, p),
    ensures
        spec_slh_verify_root(msg, sig, pk_seed, pk_root, p) == spec_slh_keygen_root(
            p,
            sk_seed,
            pk_seed,
        ),
{
    let digest = verify_digest(msg, sig, pk_seed, pk_root, p);
    let idx_tree = digest_tree_index(digest, p);
    let idx_leaf = digest_leaf_index(digest, p);
    let hp = p.h_prime as nat;
    let d = p.d as nat;
    let tb = (p.h - p.h_prime) as nat;
    let sig_ht = sig_ht_part(sig, p);
    assert(d >= 1) by (nonlinear_arith)
        requires
            p.h == d * hp,
            p.h >= hp + 1,
            hp >= 1,
    ;
    assert(d * ((LEN + hp) * 16) <= 16 * (p.h + d * LEN) && tb == (d - 1) * hp && 16 * (1 + p.k
        * (p.a + 1) + p.h + d * 35) == 16 + p.k * (p.a + 1) * 16 + 16 * (p.h + d * 35))
        by (nonlinear_arith)
        requires
            p.h == d * hp,
            d >= 1,
            hp >= 1,
            tb == p.h - hp,
    ;
    // The digest indices are in range.
    lemma_pow2_pos(hp);
    lemma_pow2_pos(tb);
    lemma2_to64();
    lemma2_to64_rest();
    lemma_pow2_strictly_increases(hp, 32);
    if tb < 64 {
        lemma_pow2_strictly_increases(tb, 64);
    }
    let leaf_raw = be_int(digest.subrange(md_len(p) + tree_len(p), md_len(p) + tree_len(p)
        + leaf_len(p)));
    let tree_raw = be_int(digest.subrange(md_len(p), md_len(p) + tree_len(p)));
    assert(leaf_raw % pow2(hp) < pow2(hp));
    assert(tree_raw % pow2(tb) < pow2(tb));
    assert(idx_leaf < pow2(hp));
    assert(idx_tree < pow2(tb));
    lemma_ht_node_from_valid_sig(
        p.hash,
        sk_seed,
        pk_seed,
        verify_pk_fors(msg, sig, pk_seed, pk_root, p),
        sig_ht,
        idx_tree,
        idx_leaf,
        hp,
        d,
        (d - 1) as nat,
    );
    // The top layer is tree 0: the tree index has h − h' = (d − 1)·h' bits.
    assert(idx_tree as nat / pow2(((d - 1) * hp) as nat) == 0) by (nonlinear_arith)
        requires
            idx_tree < pow2(tb),
            tb == (d - 1) * hp,
            pow2(tb) > 0,
    ;
    assert(ht_layer_tree(idx_tree, hp, (d - 1) as nat) == 0);
    let top = adrs_set_layer(adrs_zero(), (p.d - 1) as u32);
    assert((0u64 >> 32u64) as u32 == 0u32 && 0u64 as u32 == 0u32) by (bit_vector);
    assert((0u32 >> 24u32) as u8 == 0u8 && (0u32 >> 16u32) as u8 == 0u8 && (0u32 >> 8u32) as u8
        == 0u8 && 0u32 as u8 == 0u8) by (bit_vector);
    assert(layer_adrs((d - 1) as nat, 0) =~= top);
}

} // verus!
