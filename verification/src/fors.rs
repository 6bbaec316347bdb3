//! FORS few-time signatures (FIPS 205, §8).
//!
//! Only signature verification is needed: [fors_pk_from_sig] recomputes the FORS public key from
//! a signature and the (secret) message-digest indices, using masked conditional swaps for the
//! authentication-path directions so the work done is index-independent. Its contract is the
//! branching computation of FIPS 205, Algorithm 17.
use crate::address::{
    adrs_copy_key_pair, adrs_set_tree_height, adrs_set_tree_index, adrs_set_type_and_clear,
    agree_outside, lemma_set_word_agree, lemma_small_word_at, lemma_small_word_bytes,
    lemma_zero_word_bytes, set_word, word_at, Adrs, ADRS_FORS_PRF, ADRS_FORS_ROOTS,
};
use crate::hashes::{f, h, spec_f, spec_h, spec_prf, spec_t_l, t_l, u32_be, Node};
use crate::params::{HashInstantiation, SlhDsaParams, N};
use crate::util::{append_bytes, bit_of_u32, cond_swap_nodes, mask_from_bit, node_from_slice};
use vstd::arithmetic::power2::{lemma_pow2_adds, lemma_pow2_pos, pow2};
use vstd::bits::lemma_u32_shl_is_mul;
use vstd::prelude::*;
use vstd::slice::slice_subrange;

verus! {

/// The leaf index of tree `i` within the whole FORS forest, as computed: `indices[i]` with
/// `i` placed in the bits above the low `a` bits.
pub open spec fn fors_leaf_index(indices: Seq<u32>, i: int, a: nat) -> u32 {
    indices[i] ^ ((i as u32) << (a as u32))
}

/// The FORS address with tree height and tree index set.
pub open spec fn fors_node_adrs(adrs: Seq<u8>, height: nat, index: u32) -> Seq<u8> {
    adrs_set_tree_index(adrs_set_tree_height(adrs, height as u32), index)
}

/// The address used to compress the FORS roots into the FORS public key.
pub open spec fn fors_roots_adrs(adrs: Seq<u8>) -> Seq<u8> {
    adrs_copy_key_pair(adrs_set_type_and_clear(adrs, ADRS_FORS_ROOTS), adrs)
}

/// The node at height `j` on the authentication path of FORS tree `i` (FIPS 205, Algorithm 17,
/// steps 2–20): the leaf is `F` of the secret value, and bit `j − 1` of `indices[i]` says on
/// which side the authentication node stands.
pub open spec fn fors_path_node(
    hash: HashInstantiation,
    sig: Seq<u8>,
    indices: Seq<u32>,
    pk_seed: Seq<u8>,
    adrs: Seq<u8>,
    i: int,
    a: nat,
    j: nat,
) -> Seq<u8>
    decreases j,
{
    let base = i * (a + 1) * N;
    let leaf = fors_leaf_index(indices, i, a);
    if j == 0 {
        spec_f(hash, fors_node_adrs(adrs, 0, leaf), pk_seed, sig.subrange(base, base + N))
    } else {
        let node = fors_path_node(hash, sig, indices, pk_seed, adrs, i, a, (j - 1) as nat);
        let auth = sig.subrange(base + j * N, base + (j + 1) * N);
        let node_adrs = fors_node_adrs(adrs, j, leaf >> (j as u32));
        if (indices[i] >> ((j - 1) as u32)) & 1 == 0 {
            spec_h(hash, node_adrs, pk_seed, node, auth)
        } else {
            spec_h(hash, node_adrs, pk_seed, auth, node)
        }
    }
}

/// The concatenated roots of the first `n` FORS trees.
pub open spec fn fors_roots(
    hash: HashInstantiation,
    sig: Seq<u8>,
    indices: Seq<u32>,
    pk_seed: Seq<u8>,
    adrs: Seq<u8>,
    a: nat,
    n: nat,
) -> Seq<u8>
    decreases n,
{
    if n == 0 {
        seq![]
    } else {
        fors_roots(hash, sig, indices, pk_seed, adrs, a, (n - 1) as nat) + fors_path_node(
            hash,
            sig,
            indices,
            pk_seed,
            adrs,
            n - 1,
            a,
            a,
        )
    }
}

/// The FORS public key recomputed from a signature (FIPS 205, Algorithm 17).
pub open spec fn spec_fors_pk_from_sig(
    hash: HashInstantiation,
    sig: Seq<u8>,
    indices: Seq<u32>,
    pk_seed: Seq<u8>,
    adrs: Seq<u8>,
    k: nat,
    a: nat,
) -> Seq<u8> {
    spec_t_l(
        hash,
        fors_roots_adrs(adrs),
        pk_seed,
        fors_roots(hash, sig, indices, pk_seed, adrs, a, k),
    )
}

/// When `indices[i]` is an `a`-bit value and the forest has fewer than 2^32 leaves, the computed
/// leaf index is `i · 2^a + indices[i]` (the two parts occupy disjoint bits, so XOR is addition),
/// as FIPS 205, Algorithm 17 writes it.
pub proof fn lemma_fors_leaf_index(indices: Seq<u32>, i: int, a: nat)
    requires
        0 <= i < indices.len(),
        a < 32,
        indices[i] < pow2(a),
        i * pow2(a) + pow2(a) <= 0x1_0000_0000,
    ensures
        fors_leaf_index(indices, i, a) == i * pow2(a) + indices[i],
{
    let x = indices[i];
    let iu = i as u32;
    let au = a as u32;
    vstd::arithmetic::power2::lemma_pow2_pos(a);
    assert(i < 0x1_0000_0000) by (nonlinear_arith)
        requires
            i * pow2(a) + pow2(a) <= 0x1_0000_0000,
            pow2(a) > 0,
            i >= 0,
    ;
    assert(iu == i);
    assert(iu * pow2(a) <= u32::MAX);
    lemma_u32_shl_is_mul(iu, au);
    vstd::bits::lemma_u32_mul_pow2_le_max_iff_max_shr(iu, au, u32::MAX);
    let s = iu << au;
    vstd::bits::lemma_u32_pow2_no_overflow(a);
    let p = pow2(a) as u32;
    vstd::bits::lemma_u32_shl_is_mul(1, au);
    assert(p == 1u32 << au);
    assert(x ^ s == x + s) by (bit_vector)
        requires
            au < 32,
            x < p,
            p == 1u32 << au,
            s == iu << au,
            iu <= (0xFFFF_FFFFu32 >> au),
    ;
}

/// Recomputes a FORS public key from a signature and the `k` (secret) `a`-bit tree indices
/// (FIPS 205, Algorithm 17), with index-independent control flow.
///
/// `sig_fors` is the flat FORS signature: `k` blocks of one secret-value node plus `a`
/// authentication nodes. `adrs` must have type `FORS_TREE` with layer, tree, and key-pair
/// addresses set.
pub fn fors_pk_from_sig(
    params: &SlhDsaParams,
    sig_fors: &[u8],
    indices: &[u32],
    pk_seed: &Node,
    adrs: &Adrs,
    k: usize,
    a: usize,
) -> (pk: Node)
    requires
        sig_fors@.len() == k * (a + 1) * N,
        indices@.len() == k,
        a < 32,
    ensures
        pk@ == spec_fors_pk_from_sig(
            params.hash,
            sig_fors@,
            indices@,
            pk_seed@,
            adrs@,
            k as nat,
            a as nat,
        ),
{
    let hash = params.hash;
    proof {
        adrs.lemma_len();
    }
    let mut tree_adrs = *adrs;
    let total = sig_fors.len();
    let mut roots: Vec<u8> = Vec::new();
    for i in 0..k
        invariant
            hash == params.hash,
            sig_fors@.len() == k * (a + 1) * N,
            total == sig_fors@.len(),
            indices@.len() == k,
            a < 32,
            adrs@.len() == 32,
            agree_outside(tree_adrs@, adrs@, 24, 32),
            roots@ == fors_roots(hash, sig_fors@, indices@, pk_seed@, adrs@, a as nat, i as nat),
            roots@.len() == i * N,
    {
        assert((i + 1) * (a + 1) * 16 <= k * (a + 1) * 16 && i * (a + 1) * 16 + (a + 1) * 16 == (i
            + 1) * (a + 1) * 16 && i * (a + 1) <= i * (a + 1) * 16) by (nonlinear_arith)
            requires
                i < k,
                a >= 0,
        ;
        let base = i * (a + 1) * N;
        let sk = node_from_slice(slice_subrange(sig_fors, base, base + N));
        assert(sk@ =~= sig_fors@.subrange(base as int, base + N));
        // Leaf index within the whole FORS forest: i·2^a + indices[i] (disjoint bits, so XOR).
        let leaf_idx = indices[i] ^ ((i as u32) << (a as u32));
        proof {
            let with_height = adrs_set_tree_height(adrs@, 0);
            assert(agree_outside(set_word(tree_adrs@, 24, 0), with_height, 28, 32));
            lemma_set_word_agree(set_word(tree_adrs@, 24, 0), with_height, 28, leaf_idx);
        }
        tree_adrs.set_tree_height_const(0);
        tree_adrs.set_tree_index_wire(&leaf_idx);
        assert(tree_adrs@ == fors_node_adrs(adrs@, 0, leaf_idx));
        let mut node = f(params, &tree_adrs, pk_seed, &sk);
        for j in 0..a
            invariant
                hash == params.hash,
                sig_fors@.len() == k * (a + 1) * N,
                indices@.len() == k,
                i < k,
                a < 32,
                base == i * (a + 1) * N,
                total == sig_fors@.len(),
                base + (a + 1) * N <= sig_fors@.len(),
                leaf_idx == fors_leaf_index(indices@, i as int, a as nat),
                adrs@.len() == 32,
                agree_outside(tree_adrs@, adrs@, 24, 32),
                node@ == fors_path_node(
                    hash,
                    sig_fors@,
                    indices@,
                    pk_seed@,
                    adrs@,
                    i as int,
                    a as nat,
                    j as nat,
                ),
        {
            let height = (j + 1) as u32;
            let index = leaf_idx >> height;
            proof {
                let with_height = adrs_set_tree_height(adrs@, height);
                assert(agree_outside(set_word(tree_adrs@, 24, height), with_height, 28, 32));
                lemma_set_word_agree(set_word(tree_adrs@, 24, height), with_height, 28, index);
            }
            tree_adrs.set_tree_height_const(height);
            tree_adrs.set_tree_index_wire(&index);
            let auth_slice = slice_subrange(sig_fors, base + (1 + j) * N, base + (2 + j) * N);
            let auth = node_from_slice(auth_slice);
            // Bit j of the tree index picks the side: 0 hashes node ‖ auth, 1 hashes auth ‖ node.
            let bit = bit_of_u32(&indices[i], j);
            let mask = mask_from_bit(bit);
            let ghost prev = node@;
            let (l, r) = cond_swap_nodes(mask, &node, &auth);
            node = h(params, &tree_adrs, pk_seed, &l, &r);
            proof {
                let jj = (j + 1) as nat;
                assert(auth@ =~= sig_fors@.subrange(base + jj * N, base + (jj + 1) * N));
                assert(tree_adrs@ == fors_node_adrs(adrs@, jj, leaf_idx >> (jj as u32)));
                assert((jj - 1) as u32 == j as u32);
                if (indices@[i as int] >> (j as u32)) & 1 == 0 {
                    assert(l@ == prev && r@ == auth@);
                } else {
                    assert(l@ == auth@ && r@ == prev);
                }
            }
        }
        append_bytes(&mut roots, node.as_slice());
    }
    let mut roots_adrs = *adrs;
    roots_adrs.set_type_and_clear(ADRS_FORS_ROOTS);
    roots_adrs.copy_key_pair_from(adrs);
    t_l(params, &roots_adrs, pk_seed, roots)
}

/// The FORS secret value of leaf `idx` of the forest (FIPS 205, Algorithm 14, `fors_skGen`).
pub open spec fn fors_skgen(
    hash: HashInstantiation,
    sk_seed: Seq<u8>,
    pk_seed: Seq<u8>,
    adrs: Seq<u8>,
    idx: nat,
) -> Seq<u8> {
    spec_prf(hash, fors_prf_adrs(adrs, idx), pk_seed, sk_seed)
}

/// The address of the FORS secret value of forest leaf `idx` (FIPS 205, Algorithm 14,
/// `skADRS`).
pub open spec fn fors_prf_adrs(adrs: Seq<u8>, idx: nat) -> Seq<u8> {
    adrs_set_tree_index(
        adrs_copy_key_pair(adrs_set_type_and_clear(adrs, ADRS_FORS_PRF), adrs),
        idx as u32,
    )
}

/// The FORS tree node at height `z` and forest index `i` (FIPS 205, Algorithm 15,
/// `fors_node`).
pub open spec fn fors_node(
    hash: HashInstantiation,
    sk_seed: Seq<u8>,
    pk_seed: Seq<u8>,
    adrs: Seq<u8>,
    i: nat,
    z: nat,
) -> Seq<u8>
    decreases z,
{
    if z == 0 {
        spec_f(
            hash,
            fors_node_adrs(adrs, 0, i as u32),
            pk_seed,
            fors_skgen(hash, sk_seed, pk_seed, adrs, i),
        )
    } else {
        spec_h(
            hash,
            fors_node_adrs(adrs, z, i as u32),
            pk_seed,
            fors_node(hash, sk_seed, pk_seed, adrs, 2 * i, (z - 1) as nat),
            fors_node(hash, sk_seed, pk_seed, adrs, 2 * i + 1, (z - 1) as nat),
        )
    }
}

/// The concatenated roots of the first `n` FORS trees generated from `SK.seed`.
pub open spec fn fors_tree_roots(
    hash: HashInstantiation,
    sk_seed: Seq<u8>,
    pk_seed: Seq<u8>,
    adrs: Seq<u8>,
    a: nat,
    n: nat,
) -> Seq<u8>
    decreases n,
{
    if n == 0 {
        seq![]
    } else {
        fors_tree_roots(hash, sk_seed, pk_seed, adrs, a, (n - 1) as nat) + fors_node(
            hash,
            sk_seed,
            pk_seed,
            adrs,
            (n - 1) as nat,
            a,
        )
    }
}

/// The FORS public key generated from `SK.seed`: `T_k` of the `k` tree roots.
pub open spec fn spec_fors_pk(
    hash: HashInstantiation,
    sk_seed: Seq<u8>,
    pk_seed: Seq<u8>,
    adrs: Seq<u8>,
    k: nat,
    a: nat,
) -> Seq<u8> {
    spec_t_l(
        hash,
        fors_roots_adrs(adrs),
        pk_seed,
        fors_tree_roots(hash, sk_seed, pk_seed, adrs, a, k),
    )
}

/// The secret-value block of tree `i` in a flat FORS signature.
pub open spec fn fors_secret_block(sig: Seq<u8>, a: nat, i: int) -> Seq<u8> {
    sig.subrange(i * (a + 1) * N, i * (a + 1) * N + N)
}

/// Authentication block `t` of tree `i` in a flat FORS signature.
pub open spec fn fors_auth_block(sig: Seq<u8>, a: nat, i: int, t: int) -> Seq<u8> {
    sig.subrange(i * (a + 1) * N + (t + 1) * N, i * (a + 1) * N + (t + 2) * N)
}

/// A genuine FORS signature of the indices (FIPS 205, Algorithm 16, `fors_sign`): for each tree
/// `i`, the secret value of leaf `i·2^a + indices[i]`, then at each height `t` the sibling
/// `i·2^(a−t) + (⌊indices[i]/2^t⌋ ⊕ 1)` of the path node.
pub open spec fn fors_sig_valid(
    hash: HashInstantiation,
    sk_seed: Seq<u8>,
    pk_seed: Seq<u8>,
    adrs: Seq<u8>,
    indices: Seq<u32>,
    sig: Seq<u8>,
    k: nat,
    a: nat,
) -> bool {
    &&& forall|i: int|
        #![trigger fors_secret_block(sig, a, i)]
        0 <= i < k ==> fors_secret_block(sig, a, i) == fors_skgen(
            hash,
            sk_seed,
            pk_seed,
            adrs,
            (i * pow2(a) + indices[i]) as nat,
        )
    &&& forall|i: int, t: int|
        #![trigger fors_auth_block(sig, a, i, t)]
        0 <= i < k && 0 <= t < a ==> fors_auth_block(sig, a, i, t) == fors_node(
            hash,
            sk_seed,
            pk_seed,
            adrs,
            (i * pow2((a - t) as nat) + ((indices[i] >> (t as u32)) ^ 1u32)) as nat,
            t as nat,
        )
}

/// The facts about the leaf index of tree `i` that the FORS round trip rests on.
proof fn lemma_fors_tree_bounds(indices: Seq<u32>, k: nat, a: nat, i: int)
    requires
        a < 32,
        0 <= i < k,
        indices.len() == k,
        indices[i] < pow2(a),
        k * pow2(a) <= 0x1_0000_0000,
    ensures
        i * pow2(a) + pow2(a) <= 0x1_0000_0000,
        i <= u32::MAX,
        (i as u32) <= (u32::MAX >> (a as u32)),
        indices[i] < (1u32 << (a as u32)),
        fors_leaf_index(indices, i, a) == indices[i] ^ ((i as u32) << (a as u32)),
        fors_leaf_index(indices, i, a) == i * pow2(a) + indices[i],
{
    lemma_pow2_pos(a);
    assert(i * pow2(a) + pow2(a) <= k * pow2(a)) by (nonlinear_arith)
        requires
            i < k,
            pow2(a) > 0,
    ;
    lemma_fors_leaf_index(indices, i, a);
    assert(i <= u32::MAX) by (nonlinear_arith)
        requires
            i * pow2(a) + pow2(a) <= 0x1_0000_0000,
            pow2(a) > 0,
            i >= 0,
    ;
    let iu = i as u32;
    let au = a as u32;
    vstd::bits::lemma_u32_mul_pow2_le_max_iff_max_shr(iu, au, u32::MAX);
    vstd::bits::lemma_u32_pow2_no_overflow(a);
    lemma_u32_shl_is_mul(1, au);
}

proof fn lemma_fors_path_is_node(
    hash: HashInstantiation,
    sk_seed: Seq<u8>,
    pk_seed: Seq<u8>,
    adrs: Seq<u8>,
    indices: Seq<u32>,
    sig: Seq<u8>,
    k: nat,
    a: nat,
    i: int,
    j: nat,
)
    requires
        a < 32,
        0 <= i < k,
        j <= a,
        indices.len() == k,
        indices[i] < pow2(a),
        k * pow2(a) <= 0x1_0000_0000,
        fors_sig_valid(hash, sk_seed, pk_seed, adrs, indices, sig, k, a),
    ensures
        fors_path_node(hash, sig, indices, pk_seed, adrs, i, a, j) == fors_node(
            hash,
            sk_seed,
            pk_seed,
            adrs,
            (fors_leaf_index(indices, i, a) >> (j as u32)) as nat,
            j,
        ),
    decreases j,
{
    lemma_fors_tree_bounds(indices, k, a, i);
    let leaf = fors_leaf_index(indices, i, a);
    let idx = indices[i];
    let iu = i as u32;
    let au = a as u32;
    if j == 0 {
        assert(leaf >> 0u32 == leaf) by (bit_vector);
        assert(fors_secret_block(sig, a, i) == fors_skgen(
            hash,
            sk_seed,
            pk_seed,
            adrs,
            (i * pow2(a) + indices[i]) as nat,
        ));
        assert(fors_secret_block(sig, a, i) =~= sig.subrange(
            i * (a + 1) * N,
            i * (a + 1) * N + N,
        ));
    } else {
        let t = (j - 1) as nat;
        lemma_fors_path_is_node(hash, sk_seed, pk_seed, adrs, indices, sig, k, a, i, t);
        let tu = t as u32;
        let ju = j as u32;
        let c = leaf >> tu;
        let p = leaf >> ju;
        let hi = iu << ((au - tu) as u32);
        let sib = c ^ 1u32;
        assert(c == 2 * p + (c & 1u32) && (c & 1u32 == 0u32 || c & 1u32 == 1u32) && (c & 1u32)
            == ((idx >> tu) & 1u32) && sib == hi + ((idx >> tu) ^ 1u32) && (c & 1u32 == 0u32
            ==> sib == c + 1) && (c & 1u32 == 1u32 ==> sib + 1 == c)) by (bit_vector)
            requires
                au < 32,
                tu < au,
                ju == tu + 1,
                idx < (1u32 << au),
                iu <= (0xFFFF_FFFFu32 >> au),
                leaf == idx ^ (iu << au),
                c == leaf >> tu,
                p == leaf >> ju,
                hi == iu << ((au - tu) as u32),
                sib == c ^ 1u32,
        ;
        // The sibling index of the signature is the forest index of the path node's sibling.
        let e = (a - t) as nat;
        lemma_pow2_adds(e, t);
        lemma_pow2_pos(t);
        lemma_pow2_pos(e);
        assert(i * pow2(e) <= i * pow2(a)) by (nonlinear_arith)
            requires
                pow2(a) == pow2(e) * pow2(t),
                pow2(t) >= 1,
                pow2(e) >= 1,
                i >= 0,
        ;
        lemma_u32_shl_is_mul(iu, (au - tu) as u32);
        assert(hi == i * pow2(e));
        let node = fors_path_node(hash, sig, indices, pk_seed, adrs, i, a, t);
        let auth = fors_auth_block(sig, a, i, t as int);
        assert(auth == fors_node(hash, sk_seed, pk_seed, adrs, sib as nat, t));
        assert(auth =~= sig.subrange(i * (a + 1) * N + j * N, i * (a + 1) * N + (j + 1) * N));
        let left = fors_node(hash, sk_seed, pk_seed, adrs, 2 * (p as nat), t);
        let right = fors_node(hash, sk_seed, pk_seed, adrs, 2 * (p as nat) + 1, t);
        assert(fors_node(hash, sk_seed, pk_seed, adrs, p as nat, j) == spec_h(
            hash,
            fors_node_adrs(adrs, j, p),
            pk_seed,
            left,
            right,
        ));
        assert((j - 1) as u32 == tu);
        if c & 1u32 == 0u32 {
            assert(c as nat == 2 * (p as nat) && sib as nat == 2 * (p as nat) + 1);
            assert(node == left && auth == right);
        } else {
            assert(c as nat == 2 * (p as nat) + 1 && sib as nat == 2 * (p as nat));
            assert(node == right && auth == left);
        }
    }
}

proof fn lemma_fors_roots_agree(
    hash: HashInstantiation,
    sk_seed: Seq<u8>,
    pk_seed: Seq<u8>,
    adrs: Seq<u8>,
    indices: Seq<u32>,
    sig: Seq<u8>,
    k: nat,
    a: nat,
    n: nat,
)
    requires
        a < 32,
        n <= k,
        indices.len() == k,
        forall|i: int| 0 <= i < k ==> indices[i] < pow2(a),
        k * pow2(a) <= 0x1_0000_0000,
        fors_sig_valid(hash, sk_seed, pk_seed, adrs, indices, sig, k, a),
    ensures
        fors_roots(hash, sig, indices, pk_seed, adrs, a, n) == fors_tree_roots(
            hash,
            sk_seed,
            pk_seed,
            adrs,
            a,
            n,
        ),
    decreases n,
{
    if n > 0 {
        let i = n - 1;
        lemma_fors_roots_agree(hash, sk_seed, pk_seed, adrs, indices, sig, k, a, (n - 1) as nat);
        lemma_fors_path_is_node(hash, sk_seed, pk_seed, adrs, indices, sig, k, a, i, a);
        lemma_fors_tree_bounds(indices, k, a, i);
        let leaf = fors_leaf_index(indices, i, a);
        let idx = indices[i];
        let iu = i as u32;
        let au = a as u32;
        assert(leaf >> au == iu) by (bit_vector)
            requires
                au < 32,
                idx < (1u32 << au),
                iu <= (0xFFFF_FFFFu32 >> au),
                leaf == idx ^ (iu << au),
        ;
    }
}

/// FORS verification recovers the FORS public key: for a genuine FORS signature of `a`-bit
/// indices (FIPS 205, Algorithm 16), the key recomputed from the signature is the FORS public
/// key generated from `SK.seed`, whatever the indices are.
pub proof fn lemma_fors_pk_from_valid_sig(
    hash: HashInstantiation,
    sk_seed: Seq<u8>,
    pk_seed: Seq<u8>,
    adrs: Seq<u8>,
    indices: Seq<u32>,
    sig: Seq<u8>,
    k: nat,
    a: nat,
)
    requires
        a < 32,
        indices.len() == k,
        forall|i: int| 0 <= i < k ==> indices[i] < pow2(a),
        k * pow2(a) <= 0x1_0000_0000,
        fors_sig_valid(hash, sk_seed, pk_seed, adrs, indices, sig, k, a),
    ensures
        spec_fors_pk_from_sig(hash, sig, indices, pk_seed, adrs, k, a) == spec_fors_pk(
            hash,
            sk_seed,
            pk_seed,
            adrs,
            k,
            a,
        ),
{
    lemma_fors_roots_agree(hash, sk_seed, pk_seed, adrs, indices, sig, k, a, k);
}

/// The address that compresses the FORS roots (FIPS 205, Algorithm 17, `forspkADRS`): the layer
/// and tree of `adrs`, type `FORS_ROOTS`, the full key-pair address of `adrs`, the rest zero.
pub proof fn lemma_fors_roots_adrs_layout(adrs: Seq<u8>)
    requires
        adrs.len() == 32,
    ensures
        ({
            let x = fors_roots_adrs(adrs);
            &&& x.len() == 32
            &&& x.subrange(0, 16) == adrs.subrange(0, 16)
            &&& x.subrange(16, 20) == seq![0u8, 0u8, 0u8, 4u8]
            &&& x.subrange(20, 24) == adrs.subrange(20, 24)
            &&& x.subrange(24, 32) == seq![0u8, 0u8, 0u8, 0u8, 0u8, 0u8, 0u8, 0u8]
        }),
{
    let x = fors_roots_adrs(adrs);
    lemma_zero_word_bytes();
    lemma_small_word_bytes(ADRS_FORS_ROOTS);
    assert(x.subrange(0, 16) =~= adrs.subrange(0, 16));
    assert(x.subrange(16, 20) =~= seq![0u8, 0u8, 0u8, 4u8]);
    assert(x.subrange(20, 24) =~= adrs.subrange(20, 24));
    assert(x.subrange(24, 32) =~= seq![0u8, 0u8, 0u8, 0u8, 0u8, 0u8, 0u8, 0u8]);
}

/// The FORS public key is `T_k` of the `k` roots under the FORS-roots address of `adrs`, both
/// when recomputed from a signature and when generated (FIPS 205, Algorithms 16 and 17,
/// `forspkADRS`): any address whose layer and tree (bytes 0..16) and key-pair address (bytes
/// 20..24) are those of `adrs`, whose type word is `FORS_ROOTS`, and whose last 8 bytes are zero.
pub proof fn lemma_fors_pk_roots_adrs(
    hash: HashInstantiation,
    sk_seed: Seq<u8>,
    sig: Seq<u8>,
    indices: Seq<u32>,
    pk_seed: Seq<u8>,
    adrs: Seq<u8>,
    k: nat,
    a: nat,
    roots_adrs: Seq<u8>,
)
    requires
        adrs.len() == 32,
        roots_adrs.len() == 32,
        roots_adrs.subrange(0, 16) == adrs.subrange(0, 16),
        word_at(roots_adrs, 16) == ADRS_FORS_ROOTS,
        roots_adrs.subrange(20, 24) == adrs.subrange(20, 24),
        forall|j: int| 24 <= j < 32 ==> roots_adrs[j] == 0,
    ensures
        spec_fors_pk_from_sig(hash, sig, indices, pk_seed, adrs, k, a) == spec_t_l(
            hash,
            roots_adrs,
            pk_seed,
            fors_roots(hash, sig, indices, pk_seed, adrs, a, k),
        ),
        spec_fors_pk(hash, sk_seed, pk_seed, adrs, k, a) == spec_t_l(
            hash,
            roots_adrs,
            pk_seed,
            fors_tree_roots(hash, sk_seed, pk_seed, adrs, a, k),
        ),
{
    let x = fors_roots_adrs(adrs);
    lemma_fors_roots_adrs_layout(adrs);
    lemma_small_word_at(roots_adrs, 16, ADRS_FORS_ROOTS);
    assert forall|j: int| 0 <= j < 32 implies x[j] == roots_adrs[j] by {
        if j < 16 {
            assert(x.subrange(0, 16)[j] == roots_adrs.subrange(0, 16)[j]);
        } else if j < 20 {
            assert(x.subrange(16, 20)[j - 16] == x[j]);
        } else if j < 24 {
            assert(x.subrange(20, 24)[j - 20] == roots_adrs.subrange(20, 24)[j - 20]);
        } else {
            assert(x.subrange(24, 32)[j - 24] == x[j]);
        }
    }
    assert(x =~= roots_adrs);
}

/// The address of the FORS secret value of leaf `idx` (FIPS 205, Algorithm 14, `skADRS`): the
/// layer and tree of `adrs`, type `FORS_PRF`, the full key-pair address of `adrs`, height 0,
/// tree index `idx`.
pub proof fn lemma_fors_prf_adrs_layout(adrs: Seq<u8>, idx: nat)
    requires
        adrs.len() == 32,
    ensures
        ({
            let x = fors_prf_adrs(adrs, idx);
            &&& x.len() == 32
            &&& x.subrange(0, 16) == adrs.subrange(0, 16)
            &&& x.subrange(16, 20) == seq![0u8, 0u8, 0u8, 6u8]
            &&& x.subrange(20, 24) == adrs.subrange(20, 24)
            &&& x.subrange(24, 28) == seq![0u8, 0u8, 0u8, 0u8]
            &&& x.subrange(28, 32) == u32_be(idx as u32)
        }),
{
    let x = fors_prf_adrs(adrs, idx);
    lemma_zero_word_bytes();
    lemma_small_word_bytes(ADRS_FORS_PRF);
    assert(x.subrange(0, 16) =~= adrs.subrange(0, 16));
    assert(x.subrange(16, 20) =~= seq![0u8, 0u8, 0u8, 6u8]);
    assert(x.subrange(20, 24) =~= adrs.subrange(20, 24));
    assert(x.subrange(24, 28) =~= seq![0u8, 0u8, 0u8, 0u8]);
    assert(x.subrange(28, 32) =~= u32_be(idx as u32));
}

/// The address of a FORS tree node: `adrs` up to its key-pair address, then the tree height and
/// the tree index.
pub proof fn lemma_fors_node_adrs_layout(adrs: Seq<u8>, height: nat, index: u32)
    requires
        adrs.len() == 32,
    ensures
        ({
            let x = fors_node_adrs(adrs, height, index);
            &&& x.len() == 32
            &&& x.subrange(0, 24) == adrs.subrange(0, 24)
            &&& x.subrange(24, 28) == u32_be(height as u32)
            &&& x.subrange(28, 32) == u32_be(index)
        }),
{
    let x = fors_node_adrs(adrs, height, index);
    assert(x.subrange(0, 24) =~= adrs.subrange(0, 24));
    assert(x.subrange(24, 28) =~= u32_be(height as u32));
    assert(x.subrange(28, 32) =~= u32_be(index));
}

} // verus!
