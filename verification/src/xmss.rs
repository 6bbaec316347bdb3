//! XMSS Merkle trees over WOTS+ leaves (FIPS 205, §6).
//!
//! [xmss_root] computes a tree root from the secret seed with public control flow, using an
//! iterative treehash (a stack of at most `h' + 1` nodes) rather than the recursive formulation
//! of FIPS 205; its contract is the recursive `xmss_node` of FIPS 205, Algorithm 9.
//! [xmss_pk_from_sig] walks an authentication path whose directions depend on the secret leaf
//! index, using masked conditional swaps so the work done is index-independent; its contract is
//! the branching walk of FIPS 205, Algorithm 11.
use crate::address::{
    adrs_set_key_pair, adrs_set_tree_height, adrs_set_tree_index, adrs_set_type_and_clear,
    agree_outside, lemma_set_word_agree, lemma_small_word_bytes, lemma_zero_word_bytes, set_word,
    Adrs, ADRS_TREE, ADRS_WOTS_HASH,
};
use crate::hashes::{h, spec_h, u32_be, Node};
use crate::params::{HashInstantiation, SlhDsaParams, N};
use crate::util::{bit_of_u32, cond_swap_nodes, mask_from_bit, node_from_slice};
use crate::wots::{
    lemma_wots_pk_from_valid_sig, spec_wots_pk_from_sig, spec_wots_pk_gen,
    wots_pk_from_sig, wots_pk_gen, wots_sig_valid, LEN,
};
use vstd::arithmetic::power2::{
    lemma2_to64, lemma_pow2_adds, lemma_pow2_pos, lemma_pow2_strictly_increases, lemma_pow2_unfold,
    pow2,
};
use vstd::bits::{lemma_usize_pow2_no_overflow, lemma_usize_shl_is_mul};
use vstd::prelude::*;
use vstd::slice::slice_subrange;

verus! {

/// The address of leaf `i`: the WOTS+ key pair `i`.
pub open spec fn xmss_leaf_adrs(adrs: Seq<u8>, i: nat) -> Seq<u8> {
    adrs_set_key_pair(adrs_set_type_and_clear(adrs, ADRS_WOTS_HASH), i as u32)
}

/// The address of the tree node at height `z` and index `i`.
pub open spec fn xmss_tree_adrs(adrs: Seq<u8>, z: nat, i: nat) -> Seq<u8> {
    adrs_set_tree_index(
        adrs_set_tree_height(adrs_set_type_and_clear(adrs, ADRS_TREE), z as u32),
        i as u32,
    )
}

/// The XMSS tree node at height `z` and index `i` (FIPS 205, Algorithm 9, `xmss_node`).
pub open spec fn xmss_node(
    hash: HashInstantiation,
    sk_seed: Seq<u8>,
    pk_seed: Seq<u8>,
    adrs: Seq<u8>,
    i: nat,
    z: nat,
) -> Seq<u8>
    decreases z,
{
    if z == 0 {
        spec_wots_pk_gen(hash, sk_seed, pk_seed, xmss_leaf_adrs(adrs, i))
    } else {
        spec_h(
            hash,
            xmss_tree_adrs(adrs, z, i),
            pk_seed,
            xmss_node(hash, sk_seed, pk_seed, adrs, 2 * i, (z - 1) as nat),
            xmss_node(hash, sk_seed, pk_seed, adrs, 2 * i + 1, (z - 1) as nat),
        )
    }
}

/// The first leaf covered by a treehash stack entry `(node, height, index)`.
pub open spec fn span_start(e: (Node, usize, usize)) -> int {
    e.2 * pow2(e.1 as nat)
}

/// One past the last leaf covered by a treehash stack entry.
pub open spec fn span_end(e: (Node, usize, usize)) -> int {
    (e.2 + 1) * pow2(e.1 as nat)
}

/// A treehash stack: heights strictly decrease, the covered leaf ranges are contiguous and the
/// first starts at leaf 0.
pub open spec fn stack_chain(s: Seq<(Node, usize, usize)>) -> bool {
    &&& forall|j: int|
        #![trigger s[j]]
        0 <= j < s.len() - 1 ==> s[j].1 > s[j + 1].1 && span_end(s[j]) == span_start(s[j + 1])
    &&& s.len() > 0 ==> span_start(s[0]) == 0
}

/// Every stack entry holds the tree node that it names.
pub open spec fn stack_nodes(
    hash: HashInstantiation,
    sk_seed: Seq<u8>,
    pk_seed: Seq<u8>,
    adrs: Seq<u8>,
    s: Seq<(Node, usize, usize)>,
) -> bool {
    forall|j: int|
        #![trigger s[j]]
        0 <= j < s.len() ==> s[j].0@ == xmss_node(
            hash,
            sk_seed,
            pk_seed,
            adrs,
            s[j].2 as nat,
            s[j].1 as nat,
        )
}

proof fn lemma_pow2_le(a: nat, b: nat)
    requires
        a <= b,
    ensures
        pow2(a) <= pow2(b),
{
    if a < b {
        lemma_pow2_strictly_increases(a, b);
    }
}

/// An entry covers exactly `2^height` leaves.
proof fn lemma_span_width(e: (Node, usize, usize))
    ensures
        span_end(e) - span_start(e) == pow2(e.1 as nat),
        span_start(e) >= 0,
{
    lemma_pow2_pos(e.1 as nat);
    let p = pow2(e.1 as nat) as int;
    let i = e.2 as int;
    assert((i + 1) * p - i * p == p && i * p >= 0) by (nonlinear_arith)
        requires
            p > 0,
            i >= 0,
    ;
}

/// The leaves covered from entry `a` to the top of a chained stack are fewer than
/// `2^(height_a + 1)`, and the top ends no earlier than entry `a`.
proof fn lemma_chain_span(s: Seq<(Node, usize, usize)>, a: int)
    requires
        stack_chain(s),
        0 <= a < s.len(),
    ensures
        span_end(s.last()) - span_start(s[a]) < pow2((s[a].1 + 1) as nat),
        span_end(s.last()) >= span_end(s[a]),
    decreases s.len() - a,
{
    lemma_span_width(s[a]);
    lemma_pow2_unfold((s[a].1 + 1) as nat);
    lemma_pow2_pos(s[a].1 as nat);
    if a < s.len() - 1 {
        lemma_chain_span(s, a + 1);
        assert(s[a].1 > s[a + 1].1 && span_end(s[a]) == span_start(s[a + 1]));
        lemma_pow2_le((s[a + 1].1 + 1) as nat, s[a].1 as nat);
        lemma_span_width(s[a + 1]);
    }
}

/// The index arithmetic of one treehash merge: the left sibling is the even index just before
/// the current one, and their parent covers exactly their two ranges.
proof fn lemma_merge(s: Seq<(Node, usize, usize)>, cur: (Node, usize, usize))
    requires
        stack_chain(s),
        s.len() > 0,
        s.last().1 == cur.1,
        span_end(s.last()) == span_start(cur),
    ensures
        cur.2 == s.last().2 + 1,
        s.last().2 % 2 == 0,
        (cur.2 / 2) * pow2((cur.1 + 1) as nat) == span_start(s.last()),
        (cur.2 / 2 + 1) * pow2((cur.1 + 1) as nat) == span_end(cur),
{
    let hh = cur.1 as nat;
    lemma_pow2_pos(hh);
    lemma_pow2_unfold(hh + 1);
    let p = pow2(hh) as int;
    let li = s.last().2 as int;
    let ci = cur.2 as int;
    assert(ci == li + 1) by (nonlinear_arith)
        requires
            p > 0,
            (li + 1) * p == ci * p,
    ;
    if s.len() > 1 {
        let b = s[s.len() - 2];
        assert(b.1 > s.last().1 && span_end(b) == span_start(s.last()));
        let k = (b.1 - hh - 1) as nat;
        lemma_pow2_adds(hh + 1, k);
        lemma_pow2_pos(k);
        let r = pow2(k) as int;
        let bi = b.2 as int;
        assert(li == 2 * ((bi + 1) * r)) by (nonlinear_arith)
            requires
                p > 0,
                (bi + 1) * ((2 * p) * r) == li * p,
        ;
        assert(li % 2 == 0);
    } else {
        assert(li == 0) by (nonlinear_arith)
            requires
                p > 0,
                li * p == 0,
                li >= 0,
        ;
    }
    let q = li / 2;
    assert(li == 2 * q && ci / 2 == q);
    assert(q * (2 * p) == li * p && (q + 1) * (2 * p) == (ci + 1) * p) by (nonlinear_arith)
        requires
            li == 2 * q,
            ci == li + 1,
    ;
}

/// Computes the root of the XMSS tree of height `h_prime` (FIPS 205, Algorithm 9, for the full
/// tree).
///
/// `adrs` must have the layer and tree addresses set; type and remaining fields are managed here.
pub fn xmss_root(
    params: &SlhDsaParams,
    sk_seed: &Node,
    pk_seed: &Node,
    adrs: &Adrs,
    h_prime: usize,
) -> (root: Node)
    requires
        h_prime < usize::BITS,
    ensures
        root@ == xmss_node(params.hash, sk_seed@, pk_seed@, adrs@, 0, h_prime as nat),
{
    let hash = params.hash;
    proof {
        adrs.lemma_len();
        lemma_usize_pow2_no_overflow(h_prime as nat);
        lemma_usize_shl_is_mul(1, h_prime);
    }
    let n_leaves: usize = 1usize << h_prime;
    assert(n_leaves == pow2(h_prime as nat));
    // Stack of (node, height, index) with strictly decreasing heights; each new leaf is merged
    // upward while the stack top has its own height.
    let mut stack: Vec<(Node, usize, usize)> = Vec::with_capacity(h_prime + 1);
    let mut i: usize = 0;
    while i < n_leaves
        invariant
            i <= n_leaves,
            hash == params.hash,
            h_prime < usize::BITS,
            n_leaves == pow2(h_prime as nat),
            adrs@.len() == 32,
            stack_chain(stack@),
            stack_nodes(hash, sk_seed@, pk_seed@, adrs@, stack@),
            stack@.len() > 0 ==> span_end(stack@.last()) == i,
            stack@.len() == 0 ==> i == 0,
        decreases n_leaves - i,
    {
        let mut leaf_adrs = *adrs;
        leaf_adrs.set_type_and_clear(ADRS_WOTS_HASH);
        leaf_adrs.set_key_pair_const(i as u32);
        let mut node = wots_pk_gen(params, sk_seed, pk_seed, &leaf_adrs);
        let mut height: usize = 0;
        let mut index: usize = i;
        proof {
            lemma2_to64();
            assert(xmss_leaf_adrs(adrs@, i as nat) == leaf_adrs@);
            let ii = i as int;
            assert(ii * pow2(0) == ii && (ii + 1) * pow2(0) == ii + 1) by (nonlinear_arith)
                requires
                    pow2(0) == 1,
            ;
        }
        while stack.len() > 0 && stack[stack.len() - 1].1 == height
            invariant
                hash == params.hash,
                h_prime < usize::BITS,
                n_leaves == pow2(h_prime as nat),
                i < n_leaves,
                adrs@.len() == 32,
                stack_chain(stack@),
                stack_nodes(hash, sk_seed@, pk_seed@, adrs@, stack@),
                node@ == xmss_node(hash, sk_seed@, pk_seed@, adrs@, index as nat, height as nat),
                span_end((node, height, index)) == i + 1,
                stack@.len() > 0 ==> span_end(stack@.last()) == span_start((node, height, index))
                    && stack@.last().1 >= height,
                stack@.len() == 0 ==> span_start((node, height, index)) == 0,
            decreases stack@.len(),
        {
            let ghost s = stack@;
            let ghost cur = (node, height, index);
            proof {
                lemma_merge(s, cur);
                lemma_span_width(cur);
            }
            let popped = stack.pop();
            let (left, _, _) = popped.unwrap();
            assert(stack@ == s.drop_last());
            let ghost li = s.last().2;
            proof {
                // The parent's range fits below 2^h', so the new height stays below h'.
                lemma_pow2_pos((height + 1) as nat);
                lemma_pow2_unfold((height + 1) as nat);
                lemma_span_width(s.last());
                assert(span_end(cur) - span_start(s.last()) == pow2((height + 1) as nat));
                if height + 1 > h_prime {
                    lemma_pow2_le((h_prime + 1) as nat, (height + 1) as nat);
                    lemma_pow2_unfold((h_prime + 1) as nat);
                }
            }
            height = height + 1;
            let old_index = index;
            index = index >> 1;
            assert(index == old_index / 2) by (bit_vector)
                requires
                    index == old_index >> 1,
            ;
            let mut tree_adrs = *adrs;
            tree_adrs.set_type_and_clear(ADRS_TREE);
            tree_adrs.set_tree_height_const(height as u32);
            tree_adrs.set_tree_index_const(index as u32);
            assert(tree_adrs@ == xmss_tree_adrs(adrs@, height as nat, index as nat));
            node = h(params, &tree_adrs, pk_seed, &left, &node);
            proof {
                assert(2 * (index as nat) == li);
                assert(s.last().0@ == left@);
                assert(stack_chain(stack@)) by {
                    assert forall|j: int| 0 <= j < stack@.len() - 1 implies stack@[j].1 > stack@[
                        j + 1].1 && span_end(stack@[j]) == span_start(stack@[j + 1]) by {
                        assert(stack@[j] == s[j] && stack@[j + 1] == s[j + 1]);
                    }
                }
                if stack@.len() > 0 {
                    assert(stack@.last() == s[s.len() - 2]);
                    assert(s[s.len() - 2].1 > s.last().1);
                }
            }
        }
        proof {
            let cur = (node, height, index);
            lemma_span_width(cur);
            if stack@.len() > 0 {
                assert(stack@.last().1 > height);
            }
        }
        let ghost s = stack@;
        stack.push((node, height, index));
        proof {
            assert(stack@ == s.push((node, height, index)));
            assert(stack_chain(stack@)) by {
                assert forall|j: int| 0 <= j < stack@.len() - 1 implies stack@[j].1 > stack@[j
                    + 1].1 && span_end(stack@[j]) == span_start(stack@[j + 1]) by {
                    if j < s.len() - 1 {
                        assert(stack@[j] == s[j] && stack@[j + 1] == s[j + 1]);
                    } else {
                        assert(stack@[j] == s.last());
                    }
                }
            }
            assert(stack_nodes(hash, sk_seed@, pk_seed@, adrs@, stack@)) by {
                assert forall|j: int| 0 <= j < stack@.len() implies stack@[j].0@ == xmss_node(
                    hash,
                    sk_seed@,
                    pk_seed@,
                    adrs@,
                    stack@[j].2 as nat,
                    stack@[j].1 as nat,
                ) by {
                    if j < s.len() {
                        assert(stack@[j] == s[j]);
                    }
                }
            }
        }
        i = i + 1;
    }
    proof {
        let s = stack@;
        assert(s.len() > 0) by {
            lemma_pow2_pos(h_prime as nat);
        }
        lemma_chain_span(s, 0);
        lemma_span_width(s[0]);
        // All n_leaves = 2^h' leaves are covered: fewer than 2^(h0+1), at least 2^h0.
        let h0 = s[0].1 as nat;
        if h0 < h_prime {
            lemma_pow2_le(h0 + 1, h_prime as nat);
        }
        if h0 > h_prime {
            lemma_pow2_strictly_increases(h_prime as nat, h0);
        }
        assert(h0 == h_prime);
        if s.len() > 1 {
            lemma_chain_span(s, 1);
            lemma_span_width(s[1]);
            lemma_pow2_pos(s[1].1 as nat);
            assert(span_end(s[0]) == span_start(s[1]));
        }
        assert(s.len() == 1);
        lemma_pow2_pos(h0);
        let p = pow2(h0) as int;
        let i0 = s[0].2 as int;
        assert(i0 == 0) by (nonlinear_arith)
            requires
                p > 0,
                i0 * p == 0,
                i0 >= 0,
        ;
    }
    let (root, _, _) = stack.pop().unwrap();
    root
}

/// The authentication node at level `k` of a flat XMSS signature (after the `len` WOTS+ nodes).
pub open spec fn auth_block(sig: Seq<u8>, k: int) -> Seq<u8> {
    sig.subrange((LEN + k) * N, (LEN + k + 1) * N)
}

/// The node at height `k` on the path from leaf `idx` to the root, recomputed from a signature
/// (FIPS 205, Algorithm 11): bit `k − 1` of the leaf index says on which side the
/// authentication node stands.
pub open spec fn xmss_path_node(
    hash: HashInstantiation,
    idx: u32,
    sig: Seq<u8>,
    msg: Seq<u8>,
    pk_seed: Seq<u8>,
    adrs: Seq<u8>,
    k: nat,
) -> Seq<u8>
    decreases k,
{
    if k == 0 {
        spec_wots_pk_from_sig(
            hash,
            sig.subrange(0, (LEN * N) as int),
            msg,
            pk_seed,
            xmss_leaf_adrs(adrs, idx as nat),
        )
    } else {
        let node = xmss_path_node(hash, idx, sig, msg, pk_seed, adrs, (k - 1) as nat);
        let auth = auth_block(sig, k - 1);
        let tree_adrs = xmss_tree_adrs(adrs, k, (idx >> (k as u32)) as nat);
        if (idx >> ((k - 1) as u32)) & 1 == 0 {
            spec_h(hash, tree_adrs, pk_seed, node, auth)
        } else {
            spec_h(hash, tree_adrs, pk_seed, auth, node)
        }
    }
}

/// Recomputes an XMSS root from a leaf value, a signature, and the (secret) leaf index
/// (FIPS 205, Algorithm 11), with index-independent control flow.
///
/// `sig_xmss` is the flat XMSS signature: 35 WOTS+ nodes followed by `h_prime` authentication
/// nodes. `adrs` must have the layer and tree addresses set.
pub fn xmss_pk_from_sig(
    params: &SlhDsaParams,
    idx_leaf: &u32,
    sig_xmss: &[u8],
    msg: &Node,
    pk_seed: &Node,
    adrs: &Adrs,
    h_prime: usize,
) -> (root: Node)
    requires
        h_prime < 32,
        sig_xmss@.len() == (LEN + h_prime) * N,
    ensures
        root@ == xmss_path_node(
            params.hash,
            *idx_leaf,
            sig_xmss@,
            msg@,
            pk_seed@,
            adrs@,
            h_prime as nat,
        ),
{
    let hash = params.hash;
    let idx = *idx_leaf;
    proof {
        adrs.lemma_len();
    }
    let mut wots_adrs = *adrs;
    wots_adrs.set_type_and_clear(ADRS_WOTS_HASH);
    wots_adrs.set_key_pair_wire(idx_leaf);
    let wots_sig = slice_subrange(sig_xmss, 0, LEN * N);
    let mut node = wots_pk_from_sig(params, wots_sig, msg, pk_seed, &wots_adrs);
    let mut tree_adrs = *adrs;
    tree_adrs.set_type_and_clear(ADRS_TREE);
    let ghost base = tree_adrs@;
    for k in 0..h_prime
        invariant
            hash == params.hash,
            h_prime < 32,
            sig_xmss@.len() == (LEN + h_prime) * N,
            adrs@.len() == 32,
            idx == *idx_leaf,
            base == adrs_set_type_and_clear(adrs@, ADRS_TREE),
            agree_outside(tree_adrs@, base, 24, 32),
            node@ == xmss_path_node(hash, idx, sig_xmss@, msg@, pk_seed@, adrs@, k as nat),
    {
        let height = (k + 1) as u32;
        let index = idx >> height;
        proof {
            let with_height = adrs_set_tree_height(base, height);
            assert(agree_outside(set_word(tree_adrs@, 24, height), with_height, 28, 32));
            lemma_set_word_agree(
                set_word(tree_adrs@, 24, height),
                with_height,
                28,
                index,
            );
        }
        tree_adrs.set_tree_height_const(height);
        tree_adrs.set_tree_index_wire(&index);
        assert(tree_adrs@ == xmss_tree_adrs(adrs@, (k + 1) as nat, index as nat));
        let auth_slice = slice_subrange(sig_xmss, (LEN + k) * N, (LEN + k + 1) * N);
        let auth = node_from_slice(auth_slice);
        assert(auth@ =~= auth_block(sig_xmss@, k as int));
        // Bit k of the leaf index picks the side: 0 hashes node ‖ auth, 1 hashes auth ‖ node.
        let bit = bit_of_u32(idx_leaf, k);
        let mask = mask_from_bit(bit);
        let ghost prev = node@;
        let (l, r) = cond_swap_nodes(mask, &node, &auth);
        node = h(params, &tree_adrs, pk_seed, &l, &r);
        proof {
            let kk = (k + 1) as nat;
            assert((kk - 1) as u32 == k as u32);
            assert((idx >> (k as u32)) & 1 == (idx >> k) & 1);
            assert(index == idx >> (kk as u32));
            if (idx >> (k as u32)) & 1 == 0 {
                assert(bit == 0);
                assert(l@ == prev && r@ == auth@);
            } else {
                assert(bit == 1);
                assert(l@ == auth@ && r@ == prev);
            }
        }
    }
    node
}

/// A genuine XMSS signature of `msg` by leaf `idx` (FIPS 205, Algorithm 10): the WOTS+ signature
/// of `msg` under the leaf's key pair, then at each height `k` the sibling of the path node.
pub open spec fn xmss_sig_valid(
    hash: HashInstantiation,
    sk_seed: Seq<u8>,
    pk_seed: Seq<u8>,
    adrs: Seq<u8>,
    idx: u32,
    msg: Seq<u8>,
    sig: Seq<u8>,
    h_prime: nat,
) -> bool {
    &&& wots_sig_valid(
        hash,
        sk_seed,
        pk_seed,
        xmss_leaf_adrs(adrs, idx as nat),
        msg,
        sig.subrange(0, (LEN * N) as int),
    )
    &&& forall|k: int|
        #![trigger auth_block(sig, k)]
        0 <= k < h_prime ==> auth_block(sig, k) == xmss_node(
            hash,
            sk_seed,
            pk_seed,
            adrs,
            ((idx >> (k as u32)) ^ 1u32) as nat,
            k as nat,
        )
}

/// XMSS verification recovers the tree root: for a genuine signature by leaf `idx < 2^h'`,
/// the root recomputed from the signature is the root of the tree generated from `SK.seed`.
pub proof fn lemma_xmss_root_from_valid_sig(
    hash: HashInstantiation,
    sk_seed: Seq<u8>,
    pk_seed: Seq<u8>,
    adrs: Seq<u8>,
    idx: u32,
    msg: Seq<u8>,
    sig: Seq<u8>,
    h_prime: nat,
)
    requires
        h_prime < 32,
        idx < pow2(h_prime),
        sig.len() == (LEN + h_prime) * N,
        xmss_sig_valid(hash, sk_seed, pk_seed, adrs, idx, msg, sig, h_prime),
    ensures
        xmss_path_node(hash, idx, sig, msg, pk_seed, adrs, h_prime) == xmss_node(
            hash,
            sk_seed,
            pk_seed,
            adrs,
            0,
            h_prime,
        ),
{
    lemma_path_is_tree_node(hash, sk_seed, pk_seed, adrs, idx, msg, sig, h_prime, h_prime);
    let hp = h_prime as u32;
    vstd::bits::lemma_u32_shr_is_div(idx, hp);
    lemma_pow2_pos(h_prime);
    assert(idx as nat / pow2(h_prime) == 0) by (nonlinear_arith)
        requires
            idx < pow2(h_prime),
            pow2(h_prime) > 0,
    ;
}

proof fn lemma_path_is_tree_node(
    hash: HashInstantiation,
    sk_seed: Seq<u8>,
    pk_seed: Seq<u8>,
    adrs: Seq<u8>,
    idx: u32,
    msg: Seq<u8>,
    sig: Seq<u8>,
    h_prime: nat,
    k: nat,
)
    requires
        h_prime < 32,
        k <= h_prime,
        sig.len() == (LEN + h_prime) * N,
        xmss_sig_valid(hash, sk_seed, pk_seed, adrs, idx, msg, sig, h_prime),
    ensures
        xmss_path_node(hash, idx, sig, msg, pk_seed, adrs, k) == xmss_node(
            hash,
            sk_seed,
            pk_seed,
            adrs,
            (idx >> (k as u32)) as nat,
            k,
        ),
    decreases k,
{
    if k == 0 {
        let wsig = sig.subrange(0, (LEN * N) as int);
        let leaf_adrs = xmss_leaf_adrs(adrs, idx as nat);
        lemma_wots_pk_from_valid_sig(hash, sk_seed, pk_seed, leaf_adrs, msg, wsig);
        assert(idx >> 0u32 == idx) by (bit_vector);
    } else {
        let j = (k - 1) as nat;
        lemma_path_is_tree_node(hash, sk_seed, pk_seed, adrs, idx, msg, sig, h_prime, j);
        let ju = j as u32;
        let ku = k as u32;
        let c = idx >> ju;
        let p = idx >> ku;
        let sib = c ^ 1u32;
        assert(ku == ju + 1);
        assert(c == 2 * p + (c & 1u32) && (c & 1u32 == 0u32 || c & 1u32 == 1u32) && (c & 1u32
            == 0u32 ==> sib == c + 1) && (c & 1u32 == 1u32 ==> sib + 1 == c)) by (bit_vector)
            requires
                ju < 31,
                ku == ju + 1,
                c == idx >> ju,
                p == idx >> ku,
                sib == c ^ 1u32,
        ;
        let auth = auth_block(sig, j as int);
        assert(auth == xmss_node(hash, sk_seed, pk_seed, adrs, sib as nat, j));
        let node = xmss_path_node(hash, idx, sig, msg, pk_seed, adrs, j);
        assert(node == xmss_node(hash, sk_seed, pk_seed, adrs, c as nat, j));
        let left = xmss_node(hash, sk_seed, pk_seed, adrs, 2 * (p as nat), j);
        let right = xmss_node(hash, sk_seed, pk_seed, adrs, 2 * (p as nat) + 1, j);
        assert(xmss_node(hash, sk_seed, pk_seed, adrs, p as nat, k) == spec_h(
            hash,
            xmss_tree_adrs(adrs, k, p as nat),
            pk_seed,
            left,
            right,
        ));
        if c & 1u32 == 0u32 {
            assert(c as nat == 2 * (p as nat));
            assert(node == left && auth == right);
        } else {
            assert(c as nat == 2 * (p as nat) + 1);
            assert(node == right && auth == left);
        }
    }
}

/// The address of XMSS leaf `i` (FIPS 205, Algorithm 9): the layer and tree of `adrs`, type
/// `WOTS_HASH`, key-pair address `i`, the rest zero.
pub proof fn lemma_xmss_leaf_adrs_layout(adrs: Seq<u8>, i: nat)
    requires
        adrs.len() == 32,
    ensures
        ({
            let x = xmss_leaf_adrs(adrs, i);
            &&& x.len() == 32
            &&& x.subrange(0, 16) == adrs.subrange(0, 16)
            &&& x.subrange(16, 20) == seq![0u8, 0u8, 0u8, 0u8]
            &&& x.subrange(20, 24) == u32_be(i as u32)
            &&& x.subrange(24, 32) == seq![0u8, 0u8, 0u8, 0u8, 0u8, 0u8, 0u8, 0u8]
        }),
{
    let x = xmss_leaf_adrs(adrs, i);
    lemma_zero_word_bytes();
    assert(x.subrange(0, 16) =~= adrs.subrange(0, 16));
    assert(x.subrange(16, 20) =~= seq![0u8, 0u8, 0u8, 0u8]);
    assert(x.subrange(20, 24) =~= u32_be(i as u32));
    assert(x.subrange(24, 32) =~= seq![0u8, 0u8, 0u8, 0u8, 0u8, 0u8, 0u8, 0u8]);
}

/// The address of XMSS tree node `(z, i)` (FIPS 205, Algorithm 9): the layer and tree of `adrs`,
/// type `TREE`, key-pair address zero, tree height `z`, tree index `i`.
pub proof fn lemma_xmss_tree_adrs_layout(adrs: Seq<u8>, z: nat, i: nat)
    requires
        adrs.len() == 32,
    ensures
        ({
            let x = xmss_tree_adrs(adrs, z, i);
            &&& x.len() == 32
            &&& x.subrange(0, 16) == adrs.subrange(0, 16)
            &&& x.subrange(16, 20) == seq![0u8, 0u8, 0u8, 2u8]
            &&& x.subrange(20, 24) == seq![0u8, 0u8, 0u8, 0u8]
            &&& x.subrange(24, 28) == u32_be(z as u32)
            &&& x.subrange(28, 32) == u32_be(i as u32)
        }),
{
    let x = xmss_tree_adrs(adrs, z, i);
    lemma_zero_word_bytes();
    lemma_small_word_bytes(ADRS_TREE);
    assert(x.subrange(0, 16) =~= adrs.subrange(0, 16));
    assert(x.subrange(16, 20) =~= seq![0u8, 0u8, 0u8, 2u8]);
    assert(x.subrange(20, 24) =~= seq![0u8, 0u8, 0u8, 0u8]);
    assert(x.subrange(24, 28) =~= u32_be(z as u32));
    assert(x.subrange(28, 32) =~= u32_be(i as u32));
}

} // verus!
