//! Unit tests of the building blocks: masks and selections, bit parsing, WOTS+ digits,
//! addresses, hash functions, parameter sizes, digest parsing, and the sign-then-recover
//! properties of WOTS+ and XMSS on small instances.

use sha2::Digest;
use sha3::digest::{ExtendableOutput, Update, XofReader};
use zkboo_slhdsa::address::{
    Adrs, ADRS_FORS_PRF, ADRS_FORS_ROOTS, ADRS_FORS_TREE, ADRS_TREE, ADRS_WOTS_HASH, ADRS_WOTS_PRF,
};
use zkboo_slhdsa::fors::fors_pk_from_sig;
use zkboo_slhdsa::hashes::{f, h, h_msg, mgf1_sha256, prf, t_l};
use zkboo_slhdsa::slh::parse_digest;
use zkboo_slhdsa::util::{
    base_2b_u32, bit_of_u32, cond_swap_nodes, mask_from_bit, node_from_slice, select_node,
};
use zkboo_slhdsa::wots::{wots_digits, wots_pk_from_sig, wots_pk_gen, LEN, W};
use zkboo_slhdsa::xmss::{xmss_pk_from_sig, xmss_root};
use zkboo_slhdsa::{
    slh_dsa_sha2_128f, slh_dsa_sha2_128s, slh_dsa_shake_128f, slh_dsa_shake_128s,
    HashInstantiation, Node, SlhDsaParams, N,
};

fn node(seed: u8) -> Node {
    return core::array::from_fn(|i| seed.wrapping_mul(31).wrapping_add(i as u8 * 7));
}

fn shake256(input: &[u8], len: usize) -> Vec<u8> {
    let mut hasher = sha3::Shake256::default();
    hasher.update(input);
    let mut out = vec![0u8; len];
    hasher.finalize_xof().read(&mut out);
    return out;
}

fn sha256(input: &[u8]) -> Vec<u8> {
    return sha2::Sha256::digest(input).to_vec();
}

#[test]
fn test_mask_from_bit() {
    assert_eq!(mask_from_bit(0), 0x00);
    assert_eq!(mask_from_bit(1), 0xFF);
    assert_eq!(mask_from_bit(2), 0xFE);
}

#[test]
fn test_select_node() {
    let a = node(1);
    let b = node(2);
    assert_eq!(select_node(0xFF, &a, &b), a);
    assert_eq!(select_node(0x00, &a, &b), b);
    let mixed = select_node(0x0F, &a, &b);
    for i in 0..N {
        assert_eq!(mixed[i], (a[i] & 0x0F) | (b[i] & 0xF0));
    }
}

#[test]
fn test_cond_swap_nodes() {
    let a = node(3);
    let b = node(4);
    assert_eq!(cond_swap_nodes(0xFF, &a, &b), (b, a));
    assert_eq!(cond_swap_nodes(0x00, &a, &b), (a, b));
}

#[test]
fn test_bit_of_u32() {
    assert_eq!(bit_of_u32(&0b1010, 0), 0);
    assert_eq!(bit_of_u32(&0b1010, 1), 1);
    assert_eq!(bit_of_u32(&0b1010, 3), 1);
    assert_eq!(bit_of_u32(&0x8000_0000, 31), 1);
    assert_eq!(bit_of_u32(&0x7FFF_FFFF, 31), 0);
}

#[test]
fn test_node_from_slice() {
    let bytes: Vec<u8> = (0..20).collect();
    let n = node_from_slice(&bytes);
    assert_eq!(n.to_vec(), (0..16).collect::<Vec<u8>>());
}

#[test]
fn test_base_2b_u32_nibbles() {
    assert_eq!(base_2b_u32(&[0x12, 0x34, 0x56], 4, 6), vec![1, 2, 3, 4, 5, 6]);
    assert_eq!(base_2b_u32(&[0x12, 0x34, 0x56], 12, 2), vec![0x123, 0x456]);
}

#[test]
fn test_base_2b_u32_unaligned() {
    assert_eq!(base_2b_u32(&[0xFF, 0x00, 0xAA], 5, 4), vec![31, 28, 0, 10]);
    let digest: Vec<u8> = (0..21).collect();
    assert_eq!(
        base_2b_u32(&digest, 12, 14),
        vec![0, 258, 48, 1029, 96, 1800, 144, 2571, 192, 3342, 241, 17, 289, 788]
    );
}

#[test]
fn test_wots_digits_zero_message() {
    let digits = wots_digits(&[0u8; N]);
    assert_eq!(digits.len(), LEN);
    assert!(digits[..32].iter().all(|&d| d == 0));
    // checksum 32 · 15 = 480 = 0x1E0
    assert_eq!(&digits[32..], &[1, 14, 0]);
}

#[test]
fn test_wots_digits_mixed_message() {
    let msg: Node = core::array::from_fn(|i| if i == 0 { 0xA5 } else { 0xFF });
    let digits = wots_digits(&msg);
    assert_eq!(&digits[..4], &[0xA, 0x5, 0xF, 0xF]);
    // checksum (15 − 10) + (15 − 5) = 15 = 0x00F
    assert_eq!(&digits[32..], &[0, 0, 15]);
}

#[test]
fn test_adrs_setters() {
    let mut adrs = Adrs::new();
    assert_eq!(adrs.bytes(), &[0u8; 32]);
    adrs.set_layer(0x0102_0304);
    adrs.set_tree_addr_wire(&0x1122_3344_5566_7788);
    adrs.set_type_and_clear(ADRS_TREE);
    adrs.set_tree_height_const(5);
    adrs.set_tree_index_const(0xAABB_CCDD);
    let b = adrs.bytes();
    assert_eq!(&b[0..4], &[1, 2, 3, 4]);
    assert_eq!(&b[4..8], &[0, 0, 0, 0]);
    assert_eq!(&b[8..16], &[0x11, 0x22, 0x33, 0x44, 0x55, 0x66, 0x77, 0x88]);
    assert_eq!(&b[16..20], &[0, 0, 0, 2]);
    assert_eq!(&b[20..24], &[0, 0, 0, 0]);
    assert_eq!(&b[24..28], &[0, 0, 0, 5]);
    assert_eq!(&b[28..32], &[0xAA, 0xBB, 0xCC, 0xDD]);
    let c = adrs.compressed_bytes();
    assert_eq!(c.len(), 22);
    assert_eq!(c[0], 4);
    assert_eq!(&c[1..9], &b[8..16]);
    assert_eq!(c[9], 2);
    assert_eq!(&c[10..22], &b[20..32]);
    // Changing the type clears the type-dependent words.
    let mut other = adrs;
    other.set_key_pair_const(0x0000_0107);
    other.set_chain_const(9);
    other.set_hash_const(3);
    assert_eq!(&other.bytes()[20..32], &[0, 0, 1, 7, 0, 0, 0, 9, 0, 0, 0, 3]);
    other.set_type_and_clear(ADRS_WOTS_PRF);
    assert_eq!(&other.bytes()[16..32], &[0, 0, 0, 5, 0, 0, 0, 0, 0, 0, 0, 0, 0, 0, 0, 0]);
    other.copy_key_pair_from(&adrs);
    assert_eq!(&other.bytes()[20..24], &adrs.bytes()[20..24]);
    let mut w = Adrs::new();
    w.set_key_pair_wire(&0xDEAD_BEEF);
    w.set_tree_index_wire(&0x0102_0304);
    assert_eq!(&w.bytes()[20..24], &[0xDE, 0xAD, 0xBE, 0xEF]);
    assert_eq!(&w.bytes()[28..32], &[1, 2, 3, 4]);
}

#[test]
fn test_sig_len_and_pk_len() {
    assert_eq!(slh_dsa_shake_128s().sig_len(), 7856);
    assert_eq!(slh_dsa_shake_128f().sig_len(), 17088);
    assert_eq!(slh_dsa_sha2_128s().sig_len(), 7856);
    assert_eq!(slh_dsa_sha2_128f().sig_len(), 17088);
    assert_eq!(slh_dsa_shake_128s().pk_len(), 32);
    assert_eq!(slh_dsa_sha2_128s().hash, HashInstantiation::Sha2);
    assert_eq!(slh_dsa_sha2_128f().h, slh_dsa_shake_128f().h);
}

#[test]
fn test_parse_digest_128s() {
    let digest: Vec<u8> = (0..30).collect();
    let (indices, idx_tree, idx_leaf) = parse_digest(&digest, &slh_dsa_shake_128s());
    assert_eq!(
        indices,
        vec![0, 258, 48, 1029, 96, 1800, 144, 2571, 192, 3342, 241, 17, 289, 788]
    );
    assert_eq!(idx_tree, 0x15_1617_1819_1a1b);
    assert_eq!(idx_leaf, 0x1d);
}

#[test]
fn test_parse_digest_128f() {
    let digest: Vec<u8> = (100..134).collect();
    let (indices, idx_tree, idx_leaf) = parse_digest(&digest, &slh_dsa_sha2_128f());
    assert_eq!(
        indices,
        vec![
            25, 6, 21, 38, 25, 54, 33, 41, 26, 38, 45, 44, 27, 22, 57, 47, 28, 7, 5, 50, 28, 55,
            17, 53, 29, 39, 29, 56, 30, 23, 41, 59, 31
        ]
    );
    assert_eq!(idx_tree, 0x7d7e_7f80_8182_8384);
    assert_eq!(idx_leaf, 5);
}

#[test]
fn test_f_shake_matches_definition() {
    let params = slh_dsa_shake_128f();
    let mut adrs = Adrs::new();
    adrs.set_layer(3);
    adrs.set_chain_const(7);
    let seed = node(5);
    let m = node(6);
    let out = f(&params, &adrs, &seed, &m);
    let input = [seed.as_slice(), adrs.bytes().as_slice(), m.as_slice()].concat();
    assert_eq!(out.to_vec(), shake256(&input, N));
    assert_ne!(out, m);
}

#[test]
fn test_f_sha2_matches_definition() {
    let params = slh_dsa_sha2_128f();
    let mut adrs = Adrs::new();
    adrs.set_layer(3);
    adrs.set_tree_addr_wire(&0x0102_0304_0506_0708);
    adrs.set_chain_const(7);
    let seed = node(5);
    let m = node(6);
    let out = f(&params, &adrs, &seed, &m);
    let input = [seed.as_slice(), &[0u8; 48], adrs.compressed_bytes().as_slice(), m.as_slice()]
        .concat();
    assert_eq!(out.to_vec(), sha256(&input)[..N].to_vec());
}

#[test]
fn test_h_t_l_prf_match_definition() {
    let params = slh_dsa_shake_128s();
    let mut adrs = Adrs::new();
    adrs.set_type_and_clear(ADRS_FORS_TREE);
    let seed = node(9);
    let l = node(10);
    let r = node(11);
    let out = h(&params, &adrs, &seed, &l, &r);
    let input = [seed.as_slice(), adrs.bytes().as_slice(), l.as_slice(), r.as_slice()].concat();
    assert_eq!(out.to_vec(), shake256(&input, N));
    let lr = [l.as_slice(), r.as_slice()].concat();
    assert_eq!(t_l(&params, &adrs, &seed, lr), out);
    assert_eq!(prf(&params, &adrs, &seed, &l), f(&params, &adrs, &seed, &l));
}

#[test]
fn test_mgf1_sha256_matches_definition() {
    let seed = b"mgf1 seed";
    let out = mgf1_sha256(seed, 40);
    let block0 = sha256(&[seed.as_slice(), &[0, 0, 0, 0]].concat());
    let block1 = sha256(&[seed.as_slice(), &[0, 0, 0, 1]].concat());
    assert_eq!(out, [block0.as_slice(), &block1[..8]].concat());
    assert_eq!(mgf1_sha256(seed, 0), Vec::<u8>::new());
    assert_eq!(mgf1_sha256(seed, 32), block0);
}

#[test]
fn test_h_msg_shake_and_sha2() {
    let r = node(1);
    let seed = node(2);
    let root = node(3);
    let msg = b"message";
    let input = [r.as_slice(), seed.as_slice(), root.as_slice(), msg.as_slice()].concat();
    let shake = h_msg(&slh_dsa_shake_128s(), &r, &seed, &root, msg);
    assert_eq!(shake, shake256(&input, 30));
    let sha = h_msg(&slh_dsa_sha2_128f(), &r, &seed, &root, msg);
    let inner = sha256(&input);
    let mgf_seed = [r.as_slice(), seed.as_slice(), inner.as_slice()].concat();
    let block0 = sha256(&[mgf_seed.as_slice(), &[0, 0, 0, 0]].concat());
    let block1 = sha256(&[mgf_seed.as_slice(), &[0, 0, 0, 1]].concat());
    assert_eq!(sha, [block0.as_slice(), &block1[..2]].concat());
}

/// Signs `msg` with the WOTS+ key at `adrs` (FIPS 205, Algorithm 7), from the public pieces.
fn wots_sign(params: &SlhDsaParams, msg: &Node, sk: &Node, seed: &Node, adrs: &Adrs) -> Vec<u8> {
    let digits = wots_digits(msg);
    let mut sk_adrs = *adrs;
    sk_adrs.set_type_and_clear(ADRS_WOTS_PRF);
    sk_adrs.copy_key_pair_from(adrs);
    let mut chain_adrs = *adrs;
    let mut sig = Vec::new();
    for i in 0..LEN {
        sk_adrs.set_chain_const(i as u32);
        let mut v = prf(params, &sk_adrs, seed, sk);
        chain_adrs.set_chain_const(i as u32);
        for j in 0..digits[i] as u32 {
            chain_adrs.set_hash_const(j);
            v = f(params, &chain_adrs, seed, &v);
        }
        sig.extend_from_slice(&v);
    }
    return sig;
}

#[test]
fn test_wots_signature_recovers_public_key() {
    for params in [slh_dsa_shake_128f(), slh_dsa_sha2_128f()] {
        let sk = node(20);
        let seed = node(21);
        let msg = node(22);
        let mut adrs = Adrs::new();
        adrs.set_layer(2);
        adrs.set_type_and_clear(ADRS_WOTS_HASH);
        adrs.set_key_pair_const(5);
        let sig = wots_sign(&params, &msg, &sk, &seed, &adrs);
        assert_eq!(sig.len(), LEN * N);
        let pk = wots_pk_gen(&params, &sk, &seed, &adrs);
        assert_eq!(wots_pk_from_sig(&params, &sig, &msg, &seed, &adrs), pk);
        let mut other = msg;
        other[0] ^= 1;
        assert_ne!(wots_pk_from_sig(&params, &sig, &other, &seed, &adrs), pk);
    }
    assert_eq!(W, 16);
}

/// The XMSS node at height `z` and index `i`, by the recursion of FIPS 205, Algorithm 9.
fn xmss_node(params: &SlhDsaParams, sk: &Node, seed: &Node, adrs: &Adrs, i: u32, z: u32) -> Node {
    if z == 0 {
        let mut leaf = *adrs;
        leaf.set_type_and_clear(ADRS_WOTS_HASH);
        leaf.set_key_pair_const(i);
        return wots_pk_gen(params, sk, seed, &leaf);
    }
    let l = xmss_node(params, sk, seed, adrs, 2 * i, z - 1);
    let r = xmss_node(params, sk, seed, adrs, 2 * i + 1, z - 1);
    let mut tree = *adrs;
    tree.set_type_and_clear(ADRS_TREE);
    tree.set_tree_height_const(z);
    tree.set_tree_index_const(i);
    return h(params, &tree, seed, &l, &r);
}

#[test]
fn test_xmss_root_matches_recursion_and_signatures_recover_it() {
    let params = slh_dsa_shake_128f();
    let sk = node(30);
    let seed = node(31);
    let mut adrs = Adrs::new();
    adrs.set_layer(1);
    adrs.set_tree_addr_wire(&77);
    let hp = 3usize;
    let root = xmss_root(&params, &sk, &seed, &adrs, hp);
    assert_eq!(root, xmss_node(&params, &sk, &seed, &adrs, 0, hp as u32));
    let msg = node(32);
    for idx in 0..(1u32 << hp) {
        let mut leaf = adrs;
        leaf.set_type_and_clear(ADRS_WOTS_HASH);
        leaf.set_key_pair_const(idx);
        let mut sig = wots_sign(&params, &msg, &sk, &seed, &leaf);
        for k in 0..hp as u32 {
            sig.extend_from_slice(&xmss_node(&params, &sk, &seed, &adrs, (idx >> k) ^ 1, k));
        }
        assert_eq!(xmss_pk_from_sig(&params, &idx, &sig, &msg, &seed, &adrs, hp), root);
        let wrong = (idx + 1) % (1 << hp);
        assert_ne!(xmss_pk_from_sig(&params, &wrong, &sig, &msg, &seed, &adrs, hp), root);
    }
}

#[test]
fn test_fors_pk_from_sig_matches_direct_computation() {
    let params = slh_dsa_shake_128f();
    let seed = node(40);
    let mut adrs = Adrs::new();
    adrs.set_tree_addr_wire(&5);
    adrs.set_type_and_clear(ADRS_FORS_TREE);
    adrs.set_key_pair_const(3);
    let (k, a) = (2usize, 3usize);
    let indices = [5u32, 2u32];
    let sig: Vec<u8> = (0..k * (a + 1) * N).map(|i| (i * 13 % 251) as u8).collect();
    let mut roots = Vec::new();
    for i in 0..k {
        let base = i * (a + 1) * N;
        let leaf = (i as u32) * 8 + indices[i];
        let mut t = adrs;
        t.set_tree_height_const(0);
        t.set_tree_index_const(leaf);
        let mut cur = f(&params, &t, &seed, &node_from_slice(&sig[base..]));
        for j in 0..a {
            let auth = node_from_slice(&sig[base + (1 + j) * N..]);
            t.set_tree_height_const(j as u32 + 1);
            t.set_tree_index_const(leaf >> (j + 1));
            cur = if (indices[i] >> j) & 1 == 0 {
                h(&params, &t, &seed, &cur, &auth)
            } else {
                h(&params, &t, &seed, &auth, &cur)
            };
        }
        roots.extend_from_slice(&cur);
    }
    let mut roots_adrs = adrs;
    roots_adrs.set_type_and_clear(zkboo_slhdsa::address::ADRS_FORS_ROOTS);
    roots_adrs.copy_key_pair_from(&adrs);
    let expected = t_l(&params, &roots_adrs, &seed, roots);
    assert_eq!(fors_pk_from_sig(&params, &sig, &indices, &seed, &adrs, k, a), expected);
}

#[test]
fn test_mgf1_shorter_output_is_prefix() {
    let seed = b"prefix seed";
    let long = mgf1_sha256(seed, 100);
    for len in [0usize, 1, 31, 32, 33, 64, 99, 100] {
        assert_eq!(mgf1_sha256(seed, len), long[..len].to_vec());
    }
}

#[test]
fn test_base_2b_ignores_trailing_bytes() {
    let bytes = [0xA5u8, 0x3C, 0x0F];
    let longer = [0xA5u8, 0x3C, 0x0F, 0xFF, 0x12];
    assert_eq!(base_2b_u32(&bytes, 6, 4), base_2b_u32(&longer, 6, 4));
    assert_eq!(base_2b_u32(&bytes, 6, 4), vec![0x29, 0x13, 0x30, 0x0F]);
}

/// The FORS secret value of forest leaf `idx` (FIPS 205, Algorithm 14).
fn fors_skgen(params: &SlhDsaParams, sk: &Node, seed: &Node, adrs: &Adrs, idx: u32) -> Node {
    let mut sk_adrs = *adrs;
    sk_adrs.set_type_and_clear(ADRS_FORS_PRF);
    sk_adrs.copy_key_pair_from(adrs);
    sk_adrs.set_tree_index_const(idx);
    return prf(params, &sk_adrs, seed, sk);
}

/// The FORS node at height `z` and forest index `i` (FIPS 205, Algorithm 15).
fn fors_node(params: &SlhDsaParams, sk: &Node, seed: &Node, adrs: &Adrs, i: u32, z: u32) -> Node {
    let mut node_adrs = *adrs;
    if z == 0 {
        let secret = fors_skgen(params, sk, seed, adrs, i);
        node_adrs.set_tree_height_const(0);
        node_adrs.set_tree_index_const(i);
        return f(params, &node_adrs, seed, &secret);
    }
    let l = fors_node(params, sk, seed, adrs, 2 * i, z - 1);
    let r = fors_node(params, sk, seed, adrs, 2 * i + 1, z - 1);
    node_adrs.set_tree_height_const(z);
    node_adrs.set_tree_index_const(i);
    return h(params, &node_adrs, seed, &l, &r);
}

#[test]
fn test_fors_signature_recovers_fors_public_key() {
    let params = slh_dsa_sha2_128f();
    let sk = node(50);
    let seed = node(51);
    let mut adrs = Adrs::new();
    adrs.set_tree_addr_wire(&9);
    adrs.set_type_and_clear(ADRS_FORS_TREE);
    adrs.set_key_pair_const(2);
    let (k, a) = (3usize, 3u32);
    let mut roots = Vec::new();
    for i in 0..k as u32 {
        roots.extend_from_slice(&fors_node(&params, &sk, &seed, &adrs, i, a));
    }
    let mut roots_adrs = adrs;
    roots_adrs.set_type_and_clear(ADRS_FORS_ROOTS);
    roots_adrs.copy_key_pair_from(&adrs);
    let pk = t_l(&params, &roots_adrs, &seed, roots);
    for indices in [[0u32, 7, 3], [5, 2, 6], [7, 7, 0]] {
        // FIPS 205, Algorithm 16.
        let mut sig = Vec::new();
        for i in 0..k as u32 {
            let idx = indices[i as usize];
            sig.extend_from_slice(&fors_skgen(&params, &sk, &seed, &adrs, (i << a) + idx));
            for j in 0..a {
                let s = (idx >> j) ^ 1;
                sig.extend_from_slice(&fors_node(&params, &sk, &seed, &adrs, (i << (a - j)) + s, j));
            }
        }
        assert_eq!(fors_pk_from_sig(&params, &sig, &indices, &seed, &adrs, k, a as usize), pk);
    }
}
