//! WOTS+ one-time signatures (FIPS 205, §5) at `lg_w` = 4, i.e. `w` = 16 and `len` = 35.
use crate::address::{
    adrs_copy_key_pair, adrs_set_chain, adrs_set_hash, adrs_set_type_and_clear, agree_outside,
    lemma_set_word_agree, lemma_set_word_value, lemma_small_word_at, lemma_word_at_injective, lemma_small_word_bytes,
    lemma_zero_word_bytes, set_word, word_at, Adrs, ADRS_WOTS_PK, ADRS_WOTS_PRF,
};
use crate::hashes::{f, prf, spec_f, spec_prf, spec_t_l, t_l, u32_be, Node};
use crate::params::{SlhDsaParams, HashInstantiation, N, WOTS_LEN};
use crate::util::{append_bytes, mask_from_bit, node_from_slice, select_node};
use vstd::prelude::*;
use vstd::slice::slice_subrange;

verus! {

/// The Winternitz parameter `w` = 16.
pub const W: usize = 16;

/// The number of hash chains `len` = 35 (32 message digits plus 3 checksum digits).
pub const LEN: usize = WOTS_LEN;

/// The number of message digits `len1` = 32.
pub const LEN1: usize = 32;

/// Message digit `i < 32` of an `n`-byte value: its nibbles, high nibble of each byte first.
pub open spec fn msg_nibble(msg: Seq<u8>, i: int) -> int {
    if i % 2 == 0 {
        (msg[i / 2] >> 4u8) as int
    } else {
        (msg[i / 2] & 15u8) as int
    }
}

/// The checksum `Σ (w − 1 − digit)` over the first `j` message digits.
pub open spec fn csum_upto(msg: Seq<u8>, j: nat) -> int
    decreases j,
{
    if j == 0 {
        0
    } else {
        csum_upto(msg, (j - 1) as nat) + 15 - msg_nibble(msg, j - 1)
    }
}

/// The WOTS+ checksum over all 32 message digits.
pub open spec fn wots_csum(msg: Seq<u8>) -> int {
    csum_upto(msg, LEN1 as nat)
}

/// Digit `i < len` of FIPS 205, Algorithm 8, steps 1–6: the 32 message nibbles, then the
/// checksum (shifted left by 4 and split into 3 base-16 digits, i.e. its three low nibbles,
/// most significant first).
pub open spec fn wots_digit(msg: Seq<u8>, i: int) -> int {
    if i < 32 {
        msg_nibble(msg, i)
    } else if i == 32 {
        wots_csum(msg) / 256 % 16
    } else if i == 33 {
        wots_csum(msg) / 16 % 16
    } else {
        wots_csum(msg) % 16
    }
}

/// The address of hash step `pos` of chain `i`.
pub open spec fn chain_step_adrs(adrs: Seq<u8>, i: int, pos: int) -> Seq<u8> {
    adrs_set_hash(adrs_set_chain(adrs, i as u32), pos as u32)
}

/// The chaining function `chain(X, start, steps)` of FIPS 205, Algorithm 5, on chain `i`:
/// `steps` applications of `F` with hash addresses `start, …, start + steps − 1`.
pub open spec fn spec_chain(
    hash: HashInstantiation,
    adrs: Seq<u8>,
    pk_seed: Seq<u8>,
    x: Seq<u8>,
    i: int,
    start: nat,
    steps: nat,
) -> Seq<u8>
    decreases steps,
{
    if steps == 0 {
        x
    } else {
        spec_f(
            hash,
            chain_step_adrs(adrs, i, start + steps - 1),
            pk_seed,
            spec_chain(hash, adrs, pk_seed, x, i, start, (steps - 1) as nat),
        )
    }
}

/// The address used to compress the chain tops into the WOTS+ public key.
pub open spec fn wots_pk_adrs(adrs: Seq<u8>) -> Seq<u8> {
    adrs_copy_key_pair(adrs_set_type_and_clear(adrs, ADRS_WOTS_PK), adrs)
}

/// The address of the secret value of chain `i`.
pub open spec fn wots_prf_adrs(adrs: Seq<u8>, i: int) -> Seq<u8> {
    adrs_set_chain(adrs_copy_key_pair(adrs_set_type_and_clear(adrs, ADRS_WOTS_PRF), adrs), i as u32)
}

/// The first `n` chain tops of key generation (FIPS 205, Algorithm 6).
pub open spec fn gen_tops(
    hash: HashInstantiation,
    sk_seed: Seq<u8>,
    pk_seed: Seq<u8>,
    adrs: Seq<u8>,
    n: nat,
) -> Seq<u8>
    decreases n,
{
    if n == 0 {
        seq![]
    } else {
        gen_tops(hash, sk_seed, pk_seed, adrs, (n - 1) as nat) + spec_chain(
            hash,
            adrs,
            pk_seed,
            spec_prf(hash, wots_prf_adrs(adrs, n - 1), pk_seed, sk_seed),
            n - 1,
            0,
            15,
        )
    }
}

/// The WOTS+ public key generated from `SK.seed` (FIPS 205, Algorithm 6).
pub open spec fn spec_wots_pk_gen(
    hash: HashInstantiation,
    sk_seed: Seq<u8>,
    pk_seed: Seq<u8>,
    adrs: Seq<u8>,
) -> Seq<u8> {
    spec_t_l(hash, wots_pk_adrs(adrs), pk_seed, gen_tops(hash, sk_seed, pk_seed, adrs, LEN as nat))
}

/// Signature block `i` (the `i`-th `n`-byte value of a flat signature).
pub open spec fn sig_block(sig: Seq<u8>, i: int) -> Seq<u8> {
    sig.subrange(i * N, i * N + N)
}

/// The first `n` chain tops recomputed from a signature (FIPS 205, Algorithm 8, steps 7–10):
/// chain `i` runs from the signature block for `w − 1 − digit_i` steps starting at `digit_i`.
pub open spec fn sig_tops(
    hash: HashInstantiation,
    sig: Seq<u8>,
    msg: Seq<u8>,
    pk_seed: Seq<u8>,
    adrs: Seq<u8>,
    n: nat,
) -> Seq<u8>
    decreases n,
{
    if n == 0 {
        seq![]
    } else {
        sig_tops(hash, sig, msg, pk_seed, adrs, (n - 1) as nat) + spec_chain(
            hash,
            adrs,
            pk_seed,
            sig_block(sig, n - 1),
            n - 1,
            wots_digit(msg, n - 1) as nat,
            (15 - wots_digit(msg, n - 1)) as nat,
        )
    }
}

/// The WOTS+ public key recomputed from a signature (FIPS 205, Algorithm 8).
pub open spec fn spec_wots_pk_from_sig(
    hash: HashInstantiation,
    sig: Seq<u8>,
    msg: Seq<u8>,
    pk_seed: Seq<u8>,
    adrs: Seq<u8>,
) -> Seq<u8> {
    spec_t_l(hash, wots_pk_adrs(adrs), pk_seed, sig_tops(hash, sig, msg, pk_seed, adrs, LEN as nat))
}

/// Computes a WOTS+ public key from the secret seed (FIPS 205, Algorithm 6).
pub fn wots_pk_gen(params: &SlhDsaParams, sk_seed: &Node, pk_seed: &Node, adrs: &Adrs) -> (pk:
    Node)
    ensures
        pk@ == spec_wots_pk_gen(params.hash, sk_seed@, pk_seed@, adrs@),
{
    let hash = params.hash;
    proof {
        adrs.lemma_len();
    }
    let mut sk_adrs = *adrs;
    sk_adrs.set_type_and_clear(ADRS_WOTS_PRF);
    sk_adrs.copy_key_pair_from(adrs);
    let ghost sk_base = sk_adrs@;
    let mut chain_adrs = *adrs;
    let mut tmp: Vec<u8> = Vec::with_capacity(LEN * N);
    for i in 0..LEN
        invariant
            hash == params.hash,
            adrs@.len() == 32,
            sk_base == adrs_copy_key_pair(adrs_set_type_and_clear(adrs@, ADRS_WOTS_PRF), adrs@),
            agree_outside(sk_adrs@, sk_base, 24, 28),
            agree_outside(chain_adrs@, adrs@, 24, 32),
            tmp@ == gen_tops(hash, sk_seed@, pk_seed@, adrs@, i as nat),
            tmp@.len() == i * N,
    {
        proof {
            lemma_set_word_agree(sk_adrs@, sk_base, 24, i as u32);
        }
        sk_adrs.set_chain_const(i as u32);
        let sk = prf(params, &sk_adrs, pk_seed, sk_seed);
        let mut v = sk;
        let ghost base_chain = adrs_set_chain(adrs@, i as u32);
        proof {
            assert(agree_outside(set_word(chain_adrs@, 24, i as u32), base_chain, 28, 32));
        }
        chain_adrs.set_chain_const(i as u32);
        for j in 0..W - 1
            invariant
                hash == params.hash,
                adrs@.len() == 32,
                base_chain == adrs_set_chain(adrs@, i as u32),
                agree_outside(chain_adrs@, base_chain, 28, 32),
                agree_outside(chain_adrs@, adrs@, 24, 32),
                v@ == spec_chain(hash, adrs@, pk_seed@, sk@, i as int, 0, j as nat),
        {
            proof {
                lemma_set_word_agree(chain_adrs@, base_chain, 28, j as u32);
            }
            chain_adrs.set_hash_const(j as u32);
            v = f(params, &chain_adrs, pk_seed, &v);
        }
        append_bytes(&mut tmp, v.as_slice());
        assert(tmp@ == gen_tops(hash, sk_seed@, pk_seed@, adrs@, (i + 1) as nat));
    }
    let mut pk_adrs = *adrs;
    pk_adrs.set_type_and_clear(ADRS_WOTS_PK);
    pk_adrs.copy_key_pair_from(adrs);
    t_l(params, &pk_adrs, pk_seed, tmp)
}

/// Computes the `len` = 35 message digits of an `n`-byte value: its 32 nibbles (big-endian within
/// each byte) followed by the 3 checksum digits (FIPS 205, Algorithm 8, steps 1–6).
pub fn wots_digits(msg: &Node) -> (digits: Vec<u8>)
    ensures
        digits@.len() == LEN,
        forall|i: int| 0 <= i < LEN ==> digits@[i] as int == wots_digit(msg@, i),
        forall|i: int| 0 <= i < LEN ==> digits@[i] <= 15,
{
    let mut digits: Vec<u8> = Vec::with_capacity(LEN);
    for k in 0..N
        invariant
            digits@.len() == 2 * k,
            forall|i: int| 0 <= i < 2 * k ==> digits@[i] as int == msg_nibble(msg@, i),
            forall|i: int| 0 <= i < 2 * k ==> digits@[i] <= 15,
    {
        let byte = msg[k];
        let hi = byte >> 4u8;
        let lo = (byte << 4u8) >> 4u8;
        assert(hi <= 15 && lo <= 15 && lo == byte & 15u8) by (bit_vector)
            requires
                hi == byte >> 4u8,
                lo == (byte << 4u8) >> 4u8,
        ;
        digits.push(hi);
        digits.push(lo);
        assert(msg_nibble(msg@, 2 * k) == hi as int);
        assert(msg_nibble(msg@, 2 * k + 1) == lo as int);
    }
    // csum = Σ (w − 1 − digit); each digit is at most 15, so w − 1 − digit = digit XOR 0x0F.
    let mut csum: u16 = 0;
    for i in 0..LEN1
        invariant
            digits@.len() == 32,
            forall|j: int| 0 <= j < 32 ==> digits@[j] as int == msg_nibble(msg@, j),
            forall|j: int| 0 <= j < 32 ==> digits@[j] <= 15,
            csum as int == csum_upto(msg@, i as nat),
            csum <= 15 * i,
    {
        let d = digits[i];
        let x = d ^ 0x0Fu8;
        assert(x as int == 15 - d) by (bit_vector)
            requires
                d <= 15,
                x == d ^ 0x0Fu8,
        ;
        csum = csum + x as u16;
    }
    // Left-align the 12 checksum bits and split them into 3 digits.
    let shifted: u16 = csum << 4u16;
    let b0 = (shifted >> 8u16) as u8;
    let b1 = shifted as u8;
    let d0 = b0 >> 4u8;
    let d1 = (b0 << 4u8) >> 4u8;
    let d2 = b1 >> 4u8;
    assert(d0 as int == csum / 256 % 16 && d1 as int == csum / 16 % 16 && d2 as int == csum % 16
        && d0 <= 15 && d1 <= 15 && d2 <= 15) by (bit_vector)
        requires
            csum <= 480,
            shifted == csum << 4u16,
            b0 == (shifted >> 8u16) as u8,
            b1 == shifted as u8,
            d0 == b0 >> 4u8,
            d1 == (b0 << 4u8) >> 4u8,
            d2 == b1 >> 4u8,
    ;
    digits.push(d0);
    digits.push(d1);
    digits.push(d2);
    digits
}

/// Recomputes a WOTS+ public key from a signature and the signed `n`-byte value (FIPS 205,
/// Algorithm 8), with message-independent control flow: every chain runs all `w − 1` steps and
/// a masked selection keeps the value until the chain start is reached.
pub fn wots_pk_from_sig(
    params: &SlhDsaParams,
    sig: &[u8],
    msg: &Node,
    pk_seed: &Node,
    adrs: &Adrs,
) -> (pk: Node)
    requires
        sig@.len() == LEN * N,
    ensures
        pk@ == spec_wots_pk_from_sig(params.hash, sig@, msg@, pk_seed@, adrs@),
{
    let hash = params.hash;
    proof {
        adrs.lemma_len();
    }
    let digits = wots_digits(msg);
    let mut chain_adrs = *adrs;
    let mut tmp: Vec<u8> = Vec::with_capacity(LEN * N);
    for i in 0..LEN
        invariant
            hash == params.hash,
            adrs@.len() == 32,
            sig@.len() == LEN * N,
            digits@.len() == LEN,
            forall|t: int| 0 <= t < LEN ==> digits@[t] as int == wots_digit(msg@, t),
            forall|t: int| 0 <= t < LEN ==> digits@[t] <= 15,
            agree_outside(chain_adrs@, adrs@, 24, 32),
            tmp@ == sig_tops(hash, sig@, msg@, pk_seed@, adrs@, i as nat),
            tmp@.len() == i * N,
    {
        let ghost base_chain = adrs_set_chain(adrs@, i as u32);
        proof {
            assert(agree_outside(set_word(chain_adrs@, 24, i as u32), base_chain, 28, 32));
        }
        chain_adrs.set_chain_const(i as u32);
        let block = slice_subrange(sig, i * N, (i + 1) * N);
        let x = node_from_slice(block);
        assert(x@ =~= sig_block(sig@, i as int));
        let mut v = x;
        let d = digits[i];
        for pos in 0..W - 1
            invariant
                hash == params.hash,
                adrs@.len() == 32,
                d <= 15,
                base_chain == adrs_set_chain(adrs@, i as u32),
                agree_outside(chain_adrs@, base_chain, 28, 32),
                agree_outside(chain_adrs@, adrs@, 24, 32),
                pos <= d ==> v@ == x@,
                pos > d ==> v@ == spec_chain(
                    hash,
                    adrs@,
                    pk_seed@,
                    x@,
                    i as int,
                    d as nat,
                    (pos - d) as nat,
                ),
        {
            proof {
                lemma_set_word_agree(chain_adrs@, base_chain, 28, pos as u32);
            }
            chain_adrs.set_hash_const(pos as u32);
            let fv = f(params, &chain_adrs, pk_seed, &v);
            // Keep v while digit > pos (the chain start has not been reached yet): the sum
            // digit + 15 − pos exceeds 15 exactly in that case, making bit 4 its indicator.
            let p8 = pos as u8;
            let sum: u8 = d + (15u8 - p8);
            let keep_bit = sum >> 4u8;
            assert(keep_bit == (if d > p8 { 1u8 } else { 0u8 })) by (bit_vector)
                requires
                    d <= 15,
                    p8 <= 14,
                    sum == d + (15u8 - p8),
                    keep_bit == sum >> 4u8,
            ;
            let ghost old_v = v@;
            v = select_node(mask_from_bit(keep_bit), &v, &fv);
            proof {
                if pos >= d {
                    assert(v@ == fv@);
                    let steps = (pos + 1 - d) as nat;
                    assert(chain_step_adrs(adrs@, i as int, d + steps - 1) == chain_adrs@);
                    let before = (steps - 1) as nat;
                    assert(spec_chain(hash, adrs@, pk_seed@, x@, i as int, d as nat, before)
                        == old_v);
                }
            }
        }
        assert(v@ == spec_chain(hash, adrs@, pk_seed@, x@, i as int, d as nat, (15 - d) as nat));
        append_bytes(&mut tmp, v.as_slice());
        assert(tmp@ == sig_tops(hash, sig@, msg@, pk_seed@, adrs@, (i + 1) as nat));
    }
    let mut pk_adrs = *adrs;
    pk_adrs.set_type_and_clear(ADRS_WOTS_PK);
    pk_adrs.copy_key_pair_from(adrs);
    t_l(params, &pk_adrs, pk_seed, tmp)
}

/// Every WOTS+ digit is a base-16 digit.
pub proof fn lemma_wots_digit_range(msg: Seq<u8>, i: int)
    requires
        0 <= i < LEN,
    ensures
        0 <= wots_digit(msg, i) <= 15,
{
    if i < 32 {
        let b = msg[i / 2];
        assert(b >> 4u8 <= 15u8 && b & 15u8 <= 15u8) by (bit_vector);
    }
}

/// Running `s` more steps from the end of a `d`-step chain is one `(d + s)`-step chain.
pub proof fn lemma_chain_compose(
    hash: HashInstantiation,
    adrs: Seq<u8>,
    pk_seed: Seq<u8>,
    x: Seq<u8>,
    i: int,
    d: nat,
    s: nat,
)
    ensures
        spec_chain(hash, adrs, pk_seed, spec_chain(hash, adrs, pk_seed, x, i, 0, d), i, d, s)
            == spec_chain(hash, adrs, pk_seed, x, i, 0, d + s),
    decreases s,
{
    if s > 0 {
        lemma_chain_compose(hash, adrs, pk_seed, x, i, d, (s - 1) as nat);
    }
}

/// Each step of chain `i` applies `F` once (FIPS 205, Algorithm 5): step `s` after `start` is
/// `F` of the value before it, under any address that keeps bytes 0..24 of `adrs` and carries
/// chain word `i` and hash word `start + s`.
pub proof fn lemma_chain_step(
    hash: HashInstantiation,
    adrs: Seq<u8>,
    pk_seed: Seq<u8>,
    x: Seq<u8>,
    i: u32,
    start: nat,
    s: nat,
    step_adrs: Seq<u8>,
)
    requires
        adrs.len() == 32,
        start + s <= u32::MAX,
        step_adrs.len() == 32,
        step_adrs.subrange(0, 24) == adrs.subrange(0, 24),
        word_at(step_adrs, 24) == i,
        word_at(step_adrs, 28) == start + s,
    ensures
        spec_chain(hash, adrs, pk_seed, x, i as int, start, s + 1) == spec_f(
            hash,
            step_adrs,
            pk_seed,
            spec_chain(hash, adrs, pk_seed, x, i as int, start, s),
        ),
{
    let pos = (start + s) as u32;
    let a1 = set_word(adrs, 24, i);
    let c = set_word(a1, 28, pos);
    lemma_set_word_value(adrs, 24, i);
    lemma_set_word_value(a1, 28, pos);
    assert(c == chain_step_adrs(adrs, i as int, (start + s) as int));
    lemma_word_at_injective(c, step_adrs, 24);
    lemma_word_at_injective(c, step_adrs, 28);
    assert forall|j: int| 0 <= j < 24 implies c[j] == step_adrs[j] by {
        assert(step_adrs.subrange(0, 24)[j] == adrs.subrange(0, 24)[j]);
        assert(step_adrs.subrange(0, 24)[j] == step_adrs[j]);
        assert(adrs.subrange(0, 24)[j] == adrs[j]);
    }
    assert(c =~= step_adrs);
}

/// A genuine WOTS+ signature of `msg` under `SK.seed` (FIPS 205, Algorithm 7): block `i` is the
/// secret value of chain `i` advanced `digit_i` steps.
pub open spec fn wots_sig_valid(
    hash: HashInstantiation,
    sk_seed: Seq<u8>,
    pk_seed: Seq<u8>,
    adrs: Seq<u8>,
    msg: Seq<u8>,
    sig: Seq<u8>,
) -> bool {
    forall|i: int|
        #![trigger sig_block(sig, i)]
        0 <= i < LEN ==> sig_block(sig, i) == spec_chain(
            hash,
            adrs,
            pk_seed,
            spec_prf(hash, wots_prf_adrs(adrs, i), pk_seed, sk_seed),
            i,
            0,
            wots_digit(msg, i) as nat,
        )
}

/// WOTS+ verification recovers the public key: for a genuine signature of `msg`, the key
/// recomputed from the signature is the key generated from `SK.seed`.
pub proof fn lemma_wots_pk_from_valid_sig(
    hash: HashInstantiation,
    sk_seed: Seq<u8>,
    pk_seed: Seq<u8>,
    adrs: Seq<u8>,
    msg: Seq<u8>,
    sig: Seq<u8>,
)
    requires
        wots_sig_valid(hash, sk_seed, pk_seed, adrs, msg, sig),
    ensures
        spec_wots_pk_from_sig(hash, sig, msg, pk_seed, adrs) == spec_wots_pk_gen(
            hash,
            sk_seed,
            pk_seed,
            adrs,
        ),
{
    lemma_tops_agree(hash, sk_seed, pk_seed, adrs, msg, sig, LEN as nat);
}

proof fn lemma_tops_agree(
    hash: HashInstantiation,
    sk_seed: Seq<u8>,
    pk_seed: Seq<u8>,
    adrs: Seq<u8>,
    msg: Seq<u8>,
    sig: Seq<u8>,
    n: nat,
)
    requires
        n <= LEN,
        wots_sig_valid(hash, sk_seed, pk_seed, adrs, msg, sig),
    ensures
        sig_tops(hash, sig, msg, pk_seed, adrs, n) == gen_tops(hash, sk_seed, pk_seed, adrs, n),
    decreases n,
{
    if n > 0 {
        let i = n - 1;
        lemma_tops_agree(hash, sk_seed, pk_seed, adrs, msg, sig, (n - 1) as nat);
        lemma_wots_digit_range(msg, i);
        let d = wots_digit(msg, i) as nat;
        let sk = spec_prf(hash, wots_prf_adrs(adrs, i), pk_seed, sk_seed);
        assert(sig_block(sig, i) == spec_chain(hash, adrs, pk_seed, sk, i, 0, d));
        lemma_chain_compose(hash, adrs, pk_seed, sk, i, d, (15 - d) as nat);
    }
}

/// The address of the secret value of chain `i` (FIPS 205, Algorithm 6, `skADRS`): the layer and
/// tree of `adrs`, type `WOTS_PRF`, the full key-pair address of `adrs`, chain `i`, hash 0.
pub proof fn lemma_wots_prf_adrs_layout(adrs: Seq<u8>, i: int)
    requires
        adrs.len() == 32,
    ensures
        ({
            let x = wots_prf_adrs(adrs, i);
            &&& x.len() == 32
            &&& x.subrange(0, 16) == adrs.subrange(0, 16)
            &&& x.subrange(16, 20) == seq![0u8, 0u8, 0u8, 5u8]
            &&& x.subrange(20, 24) == adrs.subrange(20, 24)
            &&& x.subrange(24, 28) == u32_be(i as u32)
            &&& x.subrange(28, 32) == seq![0u8, 0u8, 0u8, 0u8]
        }),
{
    let x = wots_prf_adrs(adrs, i);
    lemma_zero_word_bytes();
    lemma_small_word_bytes(ADRS_WOTS_PRF);
    assert(x.subrange(0, 16) =~= adrs.subrange(0, 16));
    assert(x.subrange(16, 20) =~= seq![0u8, 0u8, 0u8, 5u8]);
    assert(x.subrange(20, 24) =~= adrs.subrange(20, 24));
    assert(x.subrange(24, 28) =~= u32_be(i as u32));
    assert(x.subrange(28, 32) =~= seq![0u8, 0u8, 0u8, 0u8]);
}

/// Key generation derives the secret value of chain `i` under its `WOTS_PRF` address (FIPS 205,
/// Algorithm 6, `skADRS`) and runs the chain for `w − 1` = 15 steps from it: for any address
/// whose layer and tree (bytes 0..16) and key-pair address (bytes 20..24) are those of `adrs`,
/// whose type word is `WOTS_PRF`, chain word `i` and hash word 0, chain top `i` extends the
/// tops before it.
pub proof fn lemma_gen_tops_prf_adrs(
    hash: HashInstantiation,
    sk_seed: Seq<u8>,
    pk_seed: Seq<u8>,
    adrs: Seq<u8>,
    i: nat,
    sk_adrs: Seq<u8>,
)
    requires
        adrs.len() == 32,
        i < LEN,
        sk_adrs.len() == 32,
        sk_adrs.subrange(0, 16) == adrs.subrange(0, 16),
        word_at(sk_adrs, 16) == ADRS_WOTS_PRF,
        sk_adrs.subrange(20, 24) == adrs.subrange(20, 24),
        word_at(sk_adrs, 24) == i,
        word_at(sk_adrs, 28) == 0,
    ensures
        gen_tops(hash, sk_seed, pk_seed, adrs, i + 1) == gen_tops(hash, sk_seed, pk_seed, adrs, i)
            + spec_chain(hash, adrs, pk_seed, spec_prf(hash, sk_adrs, pk_seed, sk_seed), i as int, 0, 15),
{
    let x = wots_prf_adrs(adrs, i as int);
    lemma_wots_prf_adrs_layout(adrs, i as int);
    lemma_small_word_at(sk_adrs, 16, ADRS_WOTS_PRF);
    lemma_small_word_at(sk_adrs, 24, i as u32);
    lemma_small_word_at(sk_adrs, 28, 0);
    lemma_small_word_bytes(i as u32);
    assert forall|j: int| 0 <= j < 32 implies x[j] == sk_adrs[j] by {
        if j < 16 {
            assert(x.subrange(0, 16)[j] == sk_adrs.subrange(0, 16)[j]);
        } else if j < 20 {
            assert(x.subrange(16, 20)[j - 16] == x[j]);
        } else if j < 24 {
            assert(x.subrange(20, 24)[j - 20] == sk_adrs.subrange(20, 24)[j - 20]);
        } else if j < 28 {
            assert(x.subrange(24, 28)[j - 24] == x[j]);
        } else {
            assert(x.subrange(28, 32)[j - 28] == x[j]);
        }
    }
    assert(x =~= sk_adrs);
}

/// The WOTS+ public key is `T_len` of the chain tops under the `WOTS_PK` address of `adrs`, both
/// when generated and when recomputed from a signature (FIPS 205, Algorithms 6 and 8,
/// `wotspkADRS`): any address whose layer and tree (bytes 0..16) and key-pair address (bytes
/// 20..24) are those of `adrs`, whose type word is `WOTS_PK`, and whose last 8 bytes are zero.
pub proof fn lemma_wots_pk_compress_adrs(
    hash: HashInstantiation,
    sk_seed: Seq<u8>,
    sig: Seq<u8>,
    msg: Seq<u8>,
    pk_seed: Seq<u8>,
    adrs: Seq<u8>,
    pk_adrs: Seq<u8>,
)
    requires
        adrs.len() == 32,
        pk_adrs.len() == 32,
        pk_adrs.subrange(0, 16) == adrs.subrange(0, 16),
        word_at(pk_adrs, 16) == ADRS_WOTS_PK,
        pk_adrs.subrange(20, 24) == adrs.subrange(20, 24),
        forall|j: int| 24 <= j < 32 ==> pk_adrs[j] == 0,
    ensures
        spec_wots_pk_gen(hash, sk_seed, pk_seed, adrs) == spec_t_l(
            hash,
            pk_adrs,
            pk_seed,
            gen_tops(hash, sk_seed, pk_seed, adrs, LEN as nat),
        ),
        spec_wots_pk_from_sig(hash, sig, msg, pk_seed, adrs) == spec_t_l(
            hash,
            pk_adrs,
            pk_seed,
            sig_tops(hash, sig, msg, pk_seed, adrs, LEN as nat),
        ),
{
    let x = wots_pk_adrs(adrs);
    lemma_wots_pk_adrs_layout(adrs);
    lemma_small_word_at(pk_adrs, 16, ADRS_WOTS_PK);
    assert forall|j: int| 0 <= j < 32 implies x[j] == pk_adrs[j] by {
        if j < 16 {
            assert(x.subrange(0, 16)[j] == pk_adrs.subrange(0, 16)[j]);
        } else if j < 20 {
            assert(x.subrange(16, 20)[j - 16] == x[j]);
        } else if j < 24 {
            assert(x.subrange(20, 24)[j - 20] == pk_adrs.subrange(20, 24)[j - 20]);
        } else {
            assert(x.subrange(24, 32)[j - 24] == x[j]);
        }
    }
    assert(x =~= pk_adrs);
}

/// The address that compresses the chain tops (FIPS 205, Algorithm 6, `wotspkADRS`): the layer
/// and tree of `adrs`, type `WOTS_PK`, the full key-pair address of `adrs`, the rest zero.
pub proof fn lemma_wots_pk_adrs_layout(adrs: Seq<u8>)
    requires
        adrs.len() == 32,
    ensures
        ({
            let x = wots_pk_adrs(adrs);
            &&& x.len() == 32
            &&& x.subrange(0, 16) == adrs.subrange(0, 16)
            &&& x.subrange(16, 20) == seq![0u8, 0u8, 0u8, 1u8]
            &&& x.subrange(20, 24) == adrs.subrange(20, 24)
            &&& x.subrange(24, 32) == seq![0u8, 0u8, 0u8, 0u8, 0u8, 0u8, 0u8, 0u8]
        }),
{
    let x = wots_pk_adrs(adrs);
    lemma_zero_word_bytes();
    lemma_small_word_bytes(ADRS_WOTS_PK);
    assert(x.subrange(0, 16) =~= adrs.subrange(0, 16));
    assert(x.subrange(16, 20) =~= seq![0u8, 0u8, 0u8, 1u8]);
    assert(x.subrange(20, 24) =~= adrs.subrange(20, 24));
    assert(x.subrange(24, 32) =~= seq![0u8, 0u8, 0u8, 0u8, 0u8, 0u8, 0u8, 0u8]);
}

/// The address of hash step `pos` of chain `i`: `adrs` up to its key-pair address, then chain
/// `i` and hash address `pos`.
pub proof fn lemma_chain_step_adrs_layout(adrs: Seq<u8>, i: int, pos: int)
    requires
        adrs.len() == 32,
    ensures
        ({
            let x = chain_step_adrs(adrs, i, pos);
            &&& x.len() == 32
            &&& x.subrange(0, 24) == adrs.subrange(0, 24)
            &&& x.subrange(24, 28) == u32_be(i as u32)
            &&& x.subrange(28, 32) == u32_be(pos as u32)
        }),
{
    let x = chain_step_adrs(adrs, i, pos);
    assert(x.subrange(0, 24) =~= adrs.subrange(0, 24));
    assert(x.subrange(24, 28) =~= u32_be(i as u32));
    assert(x.subrange(28, 32) =~= u32_be(pos as u32));
}

} // verus!
