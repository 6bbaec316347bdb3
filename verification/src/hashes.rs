//! The SLH-DSA hash functions (FIPS 205, §11), for both category-1 instantiations.
//!
//! In the SHAKE instantiation every function is a single SHAKE256 call over
//! `PK.seed ‖ ADRS ‖ input` (and `H_msg` over `R ‖ PK.seed ‖ PK.root ‖ M`).
//! In the SHA2 instantiation (category 1) every function is SHA-256: the tweakable hashes and
//! the PRF hash `PK.seed ‖ toByte(0, 64−n) ‖ ADRSc ‖ input` truncated to `n` bytes (the zero
//! padding fills the first compression block; `ADRSc` is the compressed 22-byte address), and
//! `H_msg` is `MGF1-SHA-256(R ‖ PK.seed ‖ SHA-256(R ‖ PK.seed ‖ PK.root ‖ M), m)`.
//!
//! SHAKE256 and SHA-256 themselves are computed by the `sha3` and `sha2` crates; their results
//! are named by [shake256_output] and [sha256_digest], and everything around them is verified.
use crate::address::{adrs_compressed, word_at, Adrs};
use crate::params::{HashInstantiation, SlhDsaParams, N};
use crate::util::{append_bytes, append_zeros, node_from_slice};
use sha2::Digest;
use sha3::digest::{ExtendableOutput, Update, XofReader};
use vstd::prelude::*;

verus! {

/// An `n`-byte hash value: a Merkle-tree node, chain value, seed, or public-key root.
pub type Node = [u8; N];

/// The SHA-256 block size in bytes: the zero padding after `PK.seed` fills one block.
pub const SHA2_BLOCK: usize = 64;

/// The SHA-256 digest size in bytes.
pub const SHA256_LEN: usize = 32;

/// The first `out_len` bytes of the SHAKE256 output stream on `input`.
pub uninterp spec fn shake256_output(input: Seq<u8>, out_len: nat) -> Seq<u8>;

/// The SHA-256 digest of `input`.
pub uninterp spec fn sha256_digest(input: Seq<u8>) -> Seq<u8>;

/// Calls `sha3::Shake256` (absorb `input`, then squeeze `out_len` bytes from the XOF reader).
/// Trusted: the result is the SHAKE256 output named [shake256_output] for these arguments, and
/// it has exactly `out_len` bytes, as the reader fills the whole buffer handed to it.
#[verifier::external_body]
fn shake256(input: &[u8], out_len: usize) -> (out: Vec<u8>)
    ensures
        out@ == shake256_output(input@, out_len as nat),
        out@.len() == out_len,
{
    let mut hasher = sha3::Shake256::default();
    hasher.update(input);
    let mut out = vec![0u8; out_len];
    hasher.finalize_xof().read(&mut out);
    out
}

/// Calls `sha2::Sha256::digest`. Trusted: the result is the digest named [sha256_digest] for
/// `input`, and it is 32 bytes long (the SHA-256 output size).
#[verifier::external_body]
fn sha256(input: &[u8]) -> (digest: Vec<u8>)
    ensures
        digest@ == sha256_digest(input@),
        digest@.len() == SHA256_LEN,
{
    sha2::Sha256::digest(input).to_vec()
}

/// `len` zero bytes.
pub open spec fn zero_bytes(len: nat) -> Seq<u8> {
    Seq::new(len, |i: int| 0u8)
}

/// The 4-byte big-endian encoding `toByte(v, 4)`.
pub open spec fn u32_be(v: u32) -> Seq<u8> {
    seq![(v >> 24u32) as u8, (v >> 16u32) as u8, (v >> 8u32) as u8, v as u8]
}

/// `toByte(v, 4)` is the 4-byte big-endian encoding of `v`.
pub proof fn lemma_u32_be_value(v: u32)
    ensures
        u32_be(v).len() == 4,
        word_at(u32_be(v), 0) == v,
{
    let b = u32_be(v);
    let (b0, b1, b2, b3) = (b[0], b[1], b[2], b[3]);
    assert(b0 as int * 0x100_0000 + b1 as int * 0x1_0000 + b2 as int * 0x100 + b3 as int == v)
        by (bit_vector)
        requires
            b0 == (v >> 24u32) as u8,
            b1 == (v >> 16u32) as u8,
            b2 == (v >> 8u32) as u8,
            b3 == v as u8,
    ;
}

/// The common shape of `F`, `H`, `T_l` and `PRF` (FIPS 205, §11.1 and §11.2.1): hashes the
/// seed-and-address tweak followed by `input` to `n` bytes.
pub open spec fn spec_thash(
    hash: HashInstantiation,
    adrs: Seq<u8>,
    pk_seed: Seq<u8>,
    input: Seq<u8>,
) -> Seq<u8> {
    match hash {
        HashInstantiation::Shake => shake256_output(pk_seed + adrs + input, N as nat),
        HashInstantiation::Sha2 => sha256_digest(
            pk_seed + zero_bytes((SHA2_BLOCK - N) as nat) + adrs_compressed(adrs) + input,
        ).subrange(0, N as int),
    }
}

/// The tweakable hash `F` of one `n`-byte value.
pub open spec fn spec_f(
    hash: HashInstantiation,
    adrs: Seq<u8>,
    pk_seed: Seq<u8>,
    m: Seq<u8>,
) -> Seq<u8> {
    spec_thash(hash, adrs, pk_seed, m)
}

/// The tweakable hash `H` of two `n`-byte values.
pub open spec fn spec_h(
    hash: HashInstantiation,
    adrs: Seq<u8>,
    pk_seed: Seq<u8>,
    l: Seq<u8>,
    r: Seq<u8>,
) -> Seq<u8> {
    spec_thash(hash, adrs, pk_seed, l + r)
}

/// The tweakable hash `T_l` of a concatenation of `n`-byte values.
pub open spec fn spec_t_l(
    hash: HashInstantiation,
    adrs: Seq<u8>,
    pk_seed: Seq<u8>,
    input: Seq<u8>,
) -> Seq<u8> {
    spec_thash(hash, adrs, pk_seed, input)
}

/// The secret-value `PRF` over `SK.seed`.
pub open spec fn spec_prf(
    hash: HashInstantiation,
    adrs: Seq<u8>,
    pk_seed: Seq<u8>,
    sk_seed: Seq<u8>,
) -> Seq<u8> {
    spec_thash(hash, adrs, pk_seed, sk_seed)
}

/// Block `c` of MGF1-SHA-256: `SHA-256(seed ‖ toByte(c, 4))`.
pub open spec fn mgf1_block(seed: Seq<u8>, c: nat) -> Seq<u8> {
    sha256_digest(seed + u32_be(c as u32))
}

/// The concatenation of the first `n` MGF1-SHA-256 blocks.
pub open spec fn mgf1_blocks(seed: Seq<u8>, n: nat) -> Seq<u8>
    decreases n,
{
    if n == 0 {
        seq![]
    } else {
        mgf1_blocks(seed, (n - 1) as nat) + mgf1_block(seed, (n - 1) as nat)
    }
}

/// MGF1 over SHA-256 (RFC 8017, §B.2.1): the first `len` bytes of the concatenated blocks.
pub open spec fn spec_mgf1_sha256(seed: Seq<u8>, len: nat) -> Seq<u8> {
    mgf1_blocks(seed, (len + 31) / 32).subrange(0, len as int)
}

/// The message digest `H_msg(R, PK.seed, PK.root, M)` of `m` bytes (FIPS 205, §11).
pub open spec fn spec_h_msg(
    hash: HashInstantiation,
    r: Seq<u8>,
    pk_seed: Seq<u8>,
    pk_root: Seq<u8>,
    msg: Seq<u8>,
    m: nat,
) -> Seq<u8> {
    match hash {
        HashInstantiation::Shake => shake256_output(r + pk_seed + pk_root + msg, m),
        HashInstantiation::Sha2 => spec_mgf1_sha256(
            r + pk_seed + sha256_digest(r + pk_seed + pk_root + msg),
            m,
        ),
    }
}

/// The common shape of `F`, `H`, `T_l`, and `PRF`: hashes the seed-and-address tweak followed by
/// `input` to `n` bytes, per the parameter set's instantiation.
fn thash(params: &SlhDsaParams, adrs: &Adrs, pk_seed: &Node, input: &[u8]) -> (out: Node)
    ensures
        out@ == spec_thash(params.hash, adrs@, pk_seed@, input@),
        params.hash == HashInstantiation::Shake ==> out@ == shake256_output(
            pk_seed@ + adrs@ + input@,
            16,
        ),
        params.hash == HashInstantiation::Sha2 ==> out@ == sha256_digest(
            pk_seed@ + Seq::new(48, |z: int| 0u8) + (seq![adrs@[3]] + adrs@.subrange(8, 16)
                + seq![adrs@[19]] + adrs@.subrange(20, 32)) + input@,
        ).subrange(0, 16),
{
    let mut msg: Vec<u8> = Vec::new();
    append_bytes(&mut msg, pk_seed.as_slice());
    match params.hash {
        HashInstantiation::Shake => {
            append_bytes(&mut msg, adrs.bytes().as_slice());
            append_bytes(&mut msg, input);
            let digest = shake256(msg.as_slice(), N);
            let out = node_from_slice(digest.as_slice());
            assert(out@ =~= spec_thash(params.hash, adrs@, pk_seed@, input@));
            out
        },
        HashInstantiation::Sha2 => {
            append_zeros(&mut msg, SHA2_BLOCK - N);
            let c = adrs.compressed_bytes();
            append_bytes(&mut msg, c.as_slice());
            append_bytes(&mut msg, input);
            let digest = sha256(msg.as_slice());
            let out = node_from_slice(digest.as_slice());
            assert(adrs_compressed(adrs@) == seq![adrs@[3]] + adrs@.subrange(8, 16) + seq![
                adrs@[19]] + adrs@.subrange(20, 32));
            assert(zero_bytes((SHA2_BLOCK - N) as nat) =~= Seq::new(48, |z: int| 0u8));
            out
        },
    }
}

/// The tweakable hash `F`: hashes a single `n`-byte value.
pub fn f(params: &SlhDsaParams, adrs: &Adrs, pk_seed: &Node, m: &Node) -> (out: Node)
    ensures
        out@ == spec_f(params.hash, adrs@, pk_seed@, m@),
        params.hash == HashInstantiation::Shake ==> out@ == shake256_output(
            pk_seed@ + adrs@ + m@,
            16,
        ),
        params.hash == HashInstantiation::Sha2 ==> out@ == sha256_digest(
            pk_seed@ + Seq::new(48, |z: int| 0u8) + (seq![adrs@[3]] + adrs@.subrange(8, 16)
                + seq![adrs@[19]] + adrs@.subrange(20, 32)) + m@,
        ).subrange(0, 16),
{
    thash(params, adrs, pk_seed, m.as_slice())
}

/// The tweakable hash `H`: hashes two `n`-byte values (Merkle-tree children).
pub fn h(params: &SlhDsaParams, adrs: &Adrs, pk_seed: &Node, l: &Node, r: &Node) -> (out: Node)
    ensures
        out@ == spec_h(params.hash, adrs@, pk_seed@, l@, r@),
        params.hash == HashInstantiation::Shake ==> out@ == shake256_output(
            pk_seed@ + adrs@ + (l@ + r@),
            16,
        ),
        params.hash == HashInstantiation::Sha2 ==> out@ == sha256_digest(
            pk_seed@ + Seq::new(48, |z: int| 0u8) + (seq![adrs@[3]] + adrs@.subrange(8, 16)
                + seq![adrs@[19]] + adrs@.subrange(20, 32)) + (l@ + r@),
        ).subrange(0, 16),
{
    let mut input: Vec<u8> = Vec::with_capacity(2 * N);
    append_bytes(&mut input, l.as_slice());
    append_bytes(&mut input, r.as_slice());
    thash(params, adrs, pk_seed, input.as_slice())
}

/// The tweakable hash `T_l`: hashes a concatenation of `n`-byte values (WOTS+ chain tops or
/// FORS roots), given as a flat byte vector.
pub fn t_l(params: &SlhDsaParams, adrs: &Adrs, pk_seed: &Node, input: Vec<u8>) -> (out: Node)
    requires
        input@.len() % (N as nat) == 0,
    ensures
        out@ == spec_t_l(params.hash, adrs@, pk_seed@, input@),
        params.hash == HashInstantiation::Shake ==> out@ == shake256_output(
            pk_seed@ + adrs@ + input@,
            16,
        ),
        params.hash == HashInstantiation::Sha2 ==> out@ == sha256_digest(
            pk_seed@ + Seq::new(48, |z: int| 0u8) + (seq![adrs@[3]] + adrs@.subrange(8, 16)
                + seq![adrs@[19]] + adrs@.subrange(20, 32)) + input@,
        ).subrange(0, 16),
{
    thash(params, adrs, pk_seed, input.as_slice())
}

/// The secret-value PRF: hashes the seed-and-address tweak followed by `SK.seed` to `n` bytes.
pub fn prf(params: &SlhDsaParams, adrs: &Adrs, pk_seed: &Node, sk_seed: &Node) -> (out: Node)
    ensures
        out@ == spec_prf(params.hash, adrs@, pk_seed@, sk_seed@),
        params.hash == HashInstantiation::Shake ==> out@ == shake256_output(
            pk_seed@ + adrs@ + sk_seed@,
            16,
        ),
        params.hash == HashInstantiation::Sha2 ==> out@ == sha256_digest(
            pk_seed@ + Seq::new(48, |z: int| 0u8) + (seq![adrs@[3]] + adrs@.subrange(8, 16)
                + seq![adrs@[19]] + adrs@.subrange(20, 32)) + sk_seed@,
        ).subrange(0, 16),
{
    thash(params, adrs, pk_seed, sk_seed.as_slice())
}

/// The MGF1 mask-generation function over SHA-256 (RFC 8017, §B.2.1): concatenates
/// `SHA-256(seed ‖ toByte(counter, 4))` for `counter = 0, 1, …` and truncates to `len` bytes.
pub fn mgf1_sha256(seed: &[u8], len: usize) -> (out: Vec<u8>)
    requires
        len <= 32 * (u32::MAX as int),
    ensures
        out@ == spec_mgf1_sha256(seed@, len as nat),
        out@.len() == len,
        forall|c: nat| c < (len + 31) / 32 ==> (#[trigger] mgf1_block(seed@, c)).len() == 32,
        forall|i: int|
            #![trigger out@[i]]
            0 <= i < len ==> out@[i] == sha256_digest(
                seed@ + seq![
                    ((i / 32) as u32 >> 24u32) as u8,
                    ((i / 32) as u32 >> 16u32) as u8,
                    ((i / 32) as u32 >> 8u32) as u8,
                    (i / 32) as u32 as u8,
                ],
            )[i % 32],
{
    let mut out: Vec<u8> = Vec::with_capacity(len);
    let mut counter: u32 = 0;
    while out.len() < len
        invariant
            len <= 32 * (u32::MAX as int),
            mgf1_blocks(seed@, counter as nat).len() == 32 * counter,
            out@.len() <= len,
            out@.len() == (if 32 * counter <= len {
                32 * counter
            } else {
                len as int
            }),
            out@ == mgf1_blocks(seed@, counter as nat).subrange(0, out@.len() as int),
            counter == 0 || 32 * (counter - 1) < len,
            forall|c: nat| c < counter ==> (#[trigger] mgf1_block(seed@, c)).len() == 32,
        decreases len - out@.len(),
    {
        let mut input: Vec<u8> = Vec::new();
        append_bytes(&mut input, seed);
        let mut be: Vec<u8> = Vec::new();
        be.push((counter >> 24u32) as u8);
        be.push((counter >> 16u32) as u8);
        be.push((counter >> 8u32) as u8);
        be.push(counter as u8);
        assert(be@ =~= u32_be(counter));
        append_bytes(&mut input, be.as_slice());
        let block = sha256(input.as_slice());
        let ghost prev = out@;
        let remaining = len - out.len();
        let take = if remaining < SHA256_LEN { remaining } else { SHA256_LEN };
        let mut j: usize = 0;
        while j < take
            invariant
                take <= 32,
                block@.len() == 32,
                j <= take,
                out@ == prev + block@.subrange(0, j as int),
            decreases take - j,
        {
            out.push(block[j]);
            assert(block@.subrange(0, j + 1) =~= block@.subrange(0, j as int).push(
                block@[j as int],
            ));
            j = j + 1;
        }
        proof {
            let nb = mgf1_blocks(seed@, (counter + 1) as nat);
            assert(nb == mgf1_blocks(seed@, counter as nat) + block@);
            assert(block@ == mgf1_block(seed@, counter as nat));
            assert(out@ =~= nb.subrange(0, out@.len() as int));
        }
        counter = counter + 1;
    }
    proof {
        assert(counter as int == (len + 31) / 32);
        assert(out@ =~= spec_mgf1_sha256(seed@, len as nat));
        lemma_mgf1_blocks_index(seed@, counter as nat);
    }
    out
}

/// Byte `i` of the concatenated MGF1 blocks is byte `i mod 32` of block `⌊i/32⌋`.
proof fn lemma_mgf1_blocks_index(seed: Seq<u8>, n: nat)
    requires
        forall|c: nat| c < n ==> (#[trigger] mgf1_block(seed, c)).len() == 32,
    ensures
        mgf1_blocks(seed, n).len() == 32 * n,
        forall|i: int|
            0 <= i < 32 * n ==> #[trigger] mgf1_blocks(seed, n)[i] == mgf1_block(
                seed,
                (i / 32) as nat,
            )[i % 32],
    decreases n,
{
    if n > 0 {
        lemma_mgf1_blocks_index(seed, (n - 1) as nat);
        assert(mgf1_block(seed, (n - 1) as nat).len() == 32);
        let prev = mgf1_blocks(seed, (n - 1) as nat);
        assert forall|i: int| 0 <= i < 32 * n implies #[trigger] mgf1_blocks(seed, n)[i]
            == mgf1_block(seed, (i / 32) as nat)[i % 32] by {
            if i < 32 * (n - 1) {
                assert(mgf1_blocks(seed, n)[i] == prev[i]);
            } else {
                assert(i / 32 == n - 1);
            }
        }
    }
}

/// The first `n1` MGF1 blocks are a prefix of the first `n2 ≥ n1` blocks.
pub proof fn lemma_mgf1_blocks_prefix(seed: Seq<u8>, n1: nat, n2: nat)
    requires
        n1 <= n2,
    ensures
        mgf1_blocks(seed, n1).len() <= mgf1_blocks(seed, n2).len(),
        mgf1_blocks(seed, n2).subrange(0, mgf1_blocks(seed, n1).len() as int) == mgf1_blocks(
            seed,
            n1,
        ),
    decreases n2,
{
    if n1 < n2 {
        lemma_mgf1_blocks_prefix(seed, n1, (n2 - 1) as nat);
        let b1 = mgf1_blocks(seed, n1);
        let b2 = mgf1_blocks(seed, (n2 - 1) as nat);
        assert((b2 + mgf1_block(seed, (n2 - 1) as nat)).subrange(0, b1.len() as int) =~= b2.subrange(
            0,
            b1.len() as int,
        ));
    } else {
        assert(mgf1_blocks(seed, n2).subrange(0, mgf1_blocks(seed, n1).len() as int)
            =~= mgf1_blocks(seed, n1));
    }
}

proof fn lemma_mgf1_blocks_len(seed: Seq<u8>, n: nat)
    requires
        forall|c: nat| c < n ==> (#[trigger] mgf1_block(seed, c)).len() == 32,
    ensures
        mgf1_blocks(seed, n).len() == 32 * n,
    decreases n,
{
    if n > 0 {
        lemma_mgf1_blocks_len(seed, (n - 1) as nat);
        assert(mgf1_block(seed, (n - 1) as nat).len() == 32);
    }
}

/// A shorter MGF1 output is a prefix of a longer one over the same seed. The SHA-256 blocks
/// that the longer output uses are 32 bytes long, as `mgf1_sha256` states of every call.
pub proof fn lemma_mgf1_prefix(seed: Seq<u8>, len1: nat, len2: nat)
    requires
        len1 <= len2,
        forall|c: nat| c < (len2 + 31) / 32 ==> (#[trigger] mgf1_block(seed, c)).len() == 32,
    ensures
        spec_mgf1_sha256(seed, len1) == spec_mgf1_sha256(seed, len2).subrange(0, len1 as int),
{
    let n1 = (len1 + 31) / 32;
    let n2 = (len2 + 31) / 32;
    assert(n1 <= n2);
    lemma_mgf1_blocks_len(seed, n2);
    lemma_mgf1_blocks_len(seed, n1);
    lemma_mgf1_blocks_prefix(seed, n1 as nat, n2 as nat);
    let b1 = mgf1_blocks(seed, n1 as nat);
    let b2 = mgf1_blocks(seed, n2 as nat);
    assert(len1 <= 32 * n1 && len2 <= 32 * n2);
    assert(b1.subrange(0, len1 as int) =~= b2.subrange(0, len2 as int).subrange(0, len1 as int));
}

/// The message digest `H_msg`: hashes `R ‖ PK.seed ‖ PK.root ‖ M` to `m` bytes.
pub fn h_msg(
    params: &SlhDsaParams,
    r: &Node,
    pk_seed: &Node,
    pk_root: &Node,
    msg: &[u8],
) -> (out: Vec<u8>)
    requires
        params.hash == HashInstantiation::Sha2 ==> params.m <= 32 * (u32::MAX as int),
    ensures
        out@ == spec_h_msg(params.hash, r@, pk_seed@, pk_root@, msg@, params.m as nat),
        out@.len() == params.m,
        params.hash == HashInstantiation::Shake ==> out@ == shake256_output(
            r@ + pk_seed@ + pk_root@ + msg@,
            params.m as nat,
        ),
        params.hash == HashInstantiation::Sha2 ==> forall|i: int|
            #![trigger out@[i]]
            0 <= i < params.m ==> out@[i] == sha256_digest(
                r@ + pk_seed@ + sha256_digest(r@ + pk_seed@ + pk_root@ + msg@) + seq![
                    ((i / 32) as u32 >> 24u32) as u8,
                    ((i / 32) as u32 >> 16u32) as u8,
                    ((i / 32) as u32 >> 8u32) as u8,
                    (i / 32) as u32 as u8,
                ],
            )[i % 32],
{
    let mut input: Vec<u8> = Vec::new();
    append_bytes(&mut input, r.as_slice());
    append_bytes(&mut input, pk_seed.as_slice());
    append_bytes(&mut input, pk_root.as_slice());
    append_bytes(&mut input, msg);
    assert(input@ == r@ + pk_seed@ + pk_root@ + msg@);
    match params.hash {
        HashInstantiation::Shake => shake256(input.as_slice(), params.m),
        HashInstantiation::Sha2 => {
            let inner = sha256(input.as_slice());
            let mut mgf_seed: Vec<u8> = Vec::new();
            append_bytes(&mut mgf_seed, r.as_slice());
            append_bytes(&mut mgf_seed, pk_seed.as_slice());
            append_bytes(&mut mgf_seed, inner.as_slice());
            mgf1_sha256(mgf_seed.as_slice(), params.m)
        },
    }
}

} // verus!
