//! Building blocks for data-independent control flow, and the `base_2b` bit parser.
use crate::hashes::{zero_bytes, Node};
use crate::params::N;
use vstd::prelude::*;

verus! {

/// Expands a single-bit byte (holding 0 or 1) into a full byte mask (0x00 or 0xFF): the
/// two's-complement negation of `bit`.
pub fn mask_from_bit(bit: u8) -> (mask: u8)
    ensures
        mask as int == (256 - bit) % 256,
        bit == 0 ==> mask == 0x00,
        bit == 1 ==> mask == 0xFF,
{
    let inv = !bit;
    assert(inv == 255 - bit) by (bit_vector)
        requires
            inv == !bit,
    ;
    inv.wrapping_add(1)
}

/// Byte-wise masked selection: `on_ones` where the mask has ones, `on_zeros` elsewhere.
pub open spec fn masked_select(mask: u8, on_ones: u8, on_zeros: u8) -> u8 {
    on_zeros ^ (mask & (on_ones ^ on_zeros))
}

/// Selecting under a full mask or an empty mask yields one of the two bytes.
pub proof fn lemma_masked_select(mask: u8, a: u8, b: u8)
    ensures
        mask == 0xFF ==> masked_select(mask, a, b) == a,
        mask == 0x00 ==> masked_select(mask, a, b) == b,
{
    assert(b ^ (0xFFu8 & (a ^ b)) == a) by (bit_vector);
    assert(b ^ (0x00u8 & (a ^ b)) == b) by (bit_vector);
}

/// Selects between two nodes under a byte mask: `on_ones` if the mask is 0xFF, `on_zeros` if it
/// is 0x00 (and the byte-wise masked mixture otherwise).
pub fn select_node(mask: u8, on_ones: &Node, on_zeros: &Node) -> (out: Node)
    ensures
        forall|i: int| 0 <= i < N ==> out[i] == masked_select(mask, on_ones[i], on_zeros[i]),
        mask == 0xFF ==> out@ == on_ones@,
        mask == 0x00 ==> out@ == on_zeros@,
{
    let mut out: Node = [0u8; N];
    for i in 0..N
        invariant
            forall|j: int| 0 <= j < i ==> out[j] == masked_select(mask, on_ones[j], on_zeros[j]),
    {
        out[i] = on_zeros[i] ^ (mask & (on_ones[i] ^ on_zeros[i]));
    }
    proof {
        assert forall|j: int| 0 <= j < N implies (mask == 0xFF ==> out@[j] == on_ones@[j]) && (
        mask == 0x00 ==> out@[j] == on_zeros@[j]) by {
            lemma_masked_select(mask, on_ones[j], on_zeros[j]);
        }
    }
    assert(mask == 0xFF ==> out@ =~= on_ones@);
    assert(mask == 0x00 ==> out@ =~= on_zeros@);
    out
}

/// Swaps two nodes if the byte mask is 0xFF, passes them through unchanged if it is 0x00.
pub fn cond_swap_nodes(mask: u8, l: &Node, r: &Node) -> (out: (Node, Node))
    ensures
        forall|i: int|
            0 <= i < N ==> out.0[i] == l[i] ^ (mask & (l[i] ^ r[i])) && out.1[i] == r[i] ^ (mask
                & (l[i] ^ r[i])),
        mask == 0xFF ==> out.0@ == r@ && out.1@ == l@,
        mask == 0x00 ==> out.0@ == l@ && out.1@ == r@,
{
    let mut a: Node = [0u8; N];
    let mut b: Node = [0u8; N];
    for i in 0..N
        invariant
            forall|j: int|
                0 <= j < i ==> a[j] == l[j] ^ (mask & (l[j] ^ r[j])) && b[j] == r[j] ^ (mask & (
                l[j] ^ r[j])),
    {
        let delta = mask & (l[i] ^ r[i]);
        a[i] = l[i] ^ delta;
        b[i] = r[i] ^ delta;
    }
    proof {
        assert forall|j: int| 0 <= j < N implies (mask == 0xFF ==> a@[j] == r@[j] && b@[j]
            == l@[j]) && (mask == 0x00 ==> a@[j] == l@[j] && b@[j] == r@[j]) by {
            let x = l[j];
            let y = r[j];
            assert(x ^ (0xFFu8 & (x ^ y)) == y) by (bit_vector);
            assert(y ^ (0xFFu8 & (x ^ y)) == x) by (bit_vector);
            assert(x ^ (0x00u8 & (x ^ y)) == x) by (bit_vector);
            assert(y ^ (0x00u8 & (x ^ y)) == y) by (bit_vector);
        }
    }
    assert(mask == 0xFF ==> a@ =~= r@ && b@ =~= l@);
    assert(mask == 0x00 ==> a@ =~= l@ && b@ =~= r@);
    (a, b)
}

/// Extracts bit `j` (counting from the least significant) of a u32 value, as a byte holding 0
/// or 1.
pub fn bit_of_u32(x: &u32, j: usize) -> (bit: u8)
    requires
        j < 32,
    ensures
        bit as u32 == (*x >> j) & 1,
        bit <= 1,
{
    let v = *x;
    let s = (31 - j) as u32;
    let js = j as u32;
    let r = (v << s) >> 31u32;
    assert(r == (v >> js) & 1 && r <= 1) by (bit_vector)
        requires
            js < 32,
            s == 31 - js,
            r == (v << s) >> 31u32,
    ;
    let bit = r as u8;
    assert(bit as u32 == r) by (bit_vector)
        requires
            r <= 1,
            bit == r as u8,
    ;
    bit
}

/// Copies a node out of a byte slice.
pub fn node_from_slice(s: &[u8]) -> (node: Node)
    requires
        s@.len() >= N,
    ensures
        node@ == s@.subrange(0, N as int),
{
    let mut node: Node = [0u8; N];
    for i in 0..N
        invariant
            s@.len() >= N,
            forall|j: int| 0 <= j < i ==> node[j] == s@[j],
    {
        node[i] = s[i];
    }
    assert(node@ =~= s@.subrange(0, N as int));
    node
}

/// Appends the bytes of `s` to `v`.
pub(crate) fn append_bytes(v: &mut Vec<u8>, s: &[u8])
    ensures
        final(v)@ == old(v)@ + s@,
{
    let mut i: usize = 0;
    while i < s.len()
        invariant
            i <= s@.len(),
            v@ == old(v)@ + s@.subrange(0, i as int),
        decreases s@.len() - i,
    {
        v.push(s[i]);
        assert(s@.subrange(0, i + 1) =~= s@.subrange(0, i as int).push(s@[i as int]));
        i = i + 1;
    }
    assert(s@.subrange(0, s@.len() as int) =~= s@);
}

/// Appends `count` zero bytes to `v`.
pub(crate) fn append_zeros(v: &mut Vec<u8>, count: usize)
    ensures
        final(v)@ == old(v)@ + zero_bytes(count as nat),
{
    let mut i: usize = 0;
    while i < count
        invariant
            i <= count,
            v@ == old(v)@ + zero_bytes(i as nat),
        decreases count - i,
    {
        v.push(0u8);
        assert(zero_bytes((i + 1) as nat) =~= zero_bytes(i as nat).push(0u8));
        i = i + 1;
    }
}

/// Bit `p` of a byte string read as a big-endian bit string (bit 0 is the most significant bit
/// of the first byte); positions past the end read as 0.
pub open spec fn bit_at(bytes: Seq<u8>, p: int) -> int {
    if 0 <= p && p / 8 < bytes.len() {
        ((bytes[p / 8] >> ((7 - p % 8) as u8)) & 1u8) as int
    } else {
        0
    }
}

/// The integer formed by the `len` bits of `bytes` starting at bit position `start`, most
/// significant bit first.
pub open spec fn bits_be(bytes: Seq<u8>, start: int, len: nat) -> int
    decreases len,
{
    if len == 0 {
        0
    } else {
        2 * bits_be(bytes, start, (len - 1) as nat) + bit_at(bytes, start + len - 1)
    }
}


/// A value of `len` bits is below 2^len.
pub proof fn lemma_bits_be_bound(bytes: Seq<u8>, start: int, len: nat)
    ensures
        0 <= bits_be(bytes, start, len) < vstd::arithmetic::power2::pow2(len),
    decreases len,
{
    vstd::arithmetic::power2::lemma2_to64();
    if len > 0 {
        lemma_bits_be_bound(bytes, start, (len - 1) as nat);
        vstd::arithmetic::power2::lemma_pow2_unfold(len);
        let p = start + len - 1;
        if 0 <= p && p / 8 < bytes.len() {
            let byte = bytes[p / 8];
            let sh = (7 - p % 8) as u8;
            assert((byte >> sh) & 1u8 <= 1u8) by (bit_vector);
        }
    }
}

/// The `base_2b` function (FIPS 205, Algorithm 4): `count` consecutive `b`-bit big-endian
/// values of a byte string.
pub open spec fn base_2b(bytes: Seq<u8>, b: nat, count: nat) -> Seq<int> {
    Seq::new(count, |i: int| bits_be(bytes, i * b, b))
}

/// Bit `p` (most significant first) of a 32-bit word.
pub open spec fn word_bit(w: u32, p: int) -> int {
    ((w >> ((31 - p) as u32)) & 1u32) as int
}

/// The `len` bits of a 32-bit word starting at bit `start`, most significant first.
pub open spec fn word_bits(w: u32, start: int, len: nat) -> int
    decreases len,
{
    if len == 0 {
        0
    } else {
        2 * word_bits(w, start, (len - 1) as nat) + word_bit(w, start + len - 1)
    }
}

/// Shifting a word left by `off` and then right by `32 - len` extracts `len` bits at `off`.
proof fn lemma_shift_window(w: u32, off: u32, len: u32)
    requires
        1 <= len,
        off + len <= 32,
    ensures
        ((w << off) >> ((32 - len) as u32)) as int == word_bits(w, off as int, len as nat),
    decreases len,
{
    if len == 1 {
        let r = (w << off) >> 31u32;
        assert(r == (w >> ((31 - off) as u32)) & 1u32) by (bit_vector)
            requires
                off <= 31,
                r == (w << off) >> 31u32,
        ;
        assert(word_bits(w, off as int, 0) == 0);
    } else {
        let l1 = (len - 1) as u32;
        lemma_shift_window(w, off, l1);
        let x = w << off;
        let hi = x >> ((32 - l1) as u32);
        let all = x >> ((32 - len) as u32);
        let low = (w >> ((31 - (off + l1)) as u32)) & 1u32;
        assert(all as int == 2 * (hi as int) + (low as int)) by (bit_vector)
            requires
                2 <= len,
                off + len <= 32,
                l1 == len - 1,
                x == w << off,
                hi == x >> ((32 - l1) as u32),
                all == x >> ((32 - len) as u32),
                low == (w >> ((31 - (off + l1)) as u32)) & 1u32,
        ;
        assert(word_bit(w, off + l1) == low as int);
    }
}

/// The bits of a big-endian window word are the bits of the bytes it was built from.
proof fn lemma_window_bit(w0: u8, w1: u8, w2: u8, w3: u8, q: u32)
    requires
        q < 32,
    ensures
        ({
            let w = ((w0 as u32) << 24u32) | ((w1 as u32) << 16u32) | ((w2 as u32) << 8u32) | (
            w3 as u32);
            let byte = if q < 8 {
                w0
            } else if q < 16 {
                w1
            } else if q < 24 {
                w2
            } else {
                w3
            };
            word_bit(w, q as int) == ((byte >> ((7 - q % 8) as u8)) & 1u8) as int
        }),
{
    let w = ((w0 as u32) << 24u32) | ((w1 as u32) << 16u32) | ((w2 as u32) << 8u32) | (w3 as u32);
    let s = (31 - q) as u32;
    let t = (7 - q % 8) as u8;
    let wb = (w >> s) & 1u32;
    if q < 8 {
        assert(wb == ((w0 >> t) & 1u8) as u32) by (bit_vector)
            requires
                q < 8,
                s == 31 - q,
                t == 7 - q % 8,
                w == ((w0 as u32) << 24u32) | ((w1 as u32) << 16u32) | ((w2 as u32) << 8u32) | (
                w3 as u32),
                wb == (w >> s) & 1u32,
        ;
    } else if q < 16 {
        assert(wb == ((w1 >> t) & 1u8) as u32) by (bit_vector)
            requires
                8 <= q < 16,
                s == 31 - q,
                t == 7 - q % 8,
                w == ((w0 as u32) << 24u32) | ((w1 as u32) << 16u32) | ((w2 as u32) << 8u32) | (
                w3 as u32),
                wb == (w >> s) & 1u32,
        ;
    } else if q < 24 {
        assert(wb == ((w2 >> t) & 1u8) as u32) by (bit_vector)
            requires
                16 <= q < 24,
                s == 31 - q,
                t == 7 - q % 8,
                w == ((w0 as u32) << 24u32) | ((w1 as u32) << 16u32) | ((w2 as u32) << 8u32) | (
                w3 as u32),
                wb == (w >> s) & 1u32,
        ;
    } else {
        assert(wb == ((w3 >> t) & 1u8) as u32) by (bit_vector)
            requires
                24 <= q < 32,
                s == 31 - q,
                t == 7 - q % 8,
                w == ((w0 as u32) << 24u32) | ((w1 as u32) << 16u32) | ((w2 as u32) << 8u32) | (
                w3 as u32),
                wb == (w >> s) & 1u32,
        ;
    }
}

/// The byte at `i`, or 0 past the end.
pub open spec fn byte_or_zero(bytes: Seq<u8>, i: int) -> u8 {
    if 0 <= i < bytes.len() {
        bytes[i]
    } else {
        0
    }
}

/// The window word built from the four bytes at `sb` holds the bits of `bytes` from `8 * sb`.
proof fn lemma_window_bits(bytes: Seq<u8>, sb: int, off: int, len: nat)
    requires
        0 <= sb,
        0 <= off,
        off + len <= 32,
    ensures
        ({
            let w = ((byte_or_zero(bytes, sb) as u32) << 24u32) | ((byte_or_zero(bytes, sb + 1)
                as u32) << 16u32) | ((byte_or_zero(bytes, sb + 2) as u32) << 8u32) | (
            byte_or_zero(bytes, sb + 3) as u32);
            word_bits(w, off, len) == bits_be(bytes, 8 * sb + off, len)
        }),
    decreases len,
{
    let w = ((byte_or_zero(bytes, sb) as u32) << 24u32) | ((byte_or_zero(bytes, sb + 1) as u32)
        << 16u32) | ((byte_or_zero(bytes, sb + 2) as u32) << 8u32) | (byte_or_zero(
        bytes,
        sb + 3,
    ) as u32);
    if len > 0 {
        lemma_window_bits(bytes, sb, off, (len - 1) as nat);
        let q = off + len - 1;
        lemma_window_bit(
            byte_or_zero(bytes, sb),
            byte_or_zero(bytes, sb + 1),
            byte_or_zero(bytes, sb + 2),
            byte_or_zero(bytes, sb + 3),
            q as u32,
        );
        let p = 8 * sb + q;
        assert(p / 8 == sb + q / 8 && p % 8 == q % 8);
        let z = (7 - q % 8) as u8;
        assert((0u8 >> z) & 1u8 == 0u8) by (bit_vector);
    }
}

/// Bits read from positions below `8 · |bytes|` do not depend on what follows `bytes`.
proof fn lemma_bits_be_prefix(bytes: Seq<u8>, extra: Seq<u8>, start: int, len: nat)
    requires
        0 <= start,
        start + len <= 8 * bytes.len(),
    ensures
        bits_be(bytes + extra, start, len) == bits_be(bytes, start, len),
    decreases len,
{
    if len > 0 {
        lemma_bits_be_prefix(bytes, extra, start, (len - 1) as nat);
        let p = start + len - 1;
        assert((bytes + extra)[p / 8] == bytes[p / 8]);
    }
}

/// Only the first `⌈count·b/8⌉` bytes affect `base_2b`: appending bytes after a string that
/// already holds `count·b` bits leaves the result unchanged.
pub proof fn lemma_base_2b_prefix(bytes: Seq<u8>, extra: Seq<u8>, b: nat, count: nat)
    requires
        count * b <= 8 * bytes.len(),
    ensures
        base_2b(bytes + extra, b, count) == base_2b(bytes, b, count),
{
    assert forall|i: int| 0 <= i < count implies base_2b(bytes + extra, b, count)[i] == base_2b(
        bytes,
        b,
        count,
    )[i] by {
        assert(i * b + b <= count * b) by (nonlinear_arith)
            requires
                0 <= i < count,
        ;
        assert(0 <= i * b) by (nonlinear_arith)
            requires
                0 <= i,
        ;
        lemma_bits_be_prefix(bytes, extra, i * b, b);
    }
    assert(base_2b(bytes + extra, b, count) =~= base_2b(bytes, b, count));
}

/// The `base_2b` function (FIPS 205, Algorithm 4): splits a byte string into `count` consecutive
/// `b`-bit big-endian values, as u32 values.
pub fn base_2b_u32(bytes: &[u8], b: usize, count: usize) -> (out: Vec<u32>)
    requires
        1 <= b <= 25,
        count * b <= bytes@.len() * 8,
        bytes@.len() * 8 <= usize::MAX,
    ensures
        out@.len() == count,
        forall|i: int| 0 <= i < count ==> out@[i] == bits_be(bytes@, i * b, b as nat),
        forall|i: int| 0 <= i < count ==> out@[i] == base_2b(bytes@, b as nat, count as nat)[i],
{
    let mut out: Vec<u32> = Vec::with_capacity(count);
    let mut i: usize = 0;
    while i < count
        invariant
            1 <= b <= 25,
            count * b <= bytes@.len() * 8,
            bytes@.len() * 8 <= usize::MAX,
            i <= count,
            out@.len() == i,
            forall|j: int| 0 <= j < i ==> out@[j] == bits_be(bytes@, j * b, b as nat),
        decreases count - i,
    {
        assert(i * b <= count * b) by (nonlinear_arith)
            requires
                i <= count,
        ;
        let start_bit = i * b;
        let start_byte = start_bit / 8;
        let w0 = if start_byte < bytes.len() { bytes[start_byte] } else { 0u8 };
        let w1 = if start_byte + 1 < bytes.len() { bytes[start_byte + 1] } else { 0u8 };
        let w2 = if start_byte + 2 < bytes.len() { bytes[start_byte + 2] } else { 0u8 };
        let w3 = if start_byte + 3 < bytes.len() { bytes[start_byte + 3] } else { 0u8 };
        let window = ((w0 as u32) << 24u32) | ((w1 as u32) << 16u32) | ((w2 as u32) << 8u32) | (
        w3 as u32);
        let off = (start_bit - 8 * start_byte) as u32;
        let v = (window << off) >> ((32 - b) as u32);
        proof {
            let sb = start_byte as int;
            assert(w0 == byte_or_zero(bytes@, sb));
            assert(w1 == byte_or_zero(bytes@, sb + 1));
            assert(w2 == byte_or_zero(bytes@, sb + 2));
            assert(w3 == byte_or_zero(bytes@, sb + 3));
            lemma_shift_window(window, off, b as u32);
            lemma_window_bits(bytes@, sb, off as int, b as nat);
        }
        out.push(v);
        i = i + 1;
    }
    out
}

} // verus!
