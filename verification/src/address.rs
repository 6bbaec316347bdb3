//! The SLH-DSA hash address `ADRS` (FIPS 205, §4.2) as a 32-byte array.
//!
//! The address is modelled by its bytes; each setter is stated as a write of big-endian words
//! at fixed offsets, over the specification functions of this module.
use vstd::prelude::*;

verus! {

/// The `WOTS_HASH` address type: WOTS+ chain hashing.
pub const ADRS_WOTS_HASH: u32 = 0;

/// The `WOTS_PK` address type: WOTS+ public-key compression.
pub const ADRS_WOTS_PK: u32 = 1;

/// The `TREE` address type: XMSS Merkle-tree hashing.
pub const ADRS_TREE: u32 = 2;

/// The `FORS_TREE` address type: FORS leaf generation and Merkle-tree hashing.
pub const ADRS_FORS_TREE: u32 = 3;

/// The `FORS_ROOTS` address type: FORS root compression.
pub const ADRS_FORS_ROOTS: u32 = 4;

/// The `WOTS_PRF` address type: WOTS+ secret-value generation.
pub const ADRS_WOTS_PRF: u32 = 5;

/// The `FORS_PRF` address type: FORS secret-value generation.
pub const ADRS_FORS_PRF: u32 = 6;

/// The address length in bytes.
pub const ADRS_LEN: usize = 32;

/// The compressed address length in bytes (SHA2 instantiation, FIPS 205 §11.2).
pub const ADRS_COMPRESSED_LEN: usize = 22;

/// Writes the big-endian bytes of `v` at `off..off + 4`.
pub open spec fn set_word(a: Seq<u8>, off: int, v: u32) -> Seq<u8> {
    a.update(off, (v >> 24u32) as u8).update(off + 1, (v >> 16u32) as u8).update(
        off + 2,
        (v >> 8u32) as u8,
    ).update(off + 3, v as u8)
}

/// The big-endian value of the four bytes of `a` at `off..off + 4`.
pub open spec fn word_at(a: Seq<u8>, off: int) -> int {
    a[off] * 0x100_0000 + a[off + 1] * 0x1_0000 + a[off + 2] * 0x100 + a[off + 3]
}

/// Writing a word stores its value big-endian in its four bytes and leaves every other byte of
/// the address as it was.
pub proof fn lemma_set_word_value(a: Seq<u8>, off: int, v: u32)
    requires
        a.len() == 32,
        0 <= off <= 28,
    ensures
        set_word(a, off, v).len() == 32,
        word_at(set_word(a, off, v), off) == v,
        forall|j: int| 0 <= j < 32 && !(off <= j < off + 4) ==> set_word(a, off, v)[j] == a[j],
{
    let b0 = (v >> 24u32) as u8;
    let b1 = (v >> 16u32) as u8;
    let b2 = (v >> 8u32) as u8;
    let b3 = v as u8;
    assert(b0 as int * 0x100_0000 + b1 as int * 0x1_0000 + b2 as int * 0x100 + b3 as int == v)
        by (bit_vector)
        requires
            b0 == (v >> 24u32) as u8,
            b1 == (v >> 16u32) as u8,
            b2 == (v >> 8u32) as u8,
            b3 == v as u8,
    ;
}

/// The four bytes of a word are determined by its big-endian value: an address whose bytes at
/// `off..off + 4` hold the value `v` is unchanged by writing `v` there.
pub proof fn lemma_word_at_determines(a: Seq<u8>, off: int, v: u32)
    requires
        a.len() == 32,
        0 <= off <= 28,
        word_at(a, off) == v,
    ensures
        set_word(a, off, v) == a,
{
    let (a0, a1, a2, a3) = (a[off], a[off + 1], a[off + 2], a[off + 3]);
    assert(a0 == (v >> 24u32) as u8 && a1 == (v >> 16u32) as u8 && a2 == (v >> 8u32) as u8 && a3
        == v as u8) by (bit_vector)
        requires
            a0 as int * 0x100_0000 + a1 as int * 0x1_0000 + a2 as int * 0x100 + a3 as int == v,
    ;
    assert(set_word(a, off, v) =~= a);
}

/// Two addresses whose words at `off` have the same big-endian value agree on its four bytes.
pub proof fn lemma_word_at_injective(a: Seq<u8>, b: Seq<u8>, off: int)
    requires
        a.len() == 32,
        b.len() == 32,
        0 <= off <= 28,
        word_at(a, off) == word_at(b, off),
    ensures
        forall|j: int| off <= j < off + 4 ==> a[j] == b[j],
{
    let (a0, a1, a2, a3) = (a[off], a[off + 1], a[off + 2], a[off + 3]);
    let (b0, b1, b2, b3) = (b[off], b[off + 1], b[off + 2], b[off + 3]);
    assert(a0 == b0 && a1 == b1 && a2 == b2 && a3 == b3) by (bit_vector)
        requires
            a0 as int * 0x100_0000 + a1 as int * 0x1_0000 + a2 as int * 0x100 + a3 as int == b0 as int
                * 0x100_0000 + b1 as int * 0x1_0000 + b2 as int * 0x100 + b3 as int,
    ;
}

/// A word whose big-endian value is below 256 has three zero bytes and the value last.
pub proof fn lemma_small_word_at(a: Seq<u8>, off: int, v: u32)
    requires
        a.len() == 32,
        0 <= off <= 28,
        word_at(a, off) == v,
        v < 256,
    ensures
        a[off] == 0,
        a[off + 1] == 0,
        a[off + 2] == 0,
        a[off + 3] == v,
{
}

/// `a` and `b` are 32-byte addresses that agree on every byte outside `lo..hi`.
pub open spec fn agree_outside(a: Seq<u8>, b: Seq<u8>, lo: int, hi: int) -> bool {
    &&& a.len() == 32
    &&& b.len() == 32
    &&& forall|j: int| 0 <= j < 32 && !(lo <= j < hi) ==> a[j] == b[j]
}

/// Writing a word over the only bytes where two addresses differ makes them equal.
pub proof fn lemma_set_word_agree(a: Seq<u8>, b: Seq<u8>, off: int, v: u32)
    requires
        0 <= off <= 28,
        agree_outside(a, b, off, off + 4),
    ensures
        set_word(a, off, v) == set_word(b, off, v),
{
    assert(set_word(a, off, v) =~= set_word(b, off, v));
}

/// The big-endian bytes of the zero word are zero.
pub proof fn lemma_zero_word_bytes()
    ensures
        (0u32 >> 24u32) as u8 == 0u8,
        (0u32 >> 16u32) as u8 == 0u8,
        (0u32 >> 8u32) as u8 == 0u8,
        0u32 as u8 == 0u8,
{
    assert((0u32 >> 24u32) as u8 == 0u8 && (0u32 >> 16u32) as u8 == 0u8 && (0u32 >> 8u32) as u8
        == 0u8 && 0u32 as u8 == 0u8) by (bit_vector);
}

/// The big-endian bytes of a word below 256 are three zeros and the word itself.
pub proof fn lemma_small_word_bytes(v: u32)
    requires
        v < 256,
    ensures
        (v >> 24u32) as u8 == 0u8,
        (v >> 16u32) as u8 == 0u8,
        (v >> 8u32) as u8 == 0u8,
        v as u8 == v,
{
    assert((v >> 24u32) as u8 == 0u8 && (v >> 16u32) as u8 == 0u8 && (v >> 8u32) as u8 == 0u8
        && v as u8 == v) by (bit_vector)
        requires
            v < 256,
    ;
}

/// The all-zero address.
pub open spec fn adrs_zero() -> Seq<u8> {
    Seq::new(32, |i: int| 0u8)
}

/// `setLayerAddress`: bytes 0..4.
pub open spec fn adrs_set_layer(a: Seq<u8>, layer: u32) -> Seq<u8> {
    set_word(a, 0, layer)
}

/// `setTreeAddress` for a tree index below 2^64: bytes 4..8 zeroed, bytes 8..16 big-endian.
pub open spec fn adrs_set_tree(a: Seq<u8>, tree: u64) -> Seq<u8> {
    set_word(set_word(set_word(a, 4, 0), 8, (tree >> 32u64) as u32), 12, tree as u32)
}

/// `setTypeAndClear`: the type at bytes 16..20, and the three words after it zeroed.
pub open spec fn adrs_set_type_and_clear(a: Seq<u8>, ty: u32) -> Seq<u8> {
    set_word(set_word(set_word(set_word(a, 16, ty), 20, 0), 24, 0), 28, 0)
}

/// `setKeyPairAddress`: bytes 20..24.
pub open spec fn adrs_set_key_pair(a: Seq<u8>, key_pair: u32) -> Seq<u8> {
    set_word(a, 20, key_pair)
}

/// Copies the key-pair address (bytes 20..24) of `from` into `a`.
pub open spec fn adrs_copy_key_pair(a: Seq<u8>, from: Seq<u8>) -> Seq<u8> {
    a.update(20, from[20]).update(21, from[21]).update(22, from[22]).update(23, from[23])
}

/// `setChainAddress`: bytes 24..28.
pub open spec fn adrs_set_chain(a: Seq<u8>, chain: u32) -> Seq<u8> {
    set_word(a, 24, chain)
}

/// `setTreeHeight`: bytes 24..28.
pub open spec fn adrs_set_tree_height(a: Seq<u8>, height: u32) -> Seq<u8> {
    set_word(a, 24, height)
}

/// `setHashAddress`: bytes 28..32.
pub open spec fn adrs_set_hash(a: Seq<u8>, hash: u32) -> Seq<u8> {
    set_word(a, 28, hash)
}

/// `setTreeIndex`: bytes 28..32.
pub open spec fn adrs_set_tree_index(a: Seq<u8>, index: u32) -> Seq<u8> {
    set_word(a, 28, index)
}

/// The compressed address `ADRSc = ADRS[3] ‖ ADRS[8:16] ‖ ADRS[19] ‖ ADRS[20:32]`.
pub open spec fn adrs_compressed(a: Seq<u8>) -> Seq<u8> {
    seq![a[3]] + a.subrange(8, 16) + seq![a[19]] + a.subrange(20, 32)
}

/// An SLH-DSA hash address: 32 bytes with typed field setters.
#[derive(Clone, Copy, Debug)]
pub struct Adrs {
    bytes: [u8; 32],
}

impl View for Adrs {
    type V = Seq<u8>;

    closed spec fn view(&self) -> Seq<u8> {
        self.bytes@
    }
}

impl Adrs {
    /// Every address is 32 bytes long.
    pub proof fn lemma_len(&self)
        ensures
            self@.len() == 32,
    {
    }

    /// Creates an all-zero address.
    pub fn new() -> (adrs: Self)
        ensures
            adrs@ == adrs_zero(),
    {
        let adrs = Adrs { bytes: [0u8; 32] };
        assert(adrs@ =~= adrs_zero());
        adrs
    }

    /// Returns the address bytes, for inclusion in a hash input.
    pub fn bytes(&self) -> (b: &[u8; 32])
        ensures
            b@ == self@,
    {
        &self.bytes
    }

    /// Returns the compressed 22-byte address used by the SHA2 instantiation.
    pub fn compressed_bytes(&self) -> (c: Vec<u8>)
        ensures
            c@ == adrs_compressed(self@),
            c@.len() == 22,
    {
        let mut c: Vec<u8> = Vec::with_capacity(ADRS_COMPRESSED_LEN);
        c.push(self.bytes[3]);
        let mut i: usize = 8;
        while i < 16
            invariant
                8 <= i <= 16,
                c@ == seq![self@[3]] + self@.subrange(8, i as int),
            decreases 16 - i,
        {
            c.push(self.bytes[i]);
            assert(self@.subrange(8, i + 1) =~= self@.subrange(8, i as int).push(self@[i as int]));
            i = i + 1;
        }
        c.push(self.bytes[19]);
        let mut j: usize = 20;
        while j < 32
            invariant
                20 <= j <= 32,
                c@ == seq![self@[3]] + self@.subrange(8, 16) + seq![self@[19]] + self@.subrange(
                    20,
                    j as int,
                ),
            decreases 32 - j,
        {
            c.push(self.bytes[j]);
            assert(self@.subrange(20, j + 1) =~= self@.subrange(20, j as int).push(
                self@[j as int],
            ));
            j = j + 1;
        }
        c
    }

    /// Overwrites the 4 bytes at `offset` with a big-endian u32 value.
    fn set_u32(&mut self, offset: usize, value: u32)
        requires
            offset <= 28,
        ensures
            final(self)@ == set_word(old(self)@, offset as int, value),
    {
        self.bytes[offset] = (value >> 24u32) as u8;
        self.bytes[offset + 1] = (value >> 16u32) as u8;
        self.bytes[offset + 2] = (value >> 8u32) as u8;
        self.bytes[offset + 3] = value as u8;
        assert(self@ =~= set_word(old(self)@, offset as int, value));
    }

    /// Sets the layer address (bytes 0..4).
    pub fn set_layer(&mut self, layer: u32)
        ensures
            final(self)@ == adrs_set_layer(old(self)@, layer),
    {
        self.set_u32(0, layer);
    }

    /// Sets the tree address (bytes 4..16) from a u64 value derived from the message digest (the
/// upper 4 bytes are zeroed).
    pub fn set_tree_addr_wire(&mut self, tree: &u64)
        ensures
            final(self)@ == adrs_set_tree(old(self)@, *tree),
    {
        self.set_u32(4, 0);
        self.set_u32(8, (*tree >> 32u64) as u32);
        self.set_u32(12, *tree as u32);
    }

    /// Sets the type (bytes 16..20) and zeroes the three type-dependent words (bytes 20..32), as
    /// prescribed for every address-type change (FIPS 205, §4.2).
    pub fn set_type_and_clear(&mut self, adrs_type: u32)
        ensures
            final(self)@ == adrs_set_type_and_clear(old(self)@, adrs_type),
    {
        self.set_u32(16, adrs_type);
        self.set_u32(20, 0);
        self.set_u32(24, 0);
        self.set_u32(28, 0);
    }

    /// Sets the key-pair address (bytes 20..24) to a constant.
    pub fn set_key_pair_const(&mut self, key_pair: u32)
        ensures
            final(self)@ == adrs_set_key_pair(old(self)@, key_pair),
    {
        self.set_u32(20, key_pair);
    }

    /// Sets the key-pair address (bytes 20..24) from a value derived from secret data (the leaf
/// index of the message digest); it writes the same bytes as [Adrs::set_key_pair_const].
    pub fn set_key_pair_wire(&mut self, key_pair: &u32)
        ensures
            final(self)@ == adrs_set_key_pair(old(self)@, *key_pair),
    {
        self.set_u32(20, *key_pair);
    }

    /// Copies the key-pair address (bytes 20..24) from another address.
    pub fn copy_key_pair_from(&mut self, other: &Adrs)
        ensures
            final(self)@ == adrs_copy_key_pair(old(self)@, other@),
    {
        let mut i: usize = 20;
        while i < 24
            invariant
                20 <= i <= 24,
                self@.len() == 32,
                forall|j: int| 0 <= j < 32 && !(20 <= j < i) ==> self@[j] == old(self)@[j],
                forall|j: int| 20 <= j < i ==> self@[j] == other@[j],
            decreases 24 - i,
        {
            self.bytes[i] = other.bytes[i];
            i = i + 1;
        }
        assert(self@ =~= adrs_copy_key_pair(old(self)@, other@));
    }

    /// Sets the chain address (bytes 24..28) to a constant.
    pub fn set_chain_const(&mut self, chain: u32)
        ensures
            final(self)@ == adrs_set_chain(old(self)@, chain),
    {
        self.set_u32(24, chain);
    }

    /// Sets the tree height (bytes 24..28) to a constant.
    pub fn set_tree_height_const(&mut self, height: u32)
        ensures
            final(self)@ == adrs_set_tree_height(old(self)@, height),
    {
        self.set_u32(24, height);
    }

    /// Sets the hash address (bytes 28..32) to a constant.
    pub fn set_hash_const(&mut self, hash: u32)
        ensures
            final(self)@ == adrs_set_hash(old(self)@, hash),
    {
        self.set_u32(28, hash);
    }

    /// Sets the tree index (bytes 28..32) to a constant.
    pub fn set_tree_index_const(&mut self, index: u32)
        ensures
            final(self)@ == adrs_set_tree_index(old(self)@, index),
    {
        self.set_u32(28, index);
    }

    /// Sets the tree index (bytes 28..32) from a value derived from secret data (an
/// authentication-path position); it writes the same bytes as [Adrs::set_tree_index_const].
    pub fn set_tree_index_wire(&mut self, index: &u32)
        ensures
            final(self)@ == adrs_set_tree_index(old(self)@, *index),
    {
        self.set_u32(28, *index);
    }
}

} // verus!
