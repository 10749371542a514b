use vstd::prelude::*;

verus! {

/// A value packed together with a "stamp" (a version or sequence number) into one
/// integer of type `T`.
///
/// The `VALUE_BITS` least significant bits hold the value; the remaining, most
/// significant bits hold the stamp. Stamps that do not fit in the remaining bits
/// lose their high bits.
#[derive(PartialEq, Eq, Clone, Copy)]
pub struct StampedValue<T, const VALUE_BITS: usize> {
    inner: T,
}

proof fn lemma_mask16_no_underflow(vb: usize)
    by (bit_vector)
    requires
        vb < 16,
    ensures
        1u16 <= (1u16 << vb),
{
}

proof fn lemma_pack_u8(stamp: u8, value: u8, vb: usize)
    by (bit_vector)
    requires
        vb < 8,
        value <= ((1u16 << vb) - 1) as u8,
    ensures
        ((stamp << vb) | value) & (((1u16 << vb) - 1) as u8) == value,
        ((stamp << vb) | value) >> vb == stamp & (0xffu8 >> vb),
{
}

proof fn lemma_repack_u8(raw: u8, vb: usize)
    by (bit_vector)
    requires
        vb < 8,
    ensures
        ((raw >> vb) << vb) | (raw & (((1u16 << vb) - 1) as u8)) == raw,
        raw & (((1u16 << vb) - 1) as u8) <= ((1u16 << vb) - 1) as u8,
{
}

proof fn lemma_mask32_no_underflow(vb: usize)
    by (bit_vector)
    requires
        vb < 32,
    ensures
        1u32 <= (1u32 << vb),
{
}

proof fn lemma_pack_u16(stamp: u16, value: u16, vb: usize)
    by (bit_vector)
    requires
        vb < 16,
        value <= ((1u32 << vb) - 1) as u16,
    ensures
        ((stamp << vb) | value) & (((1u32 << vb) - 1) as u16) == value,
        ((stamp << vb) | value) >> vb == stamp & (0xffffu16 >> vb),
{
}

proof fn lemma_repack_u16(raw: u16, vb: usize)
    by (bit_vector)
    requires
        vb < 16,
    ensures
        ((raw >> vb) << vb) | (raw & (((1u32 << vb) - 1) as u16)) == raw,
        raw & (((1u32 << vb) - 1) as u16) <= ((1u32 << vb) - 1) as u16,
{
}

impl<const VALUE_BITS: usize> StampedValue<u8, VALUE_BITS> {
    /// The packed integer.
    pub closed spec fn raw(self) -> u8 {
        self.inner
    }

    /// The largest value that fits in the value bits.
    pub open spec fn value_mask() -> u8 {
        ((1u16 << VALUE_BITS) - 1) as u8
    }

    /// The largest stamp that survives packing.
    pub open spec fn stamp_mask() -> u8 {
        0xffu8 >> VALUE_BITS
    }

    /// The packed integer for `stamp` and `value`.
    pub open spec fn pack(stamp: u8, value: u8) -> u8 {
        (stamp << VALUE_BITS) | value
    }

    pub open spec fn spec_value(self) -> u8 {
        self.raw() & Self::value_mask()
    }

    pub open spec fn spec_stamp(self) -> u8 {
        self.raw() >> VALUE_BITS
    }

    /// Wraps an already packed integer.
    pub fn from_raw(raw: u8) -> (r: Self)
        ensures
            r.raw() == raw,
    {
        StampedValue { inner: raw }
    }

    /// Packs `stamp` and `value`; the stamp keeps only the bits that fit above the value.
    pub fn new(stamp: u8, value: u8) -> (r: Self)
        requires
            VALUE_BITS < 8,
            value <= Self::value_mask(),
        ensures
            r.raw() == Self::pack(stamp, value),
            r.spec_value() == value,
            r.spec_stamp() == stamp & Self::stamp_mask(),
    {
        proof {
            lemma_pack_u8(stamp, value, VALUE_BITS);
        }
        StampedValue { inner: (stamp << VALUE_BITS) | value }
    }

    /// Extracts the value portion of the packed integer.
    pub fn value(&self) -> (r: u8)
        requires
            VALUE_BITS < 16,
        ensures
            r == self.spec_value(),
    {
        proof {
            lemma_mask16_no_underflow(VALUE_BITS);
        }
        let mask = ((1u16 << VALUE_BITS) - 1) as u8;
        self.inner & mask
    }

    /// Extracts the stamp portion of the packed integer.
    pub fn stamp(&self) -> (r: u8)
        requires
            VALUE_BITS < 8,
        ensures
            r == self.spec_stamp(),
    {
        self.inner >> VALUE_BITS
    }

    /// Whether this value's stamp is not older than `other`'s; values are not compared.
    pub fn stamp_at_least(&self, other: &Self) -> (r: bool)
        requires
            VALUE_BITS < 8,
        ensures
            r == (self.spec_stamp() >= other.spec_stamp()),
    {
        self.stamp() >= other.stamp()
    }

    /// Overwrites this value with the packed state of `other`.
    pub fn update(&mut self, other: &Self)
        ensures
            *final(self) == *other,
    {
        self.inner = other.inner;
    }

    /// The packed integer holding both the stamp and the value.
    pub fn into_u8(&self) -> (r: u8)
        ensures
            r == self.raw(),
    {
        self.inner
    }

    /// Packing the stamp and the value of a stamped value gives back its packed integer:
    /// the two portions together lose nothing.
    pub proof fn lemma_repack(self)
        requires
            VALUE_BITS < 8,
        ensures
            Self::pack(self.spec_stamp(), self.spec_value()) == self.raw(),
            self.spec_value() <= Self::value_mask(),
    {
        lemma_repack_u8(self.raw(), VALUE_BITS);
    }
}

impl<const VALUE_BITS: usize> StampedValue<u16, VALUE_BITS> {
    /// The packed integer.
    pub closed spec fn raw(self) -> u16 {
        self.inner
    }

    /// The largest value that fits in the value bits.
    pub open spec fn value_mask() -> u16 {
        ((1u32 << VALUE_BITS) - 1) as u16
    }

    /// The largest stamp that survives packing.
    pub open spec fn stamp_mask() -> u16 {
        0xffffu16 >> VALUE_BITS
    }

    /// The packed integer for `stamp` and `value`.
    pub open spec fn pack(stamp: u16, value: u16) -> u16 {
        (stamp << VALUE_BITS) | value
    }

    pub open spec fn spec_value(self) -> u16 {
        self.raw() & Self::value_mask()
    }

    pub open spec fn spec_stamp(self) -> u16 {
        self.raw() >> VALUE_BITS
    }

    /// Wraps an already packed integer.
    pub fn from_raw(raw: u16) -> (r: Self)
        ensures
            r.raw() == raw,
    {
        StampedValue { inner: raw }
    }

    /// Packs `stamp` and `value`; the stamp keeps only the bits that fit above the value.
    pub fn new(stamp: u16, value: u16) -> (r: Self)
        requires
            VALUE_BITS < 16,
            value <= Self::value_mask(),
        ensures
            r.raw() == Self::pack(stamp, value),
            r.spec_value() == value,
            r.spec_stamp() == stamp & Self::stamp_mask(),
    {
        proof {
            lemma_pack_u16(stamp, value, VALUE_BITS);
        }
        StampedValue { inner: (stamp << VALUE_BITS) | value }
    }

    /// Extracts the value portion of the packed integer.
    pub fn value(&self) -> (r: u16)
        requires
            VALUE_BITS < 32,
        ensures
            r == self.spec_value(),
    {
        proof {
            lemma_mask32_no_underflow(VALUE_BITS);
        }
        let mask = ((1u32 << VALUE_BITS) - 1) as u16;
        self.inner & mask
    }

    /// Extracts the stamp portion of the packed integer.
    pub fn stamp(&self) -> (r: u16)
        requires
            VALUE_BITS < 16,
        ensures
            r == self.spec_stamp(),
    {
        self.inner >> VALUE_BITS
    }

    /// Whether this value's stamp is not older than `other`'s; values are not compared.
    pub fn stamp_at_least(&self, other: &Self) -> (r: bool)
        requires
            VALUE_BITS < 16,
        ensures
            r == (self.spec_stamp() >= other.spec_stamp()),
    {
        self.stamp() >= other.stamp()
    }

    /// Overwrites this value with the packed state of `other`.
    pub fn update(&mut self, other: &Self)
        ensures
            *final(self) == *other,
    {
        self.inner = other.inner;
    }

    /// The packed integer holding both the stamp and the value.
    pub fn to_u16(&self) -> (r: u16)
        ensures
            r == self.raw(),
    {
        self.inner
    }

    /// Packing the stamp and the value of a stamped value gives back its packed integer:
    /// the two portions together lose nothing.
    pub proof fn lemma_repack(self)
        requires
            VALUE_BITS < 16,
        ensures
            Self::pack(self.spec_stamp(), self.spec_value()) == self.raw(),
            self.spec_value() <= Self::value_mask(),
    {
        lemma_repack_u16(self.raw(), VALUE_BITS);
    }
}

/// `k` is the position of the newest packed value in `vals`, comparing stamps alone
/// (the bits above the lowest `value_bits`); among equally new ones, the last.
pub open spec fn is_newest(vals: Seq<u8>, k: int, value_bits: usize) -> bool {
    &&& 0 <= k < vals.len()
    &&& forall|j: int| 0 <= j < vals.len() ==> (#[trigger] vals[j]) >> value_bits <= vals[k] >> value_bits
    &&& forall|j: int| k < j < vals.len() ==> (#[trigger] vals[j]) >> value_bits < vals[k] >> value_bits
}

/// The position of the newest packed value in `vals`.
pub open spec fn spec_newest(vals: Seq<u8>, value_bits: usize) -> int {
    choose|k: int| is_newest(vals, k, value_bits)
}

/// There is only one newest position.
pub proof fn lemma_newest_unique(vals: Seq<u8>, k: int, value_bits: usize)
    requires
        is_newest(vals, k, value_bits),
    ensures
        spec_newest(vals, value_bits) == k,
{
    let c = choose|c: int| is_newest(vals, c, value_bits);
    assert(is_newest(vals, c, value_bits));
    if c < k {
        assert(vals[k] >> value_bits < vals[c] >> value_bits);
        assert(vals[k] >> value_bits <= vals[c] >> value_bits);
    } else if k < c {
        assert(vals[c] >> value_bits < vals[k] >> value_bits);
    }
}

/// Every non-empty sequence of packed values has a newest one.
pub proof fn lemma_newest_exists(vals: Seq<u8>, value_bits: usize)
    requires
        vals.len() > 0,
    ensures
        is_newest(vals, spec_newest(vals, value_bits), value_bits),
    decreases vals.len(),
{
    if vals.len() == 1 {
        assert(is_newest(vals, 0, value_bits));
    } else {
        let init = vals.drop_last();
        lemma_newest_exists(init, value_bits);
        let k = spec_newest(init, value_bits);
        let last = vals.len() - 1;
        if vals[last] >> value_bits >= vals[k] >> value_bits {
            assert(is_newest(vals, last, value_bits)) by {
                assert forall|j: int| 0 <= j < vals.len() implies (#[trigger] vals[j]) >> value_bits <= vals[last] >> value_bits by {
                    if j < last {
                        assert(init[j] == vals[j]);
                    }
                }
            }
        } else {
            assert(is_newest(vals, k, value_bits)) by {
                assert forall|j: int| 0 <= j < vals.len() implies (#[trigger] vals[j]) >> value_bits <= vals[k] >> value_bits by {
                    if j < last {
                        assert(init[j] == vals[j]);
                    }
                }
                assert forall|j: int| k < j < vals.len() implies (#[trigger] vals[j]) >> value_bits < vals[k] >> value_bits by {
                    if j < last {
                        assert(init[j] == vals[j]);
                    }
                }
            }
        }
    }
}

/// Law: when every observation with the largest stamp is the same packed value
/// `latest`, the newest observation is `latest`: a write whose stamp is the newest
/// one seen is what the reader picks.
pub proof fn lemma_newest_is_latest(vals: Seq<u8>, i: int, value_bits: usize)
    requires
        0 <= i < vals.len(),
        forall|j: int| 0 <= j < vals.len() ==> (#[trigger] vals[j]) >> value_bits <= vals[i] >> value_bits,
        forall|j: int| 0 <= j < vals.len() && (#[trigger] vals[j]) >> value_bits == vals[i] >> value_bits ==> vals[j] == vals[i],
    ensures
        vals[spec_newest(vals, value_bits)] == vals[i],
{
    lemma_newest_exists(vals, value_bits);
    let k = spec_newest(vals, value_bits);
    assert(vals[i] >> value_bits <= vals[k] >> value_bits);
}

/// Finds the newest of the packed values `vals` (stamps in the bits above the lowest
/// `value_bits`): the largest stamp, the last one among equals.
pub fn newest_index(vals: &Vec<u8>, value_bits: usize) -> (k: usize)
    requires
        vals@.len() > 0,
        value_bits < 8,
    ensures
        is_newest(vals@, k as int, value_bits),
        k == spec_newest(vals@, value_bits),
{
    let n = vals.len();
    let mut best: usize = 0;
    let mut i: usize = 1;
    while i < n
        invariant
            1 <= i <= n,
            n == vals@.len(),
            value_bits < 8,
            best < i,
            forall|j: int| 0 <= j < i ==> (#[trigger] vals@[j]) >> value_bits <= vals@[best as int] >> value_bits,
            forall|j: int| best < j < i ==> (#[trigger] vals@[j]) >> value_bits < vals@[best as int] >> value_bits,
        decreases n - i,
    {
        if vals[i] >> value_bits >= vals[best] >> value_bits {
            best = i;
        }
        i = i + 1;
    }
    proof {
        lemma_newest_unique(vals@, best as int, value_bits);
    }
    best
}

/// `k` is the position of the newest packed value in `vals`, comparing stamps alone
/// (the bits above the lowest `value_bits`); among equally new ones, the last.
pub open spec fn is_newest_u16(vals: Seq<u16>, k: int, value_bits: usize) -> bool {
    &&& 0 <= k < vals.len()
    &&& forall|j: int| 0 <= j < vals.len() ==> (#[trigger] vals[j]) >> value_bits <= vals[k] >> value_bits
    &&& forall|j: int| k < j < vals.len() ==> (#[trigger] vals[j]) >> value_bits < vals[k] >> value_bits
}

/// The position of the newest packed value in `vals`.
pub open spec fn spec_newest_u16(vals: Seq<u16>, value_bits: usize) -> int {
    choose|k: int| is_newest_u16(vals, k, value_bits)
}

/// There is only one newest position.
pub proof fn lemma_newest_unique_u16(vals: Seq<u16>, k: int, value_bits: usize)
    requires
        is_newest_u16(vals, k, value_bits),
    ensures
        spec_newest_u16(vals, value_bits) == k,
{
    let c = choose|c: int| is_newest_u16(vals, c, value_bits);
    assert(is_newest_u16(vals, c, value_bits));
    if c < k {
        assert(vals[k] >> value_bits < vals[c] >> value_bits);
        assert(vals[k] >> value_bits <= vals[c] >> value_bits);
    } else if k < c {
        assert(vals[c] >> value_bits < vals[k] >> value_bits);
    }
}

/// Every non-empty sequence of packed values has a newest one.
pub proof fn lemma_newest_exists_u16(vals: Seq<u16>, value_bits: usize)
    requires
        vals.len() > 0,
    ensures
        is_newest_u16(vals, spec_newest_u16(vals, value_bits), value_bits),
    decreases vals.len(),
{
    if vals.len() == 1 {
        assert(is_newest_u16(vals, 0, value_bits));
    } else {
        let init = vals.drop_last();
        lemma_newest_exists_u16(init, value_bits);
        let k = spec_newest_u16(init, value_bits);
        let last = vals.len() - 1;
        if vals[last] >> value_bits >= vals[k] >> value_bits {
            assert(is_newest_u16(vals, last, value_bits)) by {
                assert forall|j: int| 0 <= j < vals.len() implies (#[trigger] vals[j]) >> value_bits <= vals[last] >> value_bits by {
                    if j < last {
                        assert(init[j] == vals[j]);
                    }
                }
            }
        } else {
            assert(is_newest_u16(vals, k, value_bits)) by {
                assert forall|j: int| 0 <= j < vals.len() implies (#[trigger] vals[j]) >> value_bits <= vals[k] >> value_bits by {
                    if j < last {
                        assert(init[j] == vals[j]);
                    }
                }
                assert forall|j: int| k < j < vals.len() implies (#[trigger] vals[j]) >> value_bits < vals[k] >> value_bits by {
                    if j < last {
                        assert(init[j] == vals[j]);
                    }
                }
            }
        }
    }
}

/// Law: when every observation with the largest stamp is the same packed value
/// `latest`, the newest observation is `latest`: a write whose stamp is the newest
/// one seen is what the reader picks.
pub proof fn lemma_newest_is_latest_u16(vals: Seq<u16>, i: int, value_bits: usize)
    requires
        0 <= i < vals.len(),
        forall|j: int| 0 <= j < vals.len() ==> (#[trigger] vals[j]) >> value_bits <= vals[i] >> value_bits,
        forall|j: int| 0 <= j < vals.len() && (#[trigger] vals[j]) >> value_bits == vals[i] >> value_bits ==> vals[j] == vals[i],
    ensures
        vals[spec_newest_u16(vals, value_bits)] == vals[i],
{
    lemma_newest_exists_u16(vals, value_bits);
    let k = spec_newest_u16(vals, value_bits);
    assert(vals[i] >> value_bits <= vals[k] >> value_bits);
}

/// Finds the newest of the packed values `vals` (stamps in the bits above the lowest
/// `value_bits`): the largest stamp, the last one among equals.
pub fn newest_index_u16(vals: &Vec<u16>, value_bits: usize) -> (k: usize)
    requires
        vals@.len() > 0,
        value_bits < 16,
    ensures
        is_newest_u16(vals@, k as int, value_bits),
        k == spec_newest_u16(vals@, value_bits),
{
    let n = vals.len();
    let mut best: usize = 0;
    let mut i: usize = 1;
    while i < n
        invariant
            1 <= i <= n,
            n == vals@.len(),
            value_bits < 16,
            best < i,
            forall|j: int| 0 <= j < i ==> (#[trigger] vals@[j]) >> value_bits <= vals@[best as int] >> value_bits,
            forall|j: int| best < j < i ==> (#[trigger] vals@[j]) >> value_bits < vals@[best as int] >> value_bits,
        decreases n - i,
    {
        if vals[i] >> value_bits >= vals[best] >> value_bits {
            best = i;
        }
        i = i + 1;
    }
    proof {
        lemma_newest_unique_u16(vals@, best as int, value_bits);
    }
    best
}

} // verus!
