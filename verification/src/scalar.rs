//! Order keys for real numbers, and triples of them.
//!
//! A key is an `i64` that stands for a binary64 number: the number's bit
//! pattern with the sign bit cleared, negated when the number is negative.
//! Keys compare as the numbers do, both zeros have the key `0`, negating a key
//! negates the number, and a key beyond `INFINITY` in magnitude stands for no
//! number. `i64::MIN` is the key of nothing.
//!
//! Decisions compare keys with `less` and `at_most`, which are false as soon
//! as one side is no number, as the comparison of the numbers is.

use vstd::prelude::*;

verus! {

/// The key of zero.
pub const ZERO: i64 = 0;

/// The key of one.
pub const ONE: i64 = 0x3FF0_0000_0000_0000;

/// The key of positive infinity.
pub const INFINITY: i64 = 0x7FF0_0000_0000_0000;

/// The sign bit of a bit pattern.
pub const SIGN: u64 = 0x8000_0000_0000_0000;

/// Whether `k` stands for a number (infinities included).
pub open spec fn is_number(k: i64) -> bool {
    -INFINITY <= k <= INFINITY
}

/// Whether `k` stands for a number (infinities included).
pub fn number(k: i64) -> (b: bool)
    ensures
        b == is_number(k),
{
    -INFINITY <= k && k <= INFINITY
}

/// Whether both keys stand for numbers and the first number is below the
/// second.
pub open spec fn spec_less(a: i64, b: i64) -> bool {
    is_number(a) && is_number(b) && a < b
}

/// Whether both keys stand for numbers and the first number is not above the
/// second.
pub open spec fn spec_at_most(a: i64, b: i64) -> bool {
    is_number(a) && is_number(b) && a <= b
}

/// Whether the first number is below the second; false where a key is no
/// number.
pub fn less(a: i64, b: i64) -> (r: bool)
    ensures
        r == spec_less(a, b),
{
    number(a) && number(b) && a < b
}

/// Whether the first number is not above the second; false where a key is
/// no number.
pub fn at_most(a: i64, b: i64) -> (r: bool)
    ensures
        r == spec_at_most(a, b),
{
    number(a) && number(b) && a <= b
}

/// The key of a binary64 bit pattern: the pattern without its sign bit,
/// negated where the sign bit is set.
pub open spec fn spec_key_of_bits(bits: u64) -> i64 {
    if bits < SIGN {
        bits as i64
    } else {
        (-(bits - SIGN)) as i64
    }
}

/// The bit pattern of a key: the magnitude, with the sign bit set for a
/// negative key. `i64::MIN`, which is no key, gives the sign bit alone.
pub open spec fn spec_bits_of_key(k: i64) -> u64 {
    if k >= 0 {
        k as u64
    } else if k == i64::MIN {
        SIGN
    } else {
        (-k + SIGN) as u64
    }
}

/// Whether the number of the first bit pattern is below that of the second,
/// for patterns of numbers: among patterns without the sign bit the smaller
/// pattern is the smaller number, among patterns with it the larger pattern
/// is, and one with the sign bit is below one without, except that the two
/// zeros are equal.
pub open spec fn bits_before(a: u64, b: u64) -> bool {
    if a < SIGN && b < SIGN {
        a < b
    } else if a >= SIGN && b >= SIGN {
        a > b
    } else if a >= SIGN {
        a > SIGN || b > 0
    } else {
        false
    }
}

/// Whether a bit pattern is that of a number: its exponent is not the
/// highest, or its fraction is zero.
pub open spec fn bits_of_number(bits: u64) -> bool {
    if bits < SIGN {
        bits <= INFINITY
    } else {
        bits - SIGN <= INFINITY
    }
}

/// The key of a binary64 bit pattern.
pub fn key_of_bits(bits: u64) -> (k: i64)
    ensures
        k == spec_key_of_bits(bits),
        k > i64::MIN,
        is_number(k) == bits_of_number(bits),
{
    if bits < SIGN {
        bits as i64
    } else {
        let magnitude: u64 = bits - SIGN;
        -(magnitude as i64)
    }
}

/// The bit pattern of a key.
pub fn bits_of_key(k: i64) -> (bits: u64)
    ensures
        bits == spec_bits_of_key(k),
{
    if k >= 0 {
        k as u64
    } else if k == i64::MIN {
        SIGN
    } else {
        let magnitude: i64 = -k;
        magnitude as u64 + SIGN
    }
}

/// A key gives back its bit pattern and a bit pattern its key, but for the
/// negative zero, whose key is that of zero.
pub proof fn lemma_key_round_trip(k: i64, bits: u64)
    ensures
        k > i64::MIN ==> spec_key_of_bits(spec_bits_of_key(k)) == k,
        bits != SIGN ==> spec_bits_of_key(spec_key_of_bits(bits)) == bits,
        spec_key_of_bits(0) == 0,
        spec_key_of_bits(SIGN) == 0,
        spec_bits_of_key(0) == 0,
{
}

/// Keys are ordered as the numbers of their bit patterns are, and equal
/// exactly for equal patterns and for the two zeros.
pub proof fn lemma_keys_keep_order(a: u64, b: u64)
    ensures
        spec_key_of_bits(a) < spec_key_of_bits(b) <==> bits_before(a, b),
        spec_key_of_bits(a) == spec_key_of_bits(b) <==> (a == b || (a == 0 && b == SIGN) || (a
            == SIGN && b == 0)),
        bits_of_number(a) && bits_of_number(b) ==> (spec_less(
            spec_key_of_bits(a),
            spec_key_of_bits(b),
        ) <==> bits_before(a, b)),
{
}

/// The key of the negated number.
pub open spec fn spec_negate(k: i64) -> i64 {
    if k == i64::MIN {
        i64::MAX
    } else {
        (-k) as i64
    }
}

/// Negates the number behind a key. `i64::MIN`, which is no key, goes to `i64::MAX`.
pub fn negate(k: i64) -> (r: i64)
    ensures
        r == spec_negate(k),
        is_number(k) ==> is_number(r) && r == -k,
{
    if k == i64::MIN {
        i64::MAX
    } else {
        -k
    }
}

/// The smaller of two numbers; where one key is no number, the other key.
pub open spec fn spec_min(a: i64, b: i64) -> i64 {
    if !is_number(a) {
        b
    } else if !is_number(b) {
        a
    } else if a <= b {
        a
    } else {
        b
    }
}

/// The larger of two numbers; where one key is no number, the other key.
pub open spec fn spec_max(a: i64, b: i64) -> i64 {
    if !is_number(a) {
        b
    } else if !is_number(b) {
        a
    } else if a >= b {
        a
    } else {
        b
    }
}

/// The smaller of two numbers; where one key is no number, the other key.
pub fn min(a: i64, b: i64) -> (r: i64)
    ensures
        r == spec_min(a, b),
{
    if !number(a) {
        b
    } else if !number(b) {
        a
    } else if a <= b {
        a
    } else {
        b
    }
}

/// The larger of two numbers; where one key is no number, the other key.
pub fn max(a: i64, b: i64) -> (r: i64)
    ensures
        r == spec_max(a, b),
{
    if !number(a) {
        b
    } else if !number(b) {
        a
    } else if a >= b {
        a
    } else {
        b
    }
}

/// Three keys: a point, a direction or a colour.
#[derive(Clone, Copy, Debug, PartialEq, Eq, Structural)]
pub struct Vec3 {
    pub x: i64,
    pub y: i64,
    pub z: i64,
}

impl Vec3 {
    /// The triple `(x, y, z)`.
    pub fn new(x: i64, y: i64, z: i64) -> (v: Self)
        ensures
            v == (Vec3 { x, y, z }),
    {
        Vec3 { x, y, z }
    }

    /// The triple of three zeros.
    pub open spec fn spec_zeros() -> Vec3 {
        Vec3 { x: 0, y: 0, z: 0 }
    }

    /// The triple of three zeros.
    pub fn zeros() -> (v: Self)
        ensures
            v == Self::spec_zeros(),
    {
        Vec3 { x: 0, y: 0, z: 0 }
    }

    /// Whether the three keys stand for numbers.
    pub open spec fn spec_numbers(self) -> bool {
        is_number(self.x) && is_number(self.y) && is_number(self.z)
    }

    /// Whether the two triples are of numbers and equal: a triple with a key
    /// that is no number equals none, not even itself.
    pub open spec fn spec_same(self, other: Vec3) -> bool {
        &&& is_number(self.x) && self.x == other.x
        &&& is_number(self.y) && self.y == other.y
        &&& is_number(self.z) && self.z == other.z
    }

    /// Whether the two triples are of numbers and equal.
    pub fn same(self, other: Vec3) -> (b: bool)
        ensures
            b == self.spec_same(other),
    {
        number(self.x) && self.x == other.x && number(self.y) && self.y == other.y && number(
            self.z,
        ) && self.z == other.z
    }

    /// The triple with each component negated.
    pub open spec fn spec_negated(self) -> Vec3 {
        Vec3 { x: spec_negate(self.x), y: spec_negate(self.y), z: spec_negate(self.z) }
    }

    /// Negates each component.
    pub fn negated(self) -> (v: Self)
        ensures
            v == self.spec_negated(),
    {
        Vec3 { x: negate(self.x), y: negate(self.y), z: negate(self.z) }
    }
}

} // verus!
