use vstd::prelude::*;

verus! {

/// The sign bit of a double-precision number.
pub const SIGN: u64 = 0x8000_0000_0000_0000;

/// The bits of positive infinity: every exponent bit set, no fraction bit.
pub const INFINITY: u64 = 0x7FF0_0000_0000_0000;

/// The sign bit of the number is set.
pub open spec fn is_negative(bits: u64) -> bool {
    bits >= SIGN
}

/// The bits of the number without its sign bit: exponent and fraction,
/// which order the numbers of one sign as integers.
pub open spec fn magnitude(bits: u64) -> int {
    if bits >= SIGN {
        bits - SIGN
    } else {
        bits as int
    }
}

/// The bits are those of a NaN: every exponent bit set and some fraction
/// bit.
pub open spec fn is_nan(bits: u64) -> bool {
    magnitude(bits) > INFINITY
}

/// The key by which a double-precision number, given by its bits, is
/// ordered among the others.
///
/// Of two numbers the greater one has the greater key, the two zeros have
/// the same key, and every NaN has the least key of all.
pub open spec fn key_of(bits: u64) -> int {
    if is_nan(bits) {
        i64::MIN as int
    } else if is_negative(bits) {
        -magnitude(bits)
    } else {
        magnitude(bits)
    }
}

/// The number is greater than zero.
pub open spec fn is_positive(bits: u64) -> bool {
    key_of(bits) > 0
}

/// The number is zero or greater than zero.
pub open spec fn is_non_negative(bits: u64) -> bool {
    key_of(bits) >= 0
}

/// The keys of a list of numbers, in order.
pub open spec fn keys_of(numbers: Seq<u64>) -> Seq<i64> {
    Seq::new(numbers.len(), |i: int| key_of(numbers[i]) as i64)
}

/// What is no number is ranked below every number: a NaN has the least key
/// there is, and nothing else has it.
pub proof fn lemma_nan_is_least(bits: u64, other: u64)
    requires
        is_nan(bits),
    ensures
        key_of(bits) <= key_of(other),
        key_of(other) == key_of(bits) <==> is_nan(other),
{
}

/// The two zeros are ranked alike, between the numbers below zero and the
/// numbers above.
pub proof fn lemma_zeros_are_equal(bits: u64)
    ensures
        key_of(0) == 0,
        key_of(SIGN) == 0,
        key_of(bits) == 0 <==> bits == 0 || bits == SIGN,
        !is_nan(bits) ==> (key_of(bits) < 0 <==> is_negative(bits) && bits != SIGN),
{
}

/// A number and the number with the other sign have opposite keys.
pub proof fn lemma_sign_flips_key(bits: u64)
    requires
        !is_nan(bits),
        !is_negative(bits),
    ensures
        key_of((bits + SIGN) as u64) == -key_of(bits),
{
}

/// Of two numbers that are not below zero, the one with the greater
/// exponent and fraction has the greater key; of two numbers below zero,
/// the one with the smaller.
pub proof fn lemma_key_follows_magnitude(a: u64, b: u64)
    requires
        !is_nan(a),
        !is_nan(b),
        is_negative(a) == is_negative(b),
    ensures
        !is_negative(a) ==> (key_of(a) < key_of(b) <==> magnitude(a) < magnitude(b)),
        is_negative(a) ==> (key_of(a) < key_of(b) <==> magnitude(a) > magnitude(b)),
{
}

/// Computes the key by which the number with the given bits is ordered.
pub fn score_key(bits: u64) -> (key: i64)
    ensures
        key == key_of(bits),
{
    let negative: bool = bits >= SIGN;
    let rest: u64 = if negative {
        bits - SIGN
    } else {
        bits
    };
    if rest > INFINITY {
        i64::MIN
    } else if negative {
        -(rest as i64)
    } else {
        rest as i64
    }
}

/// Computes the keys of a list of numbers.
pub fn score_keys(numbers: &Vec<u64>) -> (keys: Vec<i64>)
    ensures
        keys@ == keys_of(numbers@),
{
    let mut keys: Vec<i64> = Vec::new();
    let mut i: usize = 0;
    while i < numbers.len()
        invariant
            i <= numbers.len(),
            keys.len() == i,
            forall|x: int| 0 <= x < i ==> #[trigger] keys[x] == key_of(numbers[x]),
        decreases numbers.len() - i,
    {
        keys.push(score_key(numbers[i]));
        i += 1;
    }
    keys
}

} // verus!
