use vstd::prelude::*;

verus! {

/// The bit that holds the sign of a single-precision number.
pub const SIGN_BIT: u32 = 0x8000_0000;

/// The bits of positive infinity: every magnitude above them is no number.
pub const INFINITY_BITS: u32 = 0x7f80_0000;

/// The bits of a single-precision number without its sign.
pub open spec fn magnitude_of(bits: u32) -> int {
    if bits >= SIGN_BIT {
        bits - SIGN_BIT
    } else {
        bits as int
    }
}

/// Whether the bits are those of a number, infinite or not.
pub open spec fn is_number(bits: u32) -> bool {
    magnitude_of(bits) <= INFINITY_BITS
}

/// The key of a score: an integer that is greater for the greater of two
/// numbers and the same for both zeros. What is no number, and negative
/// infinity, have the least key there is.
pub open spec fn key_of(bits: u32) -> int {
    if !is_number(bits) {
        i64::MIN as int
    } else if bits < SIGN_BIT {
        magnitude_of(bits)
    } else if magnitude_of(bits) == INFINITY_BITS {
        i64::MIN as int
    } else {
        -magnitude_of(bits)
    }
}

/// The key of the score with these bits.
pub fn score_key(bits: u32) -> (key: i64)
    ensures
        key == key_of(bits),
{
    if bits < SIGN_BIT {
        if bits > INFINITY_BITS {
            i64::MIN
        } else {
            bits as i64
        }
    } else {
        let magnitude: u32 = bits - SIGN_BIT;
        if magnitude >= INFINITY_BITS {
            i64::MIN
        } else {
            -(magnitude as i64)
        }
    }
}

/// The keys of the scores with these bits.
pub fn score_keys(bits: &Vec<u32>) -> (keys: Vec<i64>)
    ensures
        keys@.len() == bits@.len(),
        forall|i: int| 0 <= i < bits@.len() ==> #[trigger] keys@[i] == key_of(bits@[i]),
{
    let mut keys: Vec<i64> = Vec::new();
    let mut i: usize = 0;
    while i < bits.len()
        invariant
            i <= bits@.len(),
            keys@.len() == i,
            forall|j: int| 0 <= j < i ==> #[trigger] keys@[j] == key_of(bits@[j]),
        decreases bits@.len() - i,
    {
        keys.push(score_key(bits[i]));
        i += 1;
    }
    keys
}

/// Whether the score with these bits is zero or more: a number whose key is
/// not negative.
pub fn is_nonnegative(bits: u32) -> (yes: bool)
    ensures
        yes == (is_number(bits) && key_of(bits) >= 0),
{
    let key = score_key(bits);
    key >= 0
}

/// Whether the bits are those of a finite number.
pub open spec fn is_finite(bits: u32) -> bool {
    magnitude_of(bits) < INFINITY_BITS
}

/// Whether every one of `bits` is a finite number: a training step whose
/// weights are not all finite has failed.
pub fn all_finite(bits: &Vec<u32>) -> (yes: bool)
    ensures
        yes == (forall|i: int| 0 <= i < bits@.len() ==> is_finite(#[trigger] bits@[i])),
{
    let mut i: usize = 0;
    while i < bits.len()
        invariant
            i <= bits@.len(),
            forall|j: int| 0 <= j < i ==> is_finite(#[trigger] bits@[j]),
        decreases bits@.len() - i,
    {
        let b: u32 = bits[i];
        let magnitude: u32 = if b >= SIGN_BIT {
            b - SIGN_BIT
        } else {
            b
        };
        if magnitude >= INFINITY_BITS {
            return false;
        }
        i += 1;
    }
    true
}

/// Among numbers of one sign the key follows the magnitude: upwards for the
/// positive ones, downwards for the negative ones, and every negative number
/// has a key below that of every positive one.
pub proof fn lemma_key_order(a: u32, b: u32)
    requires
        is_number(a),
        is_number(b),
        key_of(a) > i64::MIN,
        key_of(b) > i64::MIN,
    ensures
        a < SIGN_BIT && b < SIGN_BIT ==> (key_of(a) < key_of(b) <==> a < b),
        a >= SIGN_BIT && b >= SIGN_BIT ==> (key_of(a) < key_of(b) <==> a > b),
        a >= SIGN_BIT && b < SIGN_BIT ==> key_of(a) <= key_of(b),
        key_of(a) == key_of(b) <==> (a == b || (magnitude_of(a) == 0 && magnitude_of(b) == 0)),
{
}

} // verus!
