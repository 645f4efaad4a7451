//! Decimal text for signed 64-bit integers: the wire form of RESP integers
//! and of bulk/array length headers, with conversions both ways.
use vstd::prelude::*;

verus! {

pub const ZERO_DIGIT: u8 = 48;
pub const NINE_DIGIT: u8 = 57;
pub const PLUS_SIGN: u8 = 43;
pub const MINUS_SIGN: u8 = 45;

/// The decimal digits of `n`, most significant first, no leading zeros
/// (a single `0` for zero).
pub open spec fn dec_digits(n: nat) -> Seq<u8>
    decreases n,
{
    if n < 10 {
        seq![(ZERO_DIGIT + n) as u8]
    } else {
        dec_digits(n / 10) + seq![(ZERO_DIGIT + n % 10) as u8]
    }
}

/// The decimal text of the integer `i`: a minus sign for negatives, then
/// the digits of its magnitude.
pub open spec fn dec_int(i: int) -> Seq<u8> {
    if i < 0 {
        seq![MINUS_SIGN] + dec_digits((-i) as nat)
    } else {
        dec_digits(i as nat)
    }
}

pub open spec fn is_digit(b: u8) -> bool {
    ZERO_DIGIT <= b <= NINE_DIGIT
}

pub open spec fn all_digits(s: Seq<u8>) -> bool {
    forall|j: int| 0 <= j < s.len() ==> is_digit(#[trigger] s[j])
}

/// The value of a sequence of decimal digits, most significant first.
pub open spec fn digits_val(s: Seq<u8>) -> nat
    decreases s.len(),
{
    if s.len() == 0 {
        0
    } else {
        digits_val(s.drop_last()) * 10 + (s.last() - ZERO_DIGIT) as nat
    }
}

/// Whether `s` is a well-formed signed decimal literal: an optional sign,
/// then at least one digit.
pub open spec fn int_literal_ok(s: Seq<u8>) -> bool {
    &&& s.len() > 0
    &&& if s[0] == PLUS_SIGN || s[0] == MINUS_SIGN {
        s.len() > 1 && all_digits(s.skip(1))
    } else {
        all_digits(s)
    }
}

/// The value of a well-formed signed decimal literal.
pub open spec fn int_literal_val(s: Seq<u8>) -> int {
    if s[0] == MINUS_SIGN {
        -(digits_val(s.skip(1)) as int)
    } else if s[0] == PLUS_SIGN {
        digits_val(s.skip(1)) as int
    } else {
        digits_val(s) as int
    }
}

/// Whether `s` is the text of an integer representable as an `i64`.
pub open spec fn i64_literal_ok(s: Seq<u8>) -> bool {
    int_literal_ok(s) && i64::MIN <= int_literal_val(s) <= i64::MAX
}

/// Decimal digits are digits and there is at least one of them.
pub proof fn lemma_dec_digits_shape(n: nat)
    ensures
        dec_digits(n).len() >= 1,
        all_digits(dec_digits(n)),
    decreases n,
{
    if n >= 10 {
        lemma_dec_digits_shape(n / 10);
    }
}

/// Reading back the digits of `n` yields `n`.
pub proof fn lemma_digits_val_of_dec(n: nat)
    ensures
        digits_val(dec_digits(n)) == n,
    decreases n,
{
    if n < 10 {
        let s = dec_digits(n);
        assert(s.drop_last() =~= Seq::<u8>::empty());
        assert(digits_val(Seq::<u8>::empty()) == 0);
        assert(s.last() == (ZERO_DIGIT + n) as u8);
        assert(digits_val(s) == digits_val(s.drop_last()) * 10 + (s.last() - ZERO_DIGIT) as nat);
    } else {
        lemma_digits_val_of_dec(n / 10);
        let s = dec_digits(n);
        assert(s.drop_last() =~= dec_digits(n / 10));
        assert(s.last() == (ZERO_DIGIT + n % 10) as u8);
    }
}

/// The decimal text of an `i64` is a well-formed literal and reads back to
/// the same value.
pub proof fn lemma_int_literal_of_dec(i: int)
    requires
        i64::MIN <= i <= i64::MAX,
    ensures
        i64_literal_ok(dec_int(i)),
        int_literal_val(dec_int(i)) == i,
{
    if i < 0 {
        let m = (-i) as nat;
        lemma_dec_digits_shape(m);
        lemma_digits_val_of_dec(m);
        let s = dec_int(i);
        assert(s[0] == MINUS_SIGN);
        assert(s.skip(1) =~= dec_digits(m));
    } else {
        lemma_dec_digits_shape(i as nat);
        lemma_digits_val_of_dec(i as nat);
        let s = dec_int(i);
        assert(is_digit(s[0]));
        assert(s[0] != PLUS_SIGN && s[0] != MINUS_SIGN);
    }
}

/// Appending one digit multiplies the value by ten and adds the digit.
pub proof fn lemma_digits_val_push(s: Seq<u8>, d: u8)
    requires
        is_digit(d),
    ensures
        digits_val(s.push(d)) == digits_val(s) * 10 + (d - ZERO_DIGIT),
{
    assert(s.push(d).drop_last() =~= s);
    assert(s.push(d).last() == d);
}

/// Builds the decimal digit text of `n`, most significant digit first.
pub fn u64_to_dec(n: u64) -> (v: Vec<u8>)
    ensures
        v@ == dec_digits(n as nat),
{
    let mut digits: Vec<u8> = Vec::new();
    let mut m: u64 = n;
    proof {
        assert(dec_digits(n as nat) =~= dec_digits(n as nat) + digits@);
    }
    while m >= 10
        invariant
            dec_digits(n as nat) == dec_digits(m as nat) + digits@,
        decreases m,
    {
        let ghost pre = digits@;
        let d: u8 = ZERO_DIGIT + (m % 10) as u8;
        digits.insert(0, d);
        proof {
            assert(digits@ =~= seq![d] + pre);
            assert(dec_digits(m as nat) =~= dec_digits((m as nat) / 10) + seq![d]);
            assert(dec_digits(m as nat) + pre =~= dec_digits((m as nat) / 10) + digits@);
        }
        m = m / 10;
    }
    let ghost pre = digits@;
    let last: u8 = ZERO_DIGIT + m as u8;
    digits.insert(0, last);
    proof {
        assert(digits@ =~= seq![last] + pre);
        assert(dec_digits(m as nat) =~= seq![last]);
        assert(dec_digits(n as nat) =~= digits@);
    }
    digits
}

/// Builds the decimal text of `i`, sign included.
pub fn i64_to_dec(i: i64) -> (v: Vec<u8>)
    ensures
        v@ == dec_int(i as int),
{
    if i >= 0 {
        u64_to_dec(i as u64)
    } else {
        let mag: u64 = ((-(i + 1)) as u64) + 1;
        assert(mag == -(i as int));
        let digits = u64_to_dec(mag);
        let mut v: Vec<u8> = Vec::new();
        v.push(MINUS_SIGN);
        let mut k: usize = 0;
        while k < digits.len()
            invariant
                k <= digits@.len(),
                v@ == seq![MINUS_SIGN] + digits@.take(k as int),
            decreases digits@.len() - k,
        {
            v.push(digits[k]);
            proof {
                assert(v@ =~= seq![MINUS_SIGN] + digits@.take(k + 1));
            }
            k += 1;
        }
        proof {
            assert(digits@.take(digits@.len() as int) =~= digits@);
            assert(v@ =~= dec_int(i as int));
        }
        v
    }
}

} // verus!
