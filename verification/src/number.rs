//! Numbers in text, and the rounding that binary floating-point numbers bring about.

use vstd::prelude::*;

use crate::text::{after, chars_of, is_digit, slice, CharClass};

verus! {

/// The character that writes the digit `d`.
pub open spec fn digit_char(d: nat) -> char
    recommends
        d < 10,
{
    (48 + d) as char
}

/// `n` in decimal digits.
pub open spec fn decimal(n: nat) -> Seq<char>
    decreases n,
{
    if n < 10 {
        seq![digit_char(n)]
    } else {
        decimal(n / 10).push(digit_char(n % 10))
    }
}

/// The text of one digit.
fn digit_text(d: u8) -> (r: &'static str)
    requires
        d < 10,
    ensures
        r@ == seq![digit_char(d as nat)],
{
    proof {
        reveal_strlit("0123456789");
    }
    let r = slice("0123456789", d as usize, d as usize + 1);
    assert(r@ =~= seq![digit_char(d as nat)]);
    r
}

/// `n` in decimal digits.
pub fn decimal_text(n: u128) -> (r: String)
    ensures
        r@ == decimal(n as nat),
    decreases n,
{
    if n < 10 {
        digit_text(n as u8).to_owned()
    } else {
        let mut out = decimal_text(n / 10);
        out.append(digit_text((n % 10) as u8));
        assert(out@ =~= decimal((n / 10) as nat).push(digit_char((n % 10) as nat)));
        out
    }
}

/// All characters of `s` are ASCII digits.
pub open spec fn all_digits(s: Seq<char>) -> bool {
    forall|i: int| 0 <= i < s.len() ==> is_digit(#[trigger] s[i])
}

/// The number that the digits of `s` write.
pub open spec fn digits_value(s: Seq<char>) -> nat
    decreases s.len(),
{
    if s.len() == 0 {
        0
    } else {
        digits_value(s.drop_last()) * 10 + (s.last() as u32 - 48) as nat
    }
}

/// `s` without the plus sign that a number may start with.
pub open spec fn unsigned_part(s: Seq<char>) -> Seq<char> {
    if s.len() > 0 && s[0] == '+' {
        s.skip(1)
    } else {
        s
    }
}

/// The number that `s` writes: decimal digits, at least one, after an optional plus sign.
/// There is none if `s` has another form or the number exceeds `max`.
pub open spec fn parsed(s: Seq<char>, max: nat) -> Option<nat> {
    let body = unsigned_part(s);
    if body.len() > 0 && all_digits(body) && digits_value(body) <= max {
        Some(digits_value(body))
    } else {
        None
    }
}

proof fn lemma_value_grows(s: Seq<char>, i: int)
    requires
        0 <= i <= s.len(),
        all_digits(s),
    ensures
        digits_value(s.take(i)) <= digits_value(s),
    decreases s.len() - i,
{
    if i < s.len() {
        lemma_value_grows(s, i + 1);
        assert(s.take(i + 1).drop_last() =~= s.take(i));
        assert(is_digit(s[i]));
    } else {
        assert(s.take(i) =~= s);
    }
}

proof fn lemma_digit(d: nat)
    requires
        d < 10,
    ensures
        digit_char(d) as u32 == 48 + d,
        is_digit(digit_char(d)),
{
}

pub proof fn lemma_decimal(n: nat)
    ensures
        decimal(n).len() > 0,
        all_digits(decimal(n)),
        digits_value(decimal(n)) == n,
    decreases n,
{
    lemma_digit(n % 10);
    if n < 10 {
        assert(decimal(n).drop_last() =~= Seq::empty());
        assert(digits_value(Seq::empty()) == 0);
    } else {
        lemma_decimal(n / 10);
        assert(decimal(n).drop_last() =~= decimal(n / 10));
    }
}

/// A number that is written is read back.
pub proof fn law_written_number_is_read_back(n: nat, max: nat)
    requires
        n <= max,
    ensures
        parsed(decimal(n), max) == Some(n),
{
    lemma_decimal(n);
    assert(is_digit(decimal(n)[0]));
}

/// Reads an unsigned number that is at most `max`.
pub fn parse_up_to(s: &str, max: u64) -> (r: Option<u64>)
    ensures
        r is Some <==> parsed(s@, max as nat) is Some,
        r matches Some(n) ==> parsed(s@, max as nat) == Some(n as nat),
{
    let whole = chars_of(s);
    let body: &str = if whole.len() > 0 && whole[0] == '+' {
        after(s, 1)
    } else {
        s
    };
    let v = chars_of(body);
    assert(v@ == unsigned_part(s@));
    if v.len() == 0 {
        return None;
    }
    let mut value: u64 = 0;
    let mut i: usize = 0;
    assert(v@.take(0) =~= Seq::empty());
    while i < v.len()
        invariant
            v@ == unsigned_part(s@),
            v@.len() > 0,
            i <= v@.len(),
            all_digits(v@.take(i as int)),
            value == digits_value(v@.take(i as int)),
            value <= max,
        decreases v@.len() - i,
    {
        let c = v[i];
        if CharClass::NonDigit.contains(c) {
            assert(!is_digit(v@[i as int]));
            return None;
        }
        let d: u64 = (c as u32 - 48) as u64;
        let next: u128 = value as u128 * 10 + d as u128;
        assert(v@.take(i + 1).drop_last() =~= v@.take(i as int));
        assert(next == digits_value(v@.take(i + 1)));
        assert(all_digits(v@.take(i + 1))) by {
            assert forall|j: int| 0 <= j < i + 1 implies is_digit(#[trigger] v@.take(i + 1)[j]) by {
                if j < i {
                    assert(is_digit(v@.take(i as int)[j]));
                }
            }
        }
        if next > max as u128 {
            proof {
                if all_digits(v@) {
                    lemma_value_grows(v@, i + 1);
                }
            }
            return None;
        }
        value = next as u64;
        i = i + 1;
    }
    assert(v@.take(i as int) =~= v@);
    Some(value)
}

/// Reads an unsigned 64-bit number.
pub fn parse_u64(s: &str) -> (r: Option<u64>)
    ensures
        r is Some <==> parsed(s@, u64::MAX as nat) is Some,
        r matches Some(n) ==> parsed(s@, u64::MAX as nat) == Some(n as nat),
{
    parse_up_to(s, u64::MAX)
}

/// Reads an unsigned 32-bit number.
pub fn parse_u32(s: &str) -> (r: Option<u32>)
    ensures
        r is Some <==> parsed(s@, u32::MAX as nat) is Some,
        r matches Some(n) ==> parsed(s@, u32::MAX as nat) == Some(n as nat),
{
    match parse_up_to(s, u32::MAX as u64) {
        Some(n) => Some(n as u32),
        None => None,
    }
}

/// `a / b` rounded to the nearest whole number, and to the even one of two that are
/// equally near.
pub open spec fn round_half_even(a: nat, b: nat) -> nat
    recommends
        b > 0,
{
    let q = a / b;
    let r = a % b;
    if 2 * r < b || (2 * r == b && q % 2 == 0) {
        q
    } else {
        q + 1
    }
}

/// Rounding to the nearest moves a value by at most half a unit.
pub proof fn lemma_round_half_even(a: nat, b: nat)
    requires
        b > 0,
    ensures
        2 * a - b <= 2 * (b * round_half_even(a, b)) <= 2 * a + b,
{
    let q = a / b;
    let r = a % b;
    assert(a == b * q + r) by (nonlinear_arith)
        requires
            b > 0,
            q == a / b,
            r == a % b,
    ;
    assert(b * (q + 1) == b * q + b) by (nonlinear_arith);
}

/// Rounding goes to the nearest whole number, and to the even one where two are as near.
pub proof fn law_rounding_goes_to_the_nearest(a: nat, b: nat)
    requires
        b > 0,
    ensures
        ({
            let n = round_half_even(a, b) as int;
            let off = 2 * (b as int * n) - 2 * a;
            &&& -(b as int) <= off <= b
            &&& off == b || off == -(b as int) ==> n % 2 == 0
        }),
{
    lemma_round_half_even(a, b);
    let q = a / b;
    let r = a % b;
    assert(a == b * q + r) by (nonlinear_arith)
        requires
            b > 0,
            q == a / b,
            r == a % b,
    ;
    assert(b * (q + 1) == b * q + b) by (nonlinear_arith);
}

/// Divides with rounding to the nearest whole number, ties to even.
pub fn divide_half_even(a: u128, b: u128) -> (r: u128)
    requires
        0 < b <= u64::MAX,
    ensures
        r == round_half_even(a as nat, b as nat),
{
    let q: u128 = a / b;
    let rem: u128 = a % b;
    if 2 * rem < b || (2 * rem == b && q % 2 == 0) {
        q
    } else {
        assert(q < u128::MAX) by {
            if b == 1 {
                assert(rem == 0);
            } else {
                assert(q <= a / 2) by (nonlinear_arith)
                    requires
                        q == a / b,
                        b >= 2,
                ;
            }
        }
        q + 1
    }
}

/// The distance of two neighbouring double-precision numbers at the whole number `n`.
pub open spec fn double_spacing(n: nat) -> nat
    decreases n,
{
    if n < 0x20_0000_0000_0000 {
        1
    } else {
        2 * double_spacing(n / 2)
    }
}

/// The double-precision number that is nearest to the whole number `n`.
pub open spec fn nearest_double(n: nat) -> nat {
    round_half_even(n, double_spacing(n)) * double_spacing(n)
}

proof fn lemma_spacing_bound(n: nat)
    ensures
        1 <= double_spacing(n),
        n >= 0x20_0000_0000_0000 ==> double_spacing(n) * 0x10_0000_0000_0000 <= n,
        n < 0x20_0000_0000_0000 ==> double_spacing(n) == 1,
    decreases n,
{
    if n >= 0x20_0000_0000_0000 {
        lemma_spacing_bound(n / 2);
    }
}

/// The double-precision number that stands for a number below 2^64 is off by less than 2^11.
pub proof fn law_doubles_are_near(n: nat)
    requires
        n <= u64::MAX,
    ensures
        -4096 < 2 * (nearest_double(n) - n) < 4096,
{
    lemma_spacing_bound(n);
    let b = double_spacing(n);
    assert(b < 4096) by (nonlinear_arith)
        requires
            b * 0x10_0000_0000_0000 <= 0xffff_ffff_ffff_ffff || b == 1,
    ;
    lemma_round_half_even(n, b);
    assert(b * round_half_even(n, b) == round_half_even(n, b) * b) by (nonlinear_arith);
}

/// The distance of two neighbouring double-precision numbers at `n`.
fn spacing_of(n: u64) -> (r: u64)
    ensures
        r == double_spacing(n as nat),
        r >= 1,
    decreases n,
{
    proof {
        lemma_spacing_bound(n as nat);
        lemma_spacing_bound((n / 2) as nat);
    }
    if n < 0x20_0000_0000_0000 {
        1
    } else {
        2 * spacing_of(n / 2)
    }
}

/// The double-precision number that is nearest to `n`.
pub fn nearest_double_of(n: u64) -> (r: u128)
    ensures
        r == nearest_double(n as nat),
        r <= 2 * n,
{
    let spacing: u128 = spacing_of(n) as u128;
    let units: u128 = divide_half_even(n as u128, spacing);
    proof {
        lemma_spacing_bound(n as nat);
        let b = spacing as int;
        let q = n as int / b;
        let r = n as int % b;
        assert(q * b + r == n && 0 <= r < b) by {
            vstd::arithmetic::div_mod::lemma_fundamental_div_mod(n as int, b);
            vstd::arithmetic::mul::lemma_mul_is_commutative(q, b);
        }
        assert((q + 1) * b == q * b + b) by (nonlinear_arith);
        if n < 0x20_0000_0000_0000 {
            assert(b == 1);
            assert(q == n && r == 0);
        } else {
            assert(b <= n);
        }
    }
    units * spacing
}

} // verus!
