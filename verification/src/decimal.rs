//! Exact decimal numbers.
//!
//! A [`Decimal`] stands for `unscaled * 10^(-scale)`. The unscaled integer is
//! kept as two's-complement little-endian bytes, so that a number of any size
//! is a plain value. Parsing, printing and arithmetic are done by the
//! `bigdecimal` crate; what it returns is named by the functions without a
//! body below, and the contracts of this module speak of those names.
//!
//! Each function that calls the crate builds its operands with
//! `BigInt::from_signed_bytes_le` and `BigDecimal::new`, and takes a result
//! apart with `BigDecimal::into_bigint_and_exponent` and
//! `BigInt::to_signed_bytes_le`. These four keep the unscaled integer and the
//! scale as they are. The contracts of those functions are not proved: they
//! say what the source of the crate shows.
//!
//! A number is held with the scale that it was read with. Arithmetic is done
//! on operands whose scales are within [`SCALE_LIMIT`]: the crate computes on
//! scales in `i64`, and beyond the limit that could overflow. To bring two
//! operands to one scale takes memory in proportion to the difference of
//! their scales; where memory runs out the program stops, as with any
//! allocation. Whether two numbers have the same value is decided for all
//! numbers, in verified code, from the difference that the crate computes.

use vstd::prelude::*;
use bigdecimal::BigDecimal;
use bigdecimal::num_bigint::BigInt;
use std::str::FromStr;
use crate::error::{EvalError, Failure};

verus! {

/// Largest magnitude of a scale on which arithmetic is done: a quarter of
/// what an `i64` holds. The crate adds and subtracts the scales of two
/// operands in `i64`, and a division adds as many as the quotient gets
/// digits; within the limit none of this overflows.
pub const SCALE_LIMIT: i64 = 2305843009213693951;

/// The integer that two's-complement little-endian bytes stand for.
pub open spec fn signed_le(bytes: Seq<u8>) -> int
    decreases bytes.len(),
{
    if bytes.len() == 0 {
        0
    } else if bytes.len() == 1 {
        if bytes[0] < 128 {
            bytes[0] as int
        } else {
            bytes[0] as int - 256
        }
    } else {
        bytes[0] as int + 256 * signed_le(bytes.drop_first())
    }
}

/// Ten to the power `n`.
pub open spec fn pow10(n: nat) -> int
    decreases n,
{
    if n == 0 {
        1
    } else {
        10 * pow10((n - 1) as nat)
    }
}

/// Whether a scale is one on which arithmetic is done.
pub open spec fn within_limit(scale: int) -> bool {
    -SCALE_LIMIT <= scale <= SCALE_LIMIT
}

/// Whether two numbers, each given as unscaled integer and scale, have the
/// same value.
pub open spec fn same_number(a: (int, int), b: (int, int)) -> bool {
    if a.1 >= b.1 {
        a.0 == b.0 * pow10((a.1 - b.1) as nat)
    } else {
        b.0 == a.0 * pow10((b.1 - a.1) as nat)
    }
}

/// The unscaled integer that stands for the value of `a` at a scale that is
/// not less than its own.
pub open spec fn scaled_to(a: (int, int), scale: int) -> int {
    a.0 * pow10((scale - a.1) as nat)
}

/// The larger of two scales.
pub open spec fn larger_scale(a: (int, int), b: (int, int)) -> int {
    if a.1 >= b.1 {
        a.1
    } else {
        b.1
    }
}

/// The sum of two numbers, at the larger of their scales.
pub open spec fn exact_sum(a: (int, int), b: (int, int)) -> (int, int) {
    (scaled_to(a, larger_scale(a, b)) + scaled_to(b, larger_scale(a, b)), larger_scale(a, b))
}

/// The difference of two numbers, at the larger of their scales.
pub open spec fn exact_difference(a: (int, int), b: (int, int)) -> (int, int) {
    (scaled_to(a, larger_scale(a, b)) - scaled_to(b, larger_scale(a, b)), larger_scale(a, b))
}

/// The remainder of a division of integers that rounds towards zero: it has
/// the sign of the dividend.
pub open spec fn truncated_remainder(a: int, b: int) -> int {
    let divisor = if b >= 0 {
        b
    } else {
        -b
    };
    if a >= 0 {
        a % divisor
    } else {
        -((-a) % divisor)
    }
}

/// The remainder of two numbers, at the larger of their scales.
pub open spec fn exact_remainder(a: (int, int), b: (int, int)) -> (int, int) {
    (
        truncated_remainder(scaled_to(a, larger_scale(a, b)), scaled_to(b, larger_scale(a, b))),
        larger_scale(a, b),
    )
}

/// The product of two numbers, at the sum of their scales.
pub open spec fn exact_product(a: (int, int), b: (int, int)) -> (int, int) {
    (a.0 * b.0, a.1 + b.1)
}

/// What an addition makes of two numbers: the one where the other is zero,
/// else their sum at the larger of their scales.
pub open spec fn sum_of(a: (int, int), b: (int, int)) -> (int, int) {
    if b.0 == 0 {
        a
    } else if a.0 == 0 {
        b
    } else {
        exact_sum(a, b)
    }
}

/// What arithmetic makes of two operands: `made` where the scales of both
/// are within the limit, else nothing.
pub open spec fn guarded(a: (int, int), b: (int, int), made: (int, int)) -> Option<(int, int)> {
    if within_limit(a.1) && within_limit(b.1) {
        Some(made)
    } else {
        None
    }
}

/// What `BigDecimal::from_str` makes of a text: the unscaled integer and the
/// scale of the number it reads, or `None` where it reports an error.
pub uninterp spec fn decimal_parse(text: Seq<char>) -> Option<(int, int)>;

/// The text that `BigDecimal`'s `Display` writes for a number. Where it
/// changes to the notation with an exponent is fixed when the crate is built.
pub uninterp spec fn decimal_text(value: (int, int)) -> Seq<char>;

/// Whether a character is one that the text of a number is written with: a
/// digit, a sign, the point, or the letter before the exponent.
pub open spec fn number_char(c: char) -> bool {
    let code = c as u32;
    ||| 0x30 <= code <= 0x39
    ||| code == 0x2B
    ||| code == 0x2D
    ||| code == 0x2E
    ||| code == 0x45
    ||| code == 0x65
}

/// Whether a text is not empty and written with the characters of numbers
/// only.
pub open spec fn number_text(text: Seq<char>) -> bool {
    text.len() > 0 && forall|i: int| 0 <= i < text.len() ==> number_char(#[trigger] text[i])
}

/// Whether a text is written as numbers are, and is read as a number of the
/// given value.
pub open spec fn written_for(text: Seq<char>, value: (int, int)) -> bool {
    &&& number_text(text)
    &&& decimal_parse(text) is Some
    &&& same_number(decimal_parse(text)->0, value)
}

/// What `BigDecimal`'s `*` on two values returns.
pub uninterp spec fn decimal_product(a: (int, int), b: (int, int)) -> (int, int);

/// What `BigDecimal`'s `/` on two references returns for a divisor other
/// than zero: the quotient, rounded where it has more digits than the
/// precision that is fixed when the crate is built.
pub uninterp spec fn decimal_quotient(a: (int, int), b: (int, int)) -> (int, int);

/// An exact decimal number.
#[derive(Debug)]
pub struct Decimal {
    digits: Vec<u8>,
    scale: i64,
}

impl View for Decimal {
    type V = (int, int);

    closed spec fn view(&self) -> (int, int) {
        (signed_le(self.digits@), self.scale as int)
    }
}

/// The number that raw parts stand for.
pub open spec fn parts_value(parts: (Vec<u8>, i64)) -> (int, int) {
    (signed_le(parts.0@), parts.1 as int)
}

/// Calls `BigDecimal::from_str` and splits what it returns with
/// `into_bigint_and_exponent` and `BigInt::to_signed_bytes_le`. The parts
/// stand for the number that `decimal_parse` names; `None` comes exactly
/// where the text is not accepted.
#[verifier::external_body]
fn parse_parts(text: &str) -> (r: Option<(Vec<u8>, i64)>)
    ensures
        match r {
            Some(parts) => decimal_parse(text@) == Some(parts_value(parts)),
            None => decimal_parse(text@) is None,
        },
{
    match BigDecimal::from_str(text) {
        Ok(number) => {
            let (unscaled, scale) = number.into_bigint_and_exponent();
            Some((unscaled.to_signed_bytes_le(), scale))
        },
        Err(_) => None,
    }
}

/// Calls `to_string` on the `BigDecimal` of the number, which writes it with
/// the crate's `Display`. The result is the text that `decimal_text` names.
/// It is written with digits, signs, the point and the letter before the
/// exponent only, and `BigDecimal::from_str` reads it as a number of the same
/// value: nothing is rounded where no precision is asked for, and the crate's
/// own tests hold what it writes against its reader, up to the largest and
/// the smallest scale.
#[verifier::external_body]
fn format_parts(a: &Decimal) -> (r: String)
    ensures
        r@ == decimal_text(a@),
        written_for(r@, a@),
{
    BigDecimal::new(BigInt::from_signed_bytes_le(&a.digits), a.scale).to_string()
}

/// Adds with `BigDecimal`'s `+=`, which leaves the left operand as it is
/// where the right one is zero, takes the right one where the left one is
/// zero, and else brings the operand of the smaller scale to the larger
/// scale and adds the unscaled integers.
#[verifier::external_body]
fn sum_parts(a: &Decimal, b: &Decimal) -> (r: (Vec<u8>, i64))
    requires
        within_limit(a@.1),
        within_limit(b@.1),
    ensures
        parts_value(r) == sum_of(a@, b@),
{
    let mut x = BigDecimal::new(BigInt::from_signed_bytes_le(&a.digits), a.scale);
    let y = BigDecimal::new(BigInt::from_signed_bytes_le(&b.digits), b.scale);
    x += y;
    let (unscaled, scale) = x.into_bigint_and_exponent();
    (unscaled.to_signed_bytes_le(), scale)
}

/// Subtracts with `BigDecimal`'s `-` on references, which brings the operand
/// of the smaller scale to the larger scale and subtracts the unscaled
/// integers; a zero among the operands is brought to that scale as well.
#[verifier::external_body]
fn difference_parts(a: &Decimal, b: &Decimal) -> (r: (Vec<u8>, i64))
    requires
        within_limit(a@.1),
        within_limit(b@.1),
    ensures
        parts_value(r) == exact_difference(a@, b@),
{
    let x = BigDecimal::new(BigInt::from_signed_bytes_le(&a.digits), a.scale);
    let y = BigDecimal::new(BigInt::from_signed_bytes_le(&b.digits), b.scale);
    let (unscaled, scale) = (&x - &y).into_bigint_and_exponent();
    (unscaled.to_signed_bytes_le(), scale)
}

/// Multiplies with `BigDecimal`'s `*` on values. The parts returned stand for
/// the number that `decimal_product` names, whose value is the product of
/// the two values: the crate multiplies the unscaled integers and adds the
/// scales, or hands back one factor as it is where the other is one.
#[verifier::external_body]
fn product_parts(a: &Decimal, b: &Decimal) -> (r: (Vec<u8>, i64))
    requires
        within_limit(a@.1),
        within_limit(b@.1),
    ensures
        parts_value(r) == decimal_product(a@, b@),
        same_number(parts_value(r), exact_product(a@, b@)),
{
    let x = BigDecimal::new(BigInt::from_signed_bytes_le(&a.digits), a.scale);
    let y = BigDecimal::new(BigInt::from_signed_bytes_le(&b.digits), b.scale);
    let (unscaled, scale) = (x * y).into_bigint_and_exponent();
    (unscaled.to_signed_bytes_le(), scale)
}

/// Divides with `BigDecimal`'s `/` on references, which panics on a divisor
/// of zero: that divisor is left out. The parts returned stand for the number
/// that `decimal_quotient` names.
#[verifier::external_body]
fn quotient_parts(a: &Decimal, b: &Decimal) -> (r: (Vec<u8>, i64))
    requires
        within_limit(a@.1),
        within_limit(b@.1),
        b@.0 != 0,
    ensures
        parts_value(r) == decimal_quotient(a@, b@),
{
    let x = BigDecimal::new(BigInt::from_signed_bytes_le(&a.digits), a.scale);
    let y = BigDecimal::new(BigInt::from_signed_bytes_le(&b.digits), b.scale);
    let (unscaled, scale) = (&x / &y).into_bigint_and_exponent();
    (unscaled.to_signed_bytes_le(), scale)
}

/// Takes the remainder with `BigDecimal`'s `%` on references, which panics on
/// a divisor of zero: that divisor is left out. The crate brings the operand
/// of the smaller scale to the larger scale and takes the remainder of the
/// unscaled integers, which has the sign of the dividend.
#[verifier::external_body]
fn remainder_parts(a: &Decimal, b: &Decimal) -> (r: (Vec<u8>, i64))
    requires
        within_limit(a@.1),
        within_limit(b@.1),
        b@.0 != 0,
    ensures
        parts_value(r) == exact_remainder(a@, b@),
{
    let x = BigDecimal::new(BigInt::from_signed_bytes_le(&a.digits), a.scale);
    let y = BigDecimal::new(BigInt::from_signed_bytes_le(&b.digits), b.scale);
    let (unscaled, scale) = (&x % &y).into_bigint_and_exponent();
    (unscaled.to_signed_bytes_le(), scale)
}

/// A power of ten is positive.
pub proof fn lemma_pow10_positive(n: nat)
    ensures
        pow10(n) > 0,
    decreases n,
{
    if n > 0 {
        lemma_pow10_positive((n - 1) as nat);
    }
}

/// The power of ten of a sum is the product of the powers.
pub proof fn lemma_pow10_adds(m: nat, n: nat)
    ensures
        pow10(m + n) == pow10(m) * pow10(n),
    decreases m,
{
    if m == 0 {
        assert(pow10(0) == 1);
        assert(1 * pow10(n) == pow10(n)) by (nonlinear_arith);
    } else {
        lemma_pow10_adds((m - 1) as nat, n);
        let p = pow10((m - 1) as nat);
        let q = pow10(n);
        assert(pow10(m) == 10 * p);
        assert(pow10(m + n) == 10 * pow10((m - 1 + n) as nat));
        assert(10 * (p * q) == (10 * p) * q) by (nonlinear_arith);
    }
}

/// To bring a number to a scale and then to a larger one is to bring it to
/// the larger one.
pub proof fn lemma_scaled_further(a: (int, int), scale: int, further: int)
    requires
        a.1 <= scale <= further,
    ensures
        scaled_to(a, scale) * pow10((further - scale) as nat) == scaled_to(a, further),
{
    lemma_pow10_adds((scale - a.1) as nat, (further - scale) as nat);
    let p = pow10((scale - a.1) as nat);
    let q = pow10((further - scale) as nat);
    assert((a.0 * p) * q == a.0 * (p * q)) by (nonlinear_arith);
}

/// Two numbers have the same value exactly where, brought to a scale that
/// neither exceeds, they have the same unscaled integer.
pub proof fn lemma_same_number_at(a: (int, int), b: (int, int), scale: int)
    requires
        a.1 <= scale,
        b.1 <= scale,
    ensures
        same_number(a, b) <==> scaled_to(a, scale) == scaled_to(b, scale),
{
    if a.1 >= b.1 {
        lemma_scaled_further(b, a.1, scale);
        let q = pow10((scale - a.1) as nat);
        lemma_pow10_positive((scale - a.1) as nat);
        let x = a.0;
        let y = b.0 * pow10((a.1 - b.1) as nat);
        assert(scaled_to(a, scale) == x * q);
        assert(scaled_to(b, scale) == y * q);
        assert((x == y) <==> (x * q == y * q)) by (nonlinear_arith)
            requires
                q > 0,
        ;
    } else {
        lemma_scaled_further(a, b.1, scale);
        let q = pow10((scale - b.1) as nat);
        lemma_pow10_positive((scale - b.1) as nat);
        let x = a.0 * pow10((b.1 - a.1) as nat);
        let y = b.0;
        assert(scaled_to(a, scale) == x * q);
        assert(scaled_to(b, scale) == y * q);
        assert((x == y) <==> (x * q == y * q)) by (nonlinear_arith)
            requires
                q > 0,
        ;
    }
}

/// Every number has its own value.
pub proof fn lemma_same_number_itself(a: (int, int))
    ensures
        same_number(a, a),
{
    assert(pow10(0) == 1);
    assert(a.0 * 1 == a.0);
}

/// The largest of three scales.
pub open spec fn largest_scale(a: (int, int), b: (int, int), c: (int, int)) -> int {
    if larger_scale(a, b) >= c.1 {
        larger_scale(a, b)
    } else {
        c.1
    }
}

/// Numbers that have the value of a third have the same value.
pub proof fn lemma_same_number_chain(a: (int, int), b: (int, int), c: (int, int))
    requires
        same_number(a, b),
        same_number(b, c),
    ensures
        same_number(a, c),
{
    let scale = largest_scale(a, b, c);
    lemma_same_number_at(a, b, scale);
    lemma_same_number_at(b, c, scale);
    lemma_same_number_at(a, c, scale);
}

/// The sum of a number and another, brought to a scale that neither exceeds,
/// is the sum of the two at that scale.
proof fn lemma_sum_at(a: (int, int), b: (int, int), scale: int)
    requires
        a.1 <= scale,
        b.1 <= scale,
    ensures
        scaled_to(exact_sum(a, b), scale) == scaled_to(a, scale) + scaled_to(b, scale),
        scaled_to(exact_difference(a, b), scale) == scaled_to(a, scale) - scaled_to(b, scale),
{
    let s = larger_scale(a, b);
    lemma_scaled_further(a, s, scale);
    lemma_scaled_further(b, s, scale);
    let q = pow10((scale - s) as nat);
    let x = scaled_to(a, s);
    let y = scaled_to(b, s);
    assert((x + y) * q == x * q + y * q) by (nonlinear_arith);
    assert((x - y) * q == x * q - y * q) by (nonlinear_arith);
}

/// Sums, differences and products of numbers of the same value have the
/// same value.
pub proof fn lemma_same_number_results(a: (int, int), like: (int, int), b: (int, int))
    requires
        same_number(a, like),
    ensures
        same_number(exact_sum(a, b), exact_sum(like, b)),
        same_number(exact_difference(a, b), exact_difference(like, b)),
        same_number(exact_product(a, b), exact_product(like, b)),
{
    let scale = largest_scale(a, like, b);
    lemma_same_number_at(a, like, scale);
    lemma_sum_at(a, b, scale);
    lemma_sum_at(like, b, scale);
    lemma_same_number_at(exact_sum(a, b), exact_sum(like, b), scale);
    lemma_same_number_at(exact_difference(a, b), exact_difference(like, b), scale);
    let p = pow10((scale - a.1) as nat);
    let q = pow10((scale - like.1) as nat);
    assert(scaled_to(exact_product(a, b), scale + b.1) == (a.0 * b.0) * p);
    assert(scaled_to(exact_product(like, b), scale + b.1) == (like.0 * b.0) * q);
    assert((a.0 * b.0) * p == (a.0 * p) * b.0) by (nonlinear_arith);
    assert((like.0 * b.0) * q == (like.0 * q) * b.0) by (nonlinear_arith);
    lemma_same_number_at(exact_product(a, b), exact_product(like, b), scale + b.1);
}

/// What an addition makes of two numbers has the value of their sum.
pub proof fn lemma_sum_of_value(a: (int, int), b: (int, int))
    ensures
        same_number(sum_of(a, b), exact_sum(a, b)),
{
    let scale = larger_scale(a, b);
    let sum = exact_sum(a, b);
    assert(pow10(0) == 1);
    assert(sum.0 * 1 == sum.0);
    assert(scaled_to(sum, scale) == sum.0);
    if b.0 == 0 {
        assert(0 * pow10((scale - b.1) as nat) == 0);
        lemma_same_number_at(a, sum, scale);
    } else if a.0 == 0 {
        assert(0 * pow10((scale - a.1) as nat) == 0);
        lemma_same_number_at(b, sum, scale);
    } else {
        lemma_same_number_itself(sum);
    }
}

/// Bytes that are all zero stand for zero, and no others do.
proof fn lemma_zero_bytes(bytes: Seq<u8>)
    ensures
        signed_le(bytes) == 0 <==> (forall|i: int| 0 <= i < bytes.len() ==> bytes[i] == 0),
    decreases bytes.len(),
{
    if bytes.len() >= 2 {
        let rest = bytes.drop_first();
        lemma_zero_bytes(rest);
        if signed_le(bytes) == 0 {
            assert(bytes[0] as int == -256 * signed_le(rest));
            assert(signed_le(rest) == 0);
            assert forall|i: int| 0 <= i < bytes.len() implies bytes[i] == 0 by {
                if i > 0 {
                    assert(rest[i - 1] == bytes[i]);
                }
            }
        }
        if forall|i: int| 0 <= i < bytes.len() ==> bytes[i] == 0 {
            assert forall|i: int| 0 <= i < rest.len() implies rest[i] == 0 by {
                assert(rest[i] == bytes[i + 1]);
            }
        }
    }
}

/// A text of `n` bytes stands for an integer of a magnitude below 256 to the
/// power `n`.
proof fn lemma_bytes_bound(bytes: Seq<u8>)
    ensures
        -pow256(bytes.len()) < signed_le(bytes) < pow256(bytes.len()),
    decreases bytes.len(),
{
    if bytes.len() >= 2 {
        let rest = bytes.drop_first();
        lemma_bytes_bound(rest);
        let p = pow256(rest.len());
        assert(pow256(bytes.len()) == 256 * p);
    } else if bytes.len() == 1 {
        assert(pow256(1) == 256 * pow256(0));
    }
}

/// 256 to the power `n`.
pub open spec fn pow256(n: nat) -> int
    decreases n,
{
    if n == 0 {
        1
    } else {
        256 * pow256((n - 1) as nat)
    }
}

/// 256 to the power `n` is at most ten to the power `3 * n`.
proof fn lemma_pow256_below(n: nat)
    ensures
        0 < pow256(n) <= pow10(3 * n),
    decreases n,
{
    if n == 0 {
        assert(pow10(0) == 1);
    } else {
        lemma_pow256_below((n - 1) as nat);
        let p = pow256((n - 1) as nat);
        let q = pow10((3 * (n - 1)) as nat);
        assert(pow10(3 * n) == 10 * pow10((3 * n - 1) as nat));
        assert(pow10((3 * n - 1) as nat) == 10 * pow10((3 * n - 2) as nat));
        assert(pow10((3 * n - 2) as nat) == 10 * q);
        assert(256 * p <= 1000 * q) by (nonlinear_arith)
            requires
                0 < p <= q,
        ;
    }
}

/// A power of ten grows with its exponent.
proof fn lemma_pow10_grows(m: nat, n: nat)
    requires
        m <= n,
    ensures
        pow10(m) <= pow10(n),
    decreases n - m,
{
    if m < n {
        lemma_pow10_grows(m, (n - 1) as nat);
        lemma_pow10_positive((n - 1) as nat);
    }
}

/// An integer of few bytes is no multiple of a large power of ten, zero
/// aside.
proof fn lemma_too_short(x: Seq<u8>, y: int, d: nat)
    requires
        3 * x.len() <= d,
        y != 0,
    ensures
        signed_le(x) != y * pow10(d),
{
    lemma_bytes_bound(x);
    lemma_pow256_below(x.len());
    lemma_pow10_grows(3 * x.len(), d);
    let p = pow10(d);
    assert(y * p >= p || y * p <= -p) by (nonlinear_arith)
        requires
            y != 0,
            p > 0,
    ;
}

/// Whether bytes stand for zero.
fn bytes_are_zero(bytes: &Vec<u8>) -> (r: bool)
    ensures
        r == (signed_le(bytes@) == 0),
{
    let mut i: usize = 0;
    while i < bytes.len()
        invariant
            i <= bytes.len(),
            forall|j: int| 0 <= j < i ==> bytes@[j] == 0,
        decreases bytes.len() - i,
    {
        if bytes[i] != 0 {
            proof {
                lemma_zero_bytes(bytes@);
            }
            return false;
        }
        i += 1;
    }
    proof {
        lemma_zero_bytes(bytes@);
    }
    true
}

/// Whether the integer of `x` is that of `y` times ten to the power `d`,
/// for a `y` other than zero.
///
/// Within the limit the difference of the two, the one at scale `d` and the
/// other at scale zero, is taken and tested for zero. Beyond it an `x` of few
/// bytes is too small to be such a multiple; and for any other `x` the `y` is
/// raised by as many powers of ten as the limit allows, and `d` lowered.
fn equal_at(x: &Vec<u8>, y: &Vec<u8>, d: u64) -> (r: bool)
    requires
        signed_le(y@) != 0,
    ensures
        r == (signed_le(x@) == signed_le(y@) * pow10(d as nat)),
    decreases d,
{
    let ghost xi = signed_le(x@);
    let ghost yi = signed_le(y@);
    if d <= SCALE_LIMIT as u64 {
        let a = Decimal { digits: x.clone(), scale: d as i64 };
        let b = Decimal { digits: y.clone(), scale: 0 };
        let difference = difference_parts(&a, &b);
        proof {
            assert(pow10(0) == 1);
            assert(xi * 1 == xi);
            assert(scaled_to(a@, d as int) == xi);
            assert(scaled_to(b@, d as int) == yi * pow10(d as nat));
        }
        bytes_are_zero(&difference.0)
    } else if (x.len() as u128) * 3 <= d as u128 {
        proof {
            lemma_too_short(x@, yi, d as nat);
        }
        false
    } else {
        let mut none: Vec<u8> = Vec::new();
        none.push(0u8);
        let zero = Decimal { digits: none, scale: SCALE_LIMIT };
        let b = Decimal { digits: y.clone(), scale: 0 };
        let raised = difference_parts(&b, &zero);
        proof {
            let step = SCALE_LIMIT as nat;
            assert(pow10(0) == 1);
            assert(scaled_to(zero@, SCALE_LIMIT as int) == 0);
            assert(scaled_to(b@, SCALE_LIMIT as int) == yi * pow10(step));
            assert(signed_le(raised.0@) == yi * pow10(step));
            lemma_pow10_positive(step);
            assert(yi * pow10(step) != 0) by (nonlinear_arith)
                requires
                    yi != 0,
                    pow10(step) > 0,
            ;
            lemma_pow10_adds(step, (d - SCALE_LIMIT) as nat);
            let p = pow10(step);
            let q = pow10((d - SCALE_LIMIT) as nat);
            assert((yi * p) * q == yi * (p * q)) by (nonlinear_arith);
        }
        equal_at(x, &raised.0, d - SCALE_LIMIT as u64)
    }
}

impl Decimal {
    /// The number that stands for the unscaled integer, given as
    /// two's-complement little-endian bytes, at the scale.
    pub fn from_parts(parts: (Vec<u8>, i64)) -> (r: Decimal)
        ensures
            r@ == parts_value(parts),
    {
        let (digits, scale) = parts;
        Decimal { digits, scale }
    }

    /// Whether the scale is one on which arithmetic is done.
    pub fn fits(&self) -> (r: bool)
        ensures
            r == within_limit(self@.1),
    {
        -SCALE_LIMIT <= self.scale && self.scale <= SCALE_LIMIT
    }

    /// The number zero, with scale zero.
    pub fn zero() -> (r: Decimal)
        ensures
            r@ == (0int, 0int),
    {
        let mut digits: Vec<u8> = Vec::new();
        digits.push(0u8);
        Decimal { digits, scale: 0 }
    }

    /// The number one, with scale zero.
    pub fn one() -> (r: Decimal)
        ensures
            r@ == (1int, 0int),
    {
        let mut digits: Vec<u8> = Vec::new();
        digits.push(1u8);
        Decimal { digits, scale: 0 }
    }

    /// Reads a number from its text. Succeeds exactly where the text is
    /// accepted as a decimal, and holds the number as it was read.
    pub fn parse(text: &str) -> (r: Option<Decimal>)
        ensures
            decimal_option(r) == decimal_parse(text@),
    {
        match parse_parts(text) {
            Some(parts) => Some(Decimal::from_parts(parts)),
            None => None,
        }
    }

    /// The number as text. The text is read back as a number of the same
    /// value.
    pub fn to_text(&self) -> (r: String)
        ensures
            r@ == decimal_text(self@),
            written_for(r@, self@),
    {
        format_parts(self)
    }

    /// Whether the number is zero.
    pub fn is_zero(&self) -> (r: bool)
        ensures
            r == (self@.0 == 0),
    {
        bytes_are_zero(&self.digits)
    }

    /// Whether both numbers have the same value, whatever their scales.
    pub fn same_value(&self, other: &Decimal) -> (r: bool)
        ensures
            r == same_number(self@, other@),
    {
        let mine = self.is_zero();
        let theirs = other.is_zero();
        if mine || theirs {
            proof {
                if self@.1 >= other@.1 {
                    lemma_pow10_positive((self@.1 - other@.1) as nat);
                    let p = pow10((self@.1 - other@.1) as nat);
                    let y = other@.0;
                    assert(y == 0 <==> y * p == 0) by (nonlinear_arith)
                        requires
                            p > 0,
                    ;
                } else {
                    lemma_pow10_positive((other@.1 - self@.1) as nat);
                    let p = pow10((other@.1 - self@.1) as nat);
                    let x = self@.0;
                    assert(x == 0 <==> x * p == 0) by (nonlinear_arith)
                        requires
                            p > 0,
                    ;
                }
            }
            return mine && theirs;
        }
        if self.scale >= other.scale {
            let d = (self.scale as i128 - other.scale as i128) as u64;
            equal_at(&self.digits, &other.digits, d)
        } else {
            let d = (other.scale as i128 - self.scale as i128) as u64;
            equal_at(&other.digits, &self.digits, d)
        }
    }

    /// The sum; nothing where the scale of an operand is beyond the limit.
    pub fn plus(&self, other: &Decimal) -> (r: Option<Decimal>)
        ensures
            decimal_option(r) == guarded(self@, other@, sum_of(self@, other@)),
            r matches Some(sum) ==> same_number(sum@, exact_sum(self@, other@)),
    {
        if !self.fits() || !other.fits() {
            return None;
        }
        proof {
            lemma_sum_of_value(self@, other@);
        }
        Some(Decimal::from_parts(sum_parts(self, other)))
    }

    /// The difference; nothing where the scale of an operand is beyond the
    /// limit.
    pub fn minus(&self, other: &Decimal) -> (r: Option<Decimal>)
        ensures
            decimal_option(r) == guarded(self@, other@, exact_difference(self@, other@)),
    {
        if !self.fits() || !other.fits() {
            return None;
        }
        Some(Decimal::from_parts(difference_parts(self, other)))
    }

    /// The product; nothing where the scale of an operand is beyond the
    /// limit.
    pub fn times(&self, other: &Decimal) -> (r: Option<Decimal>)
        ensures
            decimal_option(r) == guarded(self@, other@, decimal_product(self@, other@)),
            r matches Some(product) ==> same_number(product@, exact_product(self@, other@)),
    {
        if !self.fits() || !other.fits() {
            return None;
        }
        Some(Decimal::from_parts(product_parts(self, other)))
    }

    /// The quotient: an error where the divisor is zero, and where the scale
    /// of an operand is beyond the limit.
    pub fn divided_by(&self, other: &Decimal) -> (r: Result<Decimal, EvalError>)
        ensures
            decimal_result(r) == checked(self@, other@, decimal_quotient(self@, other@)),
    {
        if other.is_zero() {
            return Err(EvalError::DivisionByZero);
        }
        if !self.fits() || !other.fits() {
            return Err(EvalError::NumberOutOfRange);
        }
        Ok(Decimal::from_parts(quotient_parts(self, other)))
    }

    /// The remainder: an error where the divisor is zero, and where the
    /// scale of an operand is beyond the limit.
    pub fn modulo(&self, other: &Decimal) -> (r: Result<Decimal, EvalError>)
        ensures
            decimal_result(r) == checked(self@, other@, exact_remainder(self@, other@)),
    {
        if other.is_zero() {
            return Err(EvalError::DivisionByZero);
        }
        if !self.fits() || !other.fits() {
            return Err(EvalError::NumberOutOfRange);
        }
        Ok(Decimal::from_parts(remainder_parts(self, other)))
    }
}

/// What a division makes of two operands: a failure where the divisor is
/// zero, and where the scale of an operand is beyond the limit, else `made`.
pub open spec fn checked(a: (int, int), b: (int, int), made: (int, int)) -> Result<
    (int, int),
    Failure,
> {
    if b.0 == 0 {
        Err(Failure::DivisionByZero)
    } else if within_limit(a.1) && within_limit(b.1) {
        Ok(made)
    } else {
        Err(Failure::NumberOutOfRange)
    }
}

/// The number or the failure that a result holds.
pub open spec fn decimal_result(r: Result<Decimal, EvalError>) -> Result<(int, int), Failure> {
    match r {
        Ok(n) => Ok(n@),
        Err(error) => Err(error@),
    }
}

/// The number that an optional decimal holds.
pub open spec fn decimal_option(r: Option<Decimal>) -> Option<(int, int)> {
    match r {
        Some(d) => Some(d@),
        None => None,
    }
}

impl Clone for Decimal {
    fn clone(&self) -> (r: Decimal)
        ensures
            r@ == self@,
    {
        Decimal { digits: self.digits.clone(), scale: self.scale }
    }
}

} // verus!
