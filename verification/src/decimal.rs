//! Exact decimal numbers.
//!
//! A coordinate is a decimal fraction `unscaled / 10^scale`, held with as many
//! digits as it needs. Sums and differences are exact, so identities such as
//! `(a + b) - b == a` hold without rounding.

use vstd::prelude::*;
use vstd::arithmetic::power::*;
use vstd::arithmetic::div_mod::lemma_fundamental_div_mod_converse;

verus! {

/// `10^n`.
pub open spec fn pow10(n: nat) -> int {
    pow(10, n)
}

/// The mathematical value of a decimal number: `unscaled / 10^scale`.
pub struct Dec {
    pub unscaled: int,
    pub scale: nat,
}

impl Dec {
    /// The number zero.
    pub open spec fn zero() -> Dec {
        Dec { unscaled: 0, scale: 0 }
    }

    /// The whole number `i`.
    pub open spec fn from_int(i: int) -> Dec {
        Dec { unscaled: i, scale: 0 }
    }

    /// A value is canonical when it carries no trailing fractional zero; each
    /// number has exactly one canonical form.
    pub open spec fn canonical(self) -> bool {
        self.scale == 0 || self.unscaled % 10 != 0
    }

    /// The canonical form of the same number.
    pub open spec fn normalize(self) -> Dec
        decreases self.scale,
    {
        if self.scale > 0 && self.unscaled % 10 == 0 {
            Dec { unscaled: self.unscaled / 10, scale: (self.scale - 1) as nat }.normalize()
        } else {
            self
        }
    }

    /// The numerator of the number written over the denominator `10^k`,
    /// meaningful for `k >= self.scale`.
    pub open spec fn at_scale(self, k: nat) -> int {
        self.unscaled * pow10((k - self.scale) as nat)
    }

    /// The exact sum, in canonical form.
    pub open spec fn plus(self, other: Dec) -> Dec {
        let k = if self.scale >= other.scale { self.scale } else { other.scale };
        Dec { unscaled: self.at_scale(k) + other.at_scale(k), scale: k }.normalize()
    }

    /// The number with the opposite sign.
    pub open spec fn neg(self) -> Dec {
        Dec { unscaled: -self.unscaled, scale: self.scale }
    }

    /// The exact difference, in canonical form.
    pub open spec fn minus(self, other: Dec) -> Dec {
        self.plus(other.neg())
    }

    /// The whole part of the number: the fraction is cut off, so the result
    /// lies between zero and the number.
    pub open spec fn truncated(self) -> int {
        if self.unscaled >= 0 {
            self.unscaled / pow10(self.scale)
        } else {
            -((-self.unscaled) / pow10(self.scale))
        }
    }
}

/// The nearest value to `v` that a 32-bit signed integer can hold.
pub open spec fn clamp_i32(v: int) -> int {
    if v < -2147483648 {
        -2147483648
    } else if v > 2147483647 {
        2147483647
    } else {
        v
    }
}

/// Writing a number over a larger power of ten multiplies its numerator by
/// the quotient of the two powers.
pub proof fn lemma_rescale(d: Dec, k0: nat, k: nat)
    requires
        d.scale <= k0 <= k,
    ensures
        d.at_scale(k) == d.at_scale(k0) * pow10((k - k0) as nat),
{
    let e0 = (k0 - d.scale) as nat;
    let e1 = (k - k0) as nat;
    lemma_pow_adds(10, e0, e1);
    assert(e0 + e1 == (k - d.scale) as nat);
    let u = d.unscaled;
    let a = pow10(e0);
    let b = pow10(e1);
    assert(u * (a * b) == (u * a) * b) by (nonlinear_arith);
}

/// The canonical form is canonical, has no larger scale and denotes the same
/// number.
pub proof fn lemma_normalize(d: Dec, k: nat)
    requires
        d.scale <= k,
    ensures
        d.normalize().canonical(),
        d.normalize().scale <= d.scale,
        d.normalize().at_scale(k) == d.at_scale(k),
        d.canonical() ==> d.normalize() == d,
    decreases d.scale,
{
    if d.scale > 0 && d.unscaled % 10 == 0 {
        let d1 = Dec { unscaled: d.unscaled / 10, scale: (d.scale - 1) as nat };
        lemma_normalize(d1, k);
        reveal(pow);
        let p = pow10((k - d.scale) as nat);
        assert(pow10((k - d1.scale) as nat) == 10 * p);
        let q = d.unscaled / 10;
        assert(q * (10 * p) == (10 * q) * p) by (nonlinear_arith);
    }
}

/// Two canonical forms of one number are the same form.
pub proof fn lemma_canonical_unique(a: Dec, b: Dec, k: nat)
    requires
        a.canonical(),
        b.canonical(),
        a.scale <= k,
        b.scale <= k,
        a.at_scale(k) == b.at_scale(k),
    ensures
        a == b,
{
    if a.scale <= b.scale {
        lemma_unique_ordered(a, b, k);
    } else {
        lemma_unique_ordered(b, a, k);
    }
}

proof fn lemma_unique_ordered(a: Dec, b: Dec, k: nat)
    requires
        a.canonical(),
        b.canonical(),
        a.scale <= b.scale <= k,
        a.at_scale(k) == b.at_scale(k),
    ensures
        a == b,
{
    let p = pow10((k - b.scale) as nat);
    lemma_pow_positive(10, (k - b.scale) as nat);
    lemma_rescale(a, b.scale, k);
    let x = a.at_scale(b.scale);
    let y = b.unscaled;
    assert(x * p == y * p);
    assert(x == y) by (nonlinear_arith)
        requires
            x * p == y * p,
            p > 0,
    ;
    if a.scale < b.scale {
        let e = (b.scale - a.scale - 1) as nat;
        reveal(pow);
        assert(pow10((b.scale - a.scale) as nat) == 10 * pow10(e));
        let u = a.unscaled;
        let q = pow10(e);
        assert(u * (10 * q) == 10 * (u * q)) by (nonlinear_arith);
        assert(y % 10 == 0);
    } else {
        lemma_pow0(10);
        assert(x == a.unscaled * 1);
    }
}

/// The sum is canonical and denotes the sum of the two numbers.
pub proof fn lemma_plus(a: Dec, b: Dec, k: nat)
    requires
        a.scale <= k,
        b.scale <= k,
    ensures
        a.plus(b).canonical(),
        a.plus(b).scale <= k,
        a.plus(b).at_scale(k) == a.at_scale(k) + b.at_scale(k),
{
    let m = if a.scale >= b.scale { a.scale } else { b.scale };
    let raw = Dec { unscaled: a.at_scale(m) + b.at_scale(m), scale: m };
    lemma_normalize(raw, k);
    lemma_rescale(a, m, k);
    lemma_rescale(b, m, k);
    let p = pow10((k - m) as nat);
    let x = a.at_scale(m);
    let y = b.at_scale(m);
    assert((x + y) * p == x * p + y * p) by (nonlinear_arith);
}

/// Negation keeps the form and denotes the opposite number.
pub proof fn lemma_neg(a: Dec, k: nat)
    requires
        a.scale <= k,
    ensures
        a.neg().canonical() == a.canonical(),
        a.neg().scale == a.scale,
        a.neg().at_scale(k) == -a.at_scale(k),
{
    let p = pow10((k - a.scale) as nat);
    let u = a.unscaled;
    assert((-u) * p == -(u * p)) by (nonlinear_arith);
}

/// The difference is canonical and denotes the difference of the two numbers.
pub proof fn lemma_minus(a: Dec, b: Dec, k: nat)
    requires
        a.scale <= k,
        b.scale <= k,
    ensures
        a.minus(b).canonical(),
        a.minus(b).scale <= k,
        a.minus(b).at_scale(k) == a.at_scale(k) - b.at_scale(k),
{
    lemma_neg(b, k);
    lemma_plus(a, b.neg(), k);
}

/// Adding zero changes nothing.
pub proof fn lemma_plus_zero(a: Dec)
    requires
        a.canonical(),
    ensures
        a.plus(Dec::zero()) == a,
        Dec::zero().plus(a) == a,
{
    let k = a.scale;
    lemma_plus(a, Dec::zero(), k);
    lemma_plus(Dec::zero(), a, k);
    assert(Dec::zero().at_scale(k) == 0) by (nonlinear_arith)
        requires
            Dec::zero().at_scale(k) == 0 * pow10((k - 0) as nat),
    ;
    lemma_canonical_unique(a.plus(Dec::zero()), a, k);
    lemma_canonical_unique(Dec::zero().plus(a), a, k);
}

/// The order of the terms of a sum does not matter.
pub proof fn lemma_plus_commutes(a: Dec, b: Dec)
    ensures
        a.plus(b) == b.plus(a),
{
}

/// Taking away what was added gives the first number back.
pub proof fn lemma_plus_minus_cancel(a: Dec, b: Dec)
    requires
        a.canonical(),
    ensures
        a.plus(b).minus(b) == a,
{
    let k = if a.scale >= b.scale { a.scale } else { b.scale };
    lemma_plus(a, b, k);
    lemma_minus(a.plus(b), b, k);
    lemma_canonical_unique(a.plus(b).minus(b), a, k);
}

/// Whether `b` is one of the characters `0` to `9`.
pub open spec fn is_digit(b: u8) -> bool {
    48 <= b <= 57
}

/// The number that a string of decimal digits denotes, read as it is written:
/// most significant digit first.
pub open spec fn text_value(t: Seq<u8>) -> nat
    decreases t.len(),
{
    if t.len() == 0 {
        0
    } else {
        10 * text_value(t.drop_last()) + (t.last() - 48) as nat
    }
}

/// How many digits stand in a row in `t` from position `from` on.
pub open spec fn digit_run(t: Seq<u8>, from: int) -> nat
    decreases t.len() - from,
{
    if 0 <= from < t.len() && is_digit(t[from]) {
        1 + digit_run(t, from + 1)
    } else {
        0
    }
}

/// The number that `t` denotes as a decimal literal, if it is one: an optional
/// minus sign, digits, and at most one decimal point, with at least one digit
/// before or behind the point. Nothing else may stand in `t`.
pub open spec fn literal_value(t: Seq<u8>) -> Option<Dec> {
    let negative = t.len() > 0 && t[0] == 45;
    let start: int = if negative { 1 } else { 0 };
    let whole = digit_run(t, start);
    let point = start + whole;
    let has_point = point < t.len() && t[point] == 46;
    let frac = if has_point { digit_run(t, point + 1) } else { 0 };
    let end = if has_point { point + 1 + frac } else { point };
    if end == t.len() && whole + frac > 0 {
        let mantissa = text_value(t.subrange(start, point) + t.subrange(end - frac, end));
        Some(
            (Dec {
                unscaled: if negative { -(mantissa as int) } else { mantissa as int },
                scale: frac,
            }).normalize(),
        )
    } else {
        None
    }
}

/// The value of a digit string whose first element is the least significant.
spec fn digits_value(s: Seq<u8>) -> nat
    decreases s.len(),
{
    if s.len() == 0 {
        0
    } else {
        s[0] as nat + 10 * digits_value(s.drop_first())
    }
}

spec fn all_digits(s: Seq<u8>) -> bool {
    forall|i: int| 0 <= i < s.len() ==> s[i] < 10
}

/// No zero in the most significant place.
spec fn trimmed(s: Seq<u8>) -> bool {
    s.len() > 0 ==> s.last() != 0
}

proof fn lemma_pow10_step(n: nat)
    ensures
        pow10(0) == 1,
        pow10(n + 1) == 10 * pow10(n),
        pow10(n) > 0,
{
    reveal(pow);
    lemma_pow_positive(10, n);
}

proof fn lemma_value_split(s: Seq<u8>, k: int)
    requires
        0 <= k <= s.len(),
    ensures
        digits_value(s) == digits_value(s.take(k)) + pow10(k as nat) * digits_value(s.skip(k)),
    decreases k,
{
    if k == 0 {
        assert(s.take(0) =~= Seq::<u8>::empty());
        assert(s.skip(0) =~= s);
        lemma_pow10_step(0);
        assert(digits_value(s.take(0)) == 0);
        assert(pow10(0) * digits_value(s.skip(0)) == digits_value(s));
    } else {
        let t = s.drop_first();
        lemma_value_split(t, k - 1);
        assert(s.take(k).drop_first() =~= t.take(k - 1));
        assert(s.skip(k) =~= t.skip(k - 1));
        assert(s.take(k)[0] == s[0]);
        lemma_pow10_step((k - 1) as nat);
        let p = pow10((k - 1) as nat);
        let hi = digits_value(s.skip(k));
        let lo = digits_value(t.take(k - 1));
        assert(digits_value(s) == s[0] + 10 * digits_value(t));
        assert(digits_value(s.take(k)) == s[0] + 10 * lo);
        assert(digits_value(t) == lo + p * hi);
        assert(10 * (p * hi) == (10 * p) * hi) by (nonlinear_arith);
        assert(pow10(k as nat) == 10 * p);
        assert(pow10(k as nat) * hi == (10 * p) * hi);
    }
}

proof fn lemma_value_bound(s: Seq<u8>)
    requires
        all_digits(s),
    ensures
        digits_value(s) < pow10(s.len()),
    decreases s.len(),
{
    if s.len() == 0 {
        lemma_pow10_step(0);
    } else {
        lemma_value_bound(s.drop_first());
        lemma_pow10_step((s.len() - 1) as nat);
    }
}

proof fn lemma_value_push(s: Seq<u8>, d: u8)
    ensures
        digits_value(s.push(d)) == digits_value(s) + pow10(s.len()) * d,
{
    let t = s.push(d);
    lemma_value_split(t, s.len() as int);
    assert(t.take(s.len() as int) =~= s);
    assert(t.skip(s.len() as int) =~= seq![d]);
    assert(seq![d].drop_first() =~= Seq::<u8>::empty());
    assert(digits_value(seq![d]) == d) by {
        reveal_with_fuel(digits_value, 2);
    }
}

/// The digit at place `i`, zero beyond the most significant place.
fn digit_at(v: &Vec<u8>, i: usize) -> (d: u8)
    ensures
        d == (if i < v@.len() { v@[i as int] } else { 0u8 }),
{
    if i < v.len() {
        v[i]
    } else {
        0
    }
}

/// The first `k` places of `s`, filled up with zeros where `s` is shorter.
spec fn low_places(s: Seq<u8>, k: int) -> Seq<u8> {
    Seq::new(k as nat, |i: int| if i < s.len() { s[i] } else { 0u8 })
}

proof fn lemma_low_places_step(s: Seq<u8>, k: int)
    requires
        0 <= k,
    ensures
        digits_value(low_places(s, k + 1)) == digits_value(low_places(s, k)) + pow10(k as nat) * (
        if k < s.len() {
            s[k]
        } else {
            0u8
        }),
        digits_value(low_places(s, 0)) == 0,
{
    let d = if k < s.len() { s[k] } else { 0u8 };
    assert(low_places(s, k + 1) =~= low_places(s, k).push(d));
    lemma_value_push(low_places(s, k), d);
}

proof fn lemma_low_places_all(s: Seq<u8>, k: int)
    requires
        s.len() <= k,
    ensures
        digits_value(low_places(s, k)) == digits_value(s),
{
    let t = low_places(s, k);
    lemma_value_split(t, s.len() as int);
    assert(t.take(s.len() as int) =~= s);
    lemma_zeros_value(t.skip(s.len() as int));
    assert(pow10(s.len()) * 0 == 0);
}

proof fn lemma_zeros_value(s: Seq<u8>)
    requires
        forall|i: int| 0 <= i < s.len() ==> s[i] == 0,
    ensures
        digits_value(s) == 0,
    decreases s.len(),
{
    if s.len() > 0 {
        lemma_zeros_value(s.drop_first());
    }
}

/// The sum of two magnitudes.
fn add_magnitudes(a: &Vec<u8>, b: &Vec<u8>) -> (r: Vec<u8>)
    requires
        all_digits(a@),
        all_digits(b@),
    ensures
        all_digits(r@),
        digits_value(r@) == digits_value(a@) + digits_value(b@),
{
    let n: usize = if a.len() >= b.len() { a.len() } else { b.len() };
    let mut out: Vec<u8> = Vec::new();
    let mut carry: u8 = 0;
    let mut i: usize = 0;
    proof {
        lemma_low_places_step(a@, 0);
        lemma_low_places_step(b@, 0);
        lemma_pow10_step(0);
    }
    while i < n
        invariant
            i <= n,
            n == (if a@.len() >= b@.len() { a@.len() } else { b@.len() }),
            all_digits(a@),
            all_digits(b@),
            all_digits(out@),
            out@.len() == i,
            carry <= 1,
            digits_value(out@) + pow10(i as nat) * carry == digits_value(low_places(a@, i as int))
                + digits_value(low_places(b@, i as int)),
        decreases n - i,
    {
        let x = digit_at(a, i);
        let y = digit_at(b, i);
        let t: u8 = x + y + carry;
        let d: u8 = if t >= 10 { t - 10 } else { t };
        let c: u8 = if t >= 10 { 1 } else { 0 };
        proof {
            lemma_low_places_step(a@, i as int);
            lemma_low_places_step(b@, i as int);
            lemma_value_push(out@, d);
            lemma_pow10_step(i as nat);
            let p = pow10(i as nat);
            assert(p * d + (10 * p) * c + p * carry == p * x + p * y + 2 * (p * carry))
                by (nonlinear_arith)
                requires
                    d + 10 * c == x + y + carry,
            ;
        }
        out.push(d);
        carry = c;
        i = i + 1;
    }
    proof {
        lemma_low_places_all(a@, n as int);
        lemma_low_places_all(b@, n as int);
    }
    if carry > 0 {
        proof {
            lemma_value_push(out@, carry);
        }
        out.push(carry);
    }
    out
}

/// Place-by-place difference over `n` places, where `n` is the longer of the
/// two lengths. The flag tells whether a borrow ran out of the top place,
/// which happens exactly when `a` is the smaller magnitude.
fn sub_magnitudes(a: &Vec<u8>, b: &Vec<u8>) -> (r: (Vec<u8>, bool))
    requires
        all_digits(a@),
        all_digits(b@),
    ensures
        all_digits(r.0@),
        r.1 <==> digits_value(a@) < digits_value(b@),
        !r.1 ==> digits_value(r.0@) == digits_value(a@) - digits_value(b@),
{
    let n: usize = if a.len() >= b.len() { a.len() } else { b.len() };
    let mut out: Vec<u8> = Vec::new();
    let mut borrow: u8 = 0;
    let mut i: usize = 0;
    proof {
        lemma_low_places_step(a@, 0);
        lemma_low_places_step(b@, 0);
        lemma_pow10_step(0);
    }
    while i < n
        invariant
            i <= n,
            n == (if a@.len() >= b@.len() { a@.len() } else { b@.len() }),
            all_digits(a@),
            all_digits(b@),
            all_digits(out@),
            out@.len() == i,
            borrow <= 1,
            digits_value(out@) + digits_value(low_places(b@, i as int)) == digits_value(
                low_places(a@, i as int),
            ) + pow10(i as nat) * borrow,
        decreases n - i,
    {
        let x = digit_at(a, i);
        let y = digit_at(b, i) + borrow;
        let d: u8 = if x >= y { x - y } else { x + 10 - y };
        let c: u8 = if x >= y { 0 } else { 1 };
        proof {
            lemma_low_places_step(a@, i as int);
            lemma_low_places_step(b@, i as int);
            lemma_value_push(out@, d);
            lemma_pow10_step(i as nat);
            let p = pow10(i as nat);
            let yb = y - borrow;
            assert(p * d + p * yb + p * borrow == p * x + (10 * p) * c) by (nonlinear_arith)
                requires
                    d + yb + borrow == x + 10 * c,
            ;
        }
        out.push(d);
        borrow = c;
        i = i + 1;
    }
    proof {
        lemma_low_places_all(a@, n as int);
        lemma_low_places_all(b@, n as int);
        lemma_value_bound(out@);
        lemma_pow10_step(n as nat);
        assert(pow10(n as nat) * borrow == (if borrow == 1 { pow10(n as nat) } else { 0 }))
            by (nonlinear_arith)
            requires
                borrow <= 1,
        ;
    }
    (out, borrow == 1)
}

/// `v` multiplied by `10^k`: `k` zeros put below its least significant place.
fn shift_magnitude(v: &Vec<u8>, k: usize) -> (r: Vec<u8>)
    requires
        all_digits(v@),
    ensures
        all_digits(r@),
        digits_value(r@) == pow10(k as nat) * digits_value(v@),
{
    let mut out: Vec<u8> = Vec::new();
    let mut i: usize = 0;
    while i < k
        invariant
            i <= k,
            out@.len() == i,
            forall|j: int| 0 <= j < out@.len() ==> out@[j] == 0,
        decreases k - i,
    {
        out.push(0);
        i = i + 1;
    }
    let ghost zeros = out@;
    let mut j: usize = 0;
    while j < v.len()
        invariant
            j <= v@.len(),
            zeros.len() == k,
            out@ =~= zeros + v@.take(j as int),
            all_digits(v@),
            all_digits(out@),
        decreases v@.len() - j,
    {
        out.push(v[j]);
        j = j + 1;
    }
    proof {
        assert(v@.take(v@.len() as int) =~= v@);
        lemma_value_split(out@, k as int);
        assert(out@.take(k as int) =~= zeros);
        assert(out@.skip(k as int) =~= v@);
        lemma_zeros_value(zeros);
    }
    out
}

/// A digit string read from its written form backwards has the value of the
/// written form.
proof fn lemma_reversed_value(r: Seq<u8>, t: Seq<u8>)
    requires
        r.len() == t.len(),
        forall|i: int| 0 <= i < r.len() ==> r[i] == t[t.len() - 1 - i] - 48,
        forall|i: int| 0 <= i < t.len() ==> is_digit(#[trigger] t[i]),
    ensures
        digits_value(r) == text_value(t),
    decreases r.len(),
{
    if r.len() > 0 {
        let r1 = r.drop_first();
        let t1 = t.drop_last();
        assert forall|i: int| 0 <= i < r1.len() implies r1[i] == t1[t1.len() - 1 - i] - 48 by {
            assert(r1[i] == r[i + 1]);
        }
        lemma_reversed_value(r1, t1);
        assert(r[0] == t.last() - 48);
    }
}

proof fn lemma_digit_run_bounds(t: Seq<u8>, from: int)
    requires
        0 <= from <= t.len(),
    ensures
        from + digit_run(t, from) <= t.len(),
        forall|i: int| from <= i < from + digit_run(t, from) ==> is_digit(#[trigger] t[i]),
        from + digit_run(t, from) < t.len() ==> !is_digit(t[from + digit_run(t, from)]),
    decreases t.len() - from,
{
    if from < t.len() && is_digit(t[from]) {
        lemma_digit_run_bounds(t, from + 1);
    }
}

proof fn lemma_value_at_least(s: Seq<u8>)
    requires
        s.len() > 0,
        s.last() != 0,
    ensures
        digits_value(s) >= pow10((s.len() - 1) as nat),
{
    let head = s.drop_last();
    assert(head.push(s.last()) =~= s);
    lemma_value_push(head, s.last());
    let p = pow10(head.len());
    let d = s.last();
    lemma_pow10_step(head.len());
    assert(p * d >= p) by (nonlinear_arith)
        requires
            d >= 1,
            p > 0,
    ;
}

proof fn lemma_pow10_ten()
    ensures
        pow10(10) == 10000000000,
{
    lemma_pow10_step(0);
    lemma_pow10_step(1);
    lemma_pow10_step(2);
    lemma_pow10_step(3);
    lemma_pow10_step(4);
    lemma_pow10_step(5);
    lemma_pow10_step(6);
    lemma_pow10_step(7);
    lemma_pow10_step(8);
    lemma_pow10_step(9);
}

/// The places of a magnitude above the lowest `k` hold its quotient by
/// `10^k`.
proof fn lemma_value_quotient(s: Seq<u8>, k: int)
    requires
        all_digits(s),
        0 <= k <= s.len(),
    ensures
        digits_value(s.skip(k)) == (digits_value(s) as int) / pow10(k as nat),
{
    lemma_value_split(s, k);
    lemma_value_bound(s.take(k));
    lemma_pow10_step(k as nat);
    let p = pow10(k as nat);
    let hi = digits_value(s.skip(k)) as int;
    assert(hi * p == p * hi) by (nonlinear_arith);
    lemma_fundamental_div_mod_converse(
        digits_value(s) as int,
        p,
        hi,
        digits_value(s.take(k)) as int,
    );
}

/// The integer with the given sign and magnitude.
spec fn signed(negative: bool, magnitude: nat) -> int {
    if negative {
        -(magnitude as int)
    } else {
        magnitude as int
    }
}

proof fn lemma_normalize_zero(scale: nat)
    ensures
        (Dec { unscaled: 0, scale }).normalize() == Dec::zero(),
    decreases scale,
{
    if scale > 0 {
        lemma_normalize_zero((scale - 1) as nat);
    }
}

/// An exact decimal number with arbitrarily many digits.
#[derive(Debug, PartialEq, Eq)]
pub struct Decimal {
    negative: bool,
    /// Decimal digits of the magnitude, least significant first.
    digits: Vec<u8>,
    /// How many of the digits stand behind the decimal point.
    scale: usize,
}

impl View for Decimal {
    type V = Dec;

    closed spec fn view(&self) -> Dec {
        Dec {
            unscaled: if self.negative {
                -(digits_value(self.digits@) as int)
            } else {
                digits_value(self.digits@) as int
            },
            scale: self.scale as nat,
        }
    }
}

impl Decimal {
    /// What holds of every number in its stored form: it is written with
    /// decimal digits, without a zero in front, without a zero at the end
    /// of its fraction, and zero carries no sign.
    #[verifier::type_invariant]
    pub closed spec fn wf(self) -> bool {
        &&& all_digits(self.digits@)
        &&& trimmed(self.digits@)
        &&& (self.scale > 0 ==> self.digits@.len() > 0 && self.digits@[0] != 0)
        &&& (self.negative ==> self.digits@.len() > 0)
    }

    /// The number zero.
    pub fn zero() -> (r: Decimal)
        ensures
            r@ == Dec::zero(),
            r@.canonical(),
    {
        Decimal { negative: false, digits: Vec::new(), scale: 0 }
    }

    /// The canonical number with the given sign, digits and scale.
    fn normalized(negative: bool, digits: Vec<u8>, scale: usize) -> (r: Decimal)
        requires
            all_digits(digits@),
        ensures
            r@ == (Dec {
                unscaled: signed(negative, digits_value(digits@)),
                scale: scale as nat,
            }).normalize(),
            r@.canonical(),
    {
        let ghost given = digits@;
        proof {
            lemma_normalize(
                Dec { unscaled: signed(negative, digits_value(digits@)), scale: scale as nat },
                scale as nat,
            );
        }
        let mut digits = digits;
        while digits.len() > 0 && digits[digits.len() - 1] == 0
            invariant
                all_digits(digits@),
                digits_value(digits@) == digits_value(given),
            decreases digits@.len(),
        {
            proof {
                let shorter = digits@.drop_last();
                assert(shorter.push(0u8) =~= digits@);
                lemma_value_push(shorter, 0u8);
                assert(pow10(shorter.len()) * 0 == 0);
            }
            digits.pop();
        }
        if digits.len() == 0 {
            proof {
                lemma_normalize_zero(scale as nat);
            }
            return Decimal { negative: false, digits, scale: 0 };
        }
        let mut z: usize = 0;
        proof {
            assert(digits@.skip(0) =~= digits@);
        }
        while z < scale && digits[z] == 0
            invariant
                z <= scale,
                z < digits@.len(),
                all_digits(digits@),
                trimmed(digits@),
                digits@.len() > 0,
                (Dec {
                    unscaled: signed(negative, digits_value(digits@.skip(z as int))),
                    scale: (scale - z) as nat,
                }).normalize() == (Dec {
                    unscaled: signed(negative, digits_value(given)),
                    scale: scale as nat,
                }).normalize(),
            decreases scale - z,
        {
            proof {
                let cur = digits@.skip(z as int);
                assert(cur.drop_first() =~= digits@.skip(z + 1));
                assert(cur[0] == 0);
                let v = digits_value(digits@.skip(z + 1));
                assert(digits_value(cur) == 10 * v);
                let u = signed(negative, digits_value(cur));
                assert(u % 10 == 0 && u / 10 == signed(negative, v));
                if z + 1 == digits@.len() {
                    assert(digits@.last() == digits@[z as int]);
                }
            }
            z = z + 1;
        }
        let mut kept: Vec<u8> = Vec::new();
        let mut i: usize = z;
        while i < digits.len()
            invariant
                z <= i <= digits@.len(),
                kept@ =~= digits@.subrange(z as int, i as int),
            decreases digits@.len() - i,
        {
            kept.push(digits[i]);
            i = i + 1;
        }
        proof {
            assert(kept@ =~= digits@.skip(z as int));
            assert(kept@.last() == digits@.last());
            assert(kept@[0] == digits@[z as int]);
            let u = signed(negative, digits_value(kept@));
            assert(digits_value(kept@) == kept@[0] + 10 * digits_value(kept@.drop_first()));
            assert(scale - z > 0 ==> u % 10 != 0);
        }
        Decimal { negative, digits: kept, scale: scale - z }
    }

    /// The whole number `v`.
    pub fn from_i64(v: i64) -> (r: Decimal)
        ensures
            r@ == Dec::from_int(v as int),
            r@.canonical(),
    {
        let mut m: u64 = if v < 0 { (-(v as i128)) as u64 } else { v as u64 };
        let ghost magnitude = m;
        let mut digits: Vec<u8> = Vec::new();
        proof {
            lemma_pow10_step(0);
            assert(digits_value(digits@) == 0);
            assert(pow10(0) * m == m);
        }
        while m > 0
            invariant
                all_digits(digits@),
                digits_value(digits@) + pow10(digits@.len()) * m == magnitude,
                m == 0 && digits@.len() > 0 ==> digits@.last() != 0,
            decreases m,
        {
            let d: u8 = (m % 10) as u8;
            proof {
                lemma_value_push(digits@, d);
                lemma_pow10_step(digits@.len());
                let p = pow10(digits@.len());
                let q = m / 10;
                assert(p * d + (10 * p) * q == p * m) by (nonlinear_arith)
                    requires
                        d + 10 * q == m,
                ;
            }
            digits.push(d);
            m = m / 10;
        }
        proof {
            assert(pow10(digits@.len()) * 0 == 0);
        }
        Decimal { negative: v < 0, digits, scale: 0 }
    }

    /// Reads a decimal literal. Succeeds exactly on the strings that
    /// [`literal_value`] accepts, with the number it gives.
    pub fn parse(text: &[u8]) -> (r: Option<Decimal>)
        ensures
            match literal_value(text@) {
                Some(d) => r matches Some(x) && x@ == d && d.canonical(),
                None => r is None,
            },
    {
        let n = text.len();
        let negative = n > 0 && text[0] == 45;
        let start: usize = if negative { 1 } else { 0 };
        let mut point: usize = start;
        while point < n && text[point] >= 48 && text[point] <= 57
            invariant
                start <= point <= n,
                n == text@.len(),
                digit_run(text@, start as int) == (point - start) + digit_run(text@, point as int),
            decreases n - point,
        {
            point = point + 1;
        }
        let has_point = point < n && text[point] == 46;
        let mut end: usize = point;
        if has_point {
            end = point + 1;
            while end < n && text[end] >= 48 && text[end] <= 57
                invariant
                    point < end <= n,
                    n == text@.len(),
                    digit_run(text@, point + 1) == (end - point - 1) + digit_run(
                        text@,
                        end as int,
                    ),
                decreases n - end,
            {
                end = end + 1;
            }
        }
        let frac: usize = if has_point { end - point - 1 } else { 0 };
        if end != n || (point - start) + frac == 0 {
            return None;
        }
        let ghost written = text@.subrange(start as int, point as int) + text@.subrange(
            end - frac,
            end as int,
        );
        proof {
            lemma_digit_run_bounds(text@, start as int);
            if has_point {
                lemma_digit_run_bounds(text@, point + 1);
            }
        }
        let mut digits: Vec<u8> = Vec::new();
        let mut i: usize = end;
        while i > end - frac
            invariant
                end - frac <= i <= end,
                end <= text@.len(),
                start <= point,
                point + frac <= end,
                written == text@.subrange(start as int, point as int) + text@.subrange(
                    end - frac,
                    end as int,
                ),
                forall|j: int| end - frac <= j < end ==> is_digit(#[trigger] text@[j]),
                digits@.len() == end - i,
                all_digits(digits@),
                forall|j: int|
                    0 <= j < digits@.len() ==> digits@[j] == written[written.len() - 1 - j] - 48,
            decreases i,
        {
            i = i - 1;
            proof {
                assert(written[written.len() - 1 - digits@.len()] == text@[i as int]);
            }
            digits.push(text[i] - 48);
        }
        let mut k: usize = point;
        while k > start
            invariant
                start <= k <= point,
                point + frac <= end,
                end <= text@.len(),
                written == text@.subrange(start as int, point as int) + text@.subrange(
                    end - frac,
                    end as int,
                ),
                forall|j: int| start <= j < point ==> is_digit(#[trigger] text@[j]),
                digits@.len() == frac + (point - k),
                all_digits(digits@),
                forall|j: int|
                    0 <= j < digits@.len() ==> digits@[j] == written[written.len() - 1 - j] - 48,
            decreases k,
        {
            k = k - 1;
            proof {
                assert(written[written.len() - 1 - digits@.len()] == text@[k as int]);
            }
            digits.push(text[k] - 48);
        }
        proof {
            assert forall|j: int| 0 <= j < written.len() implies is_digit(#[trigger] written[j]) by {
                if j < point - start {
                    assert(written[j] == text@[start + j]);
                } else {
                    assert(written[j] == text@[end - frac + (j - (point - start))]);
                }
            }
            lemma_reversed_value(digits@, written);
        }
        Some(Decimal::normalized(negative, digits, frac))
    }

    /// The exact sum of two numbers.
    pub fn plus(&self, other: &Decimal) -> (r: Decimal)
        ensures
            r@ == self@.plus(other@),
            r@.canonical(),
    {
        proof {
            use_type_invariant(self);
            use_type_invariant(other);
        }
        let k: usize = if self.scale >= other.scale { self.scale } else { other.scale };
        let a = shift_magnitude(&self.digits, k - self.scale);
        let b = shift_magnitude(&other.digits, k - other.scale);
        proof {
            let pa = pow10((k - self.scale) as nat);
            let pb = pow10((k - other.scale) as nat);
            let va = digits_value(self.digits@) as int;
            let vb = digits_value(other.digits@) as int;
            assert((-va) * pa == -(pa * va)) by (nonlinear_arith);
            assert((-vb) * pb == -(pb * vb)) by (nonlinear_arith);
            assert(va * pa == pa * va) by (nonlinear_arith);
            assert(vb * pb == pb * vb) by (nonlinear_arith);
            assert(self@.at_scale(k as nat) == signed(self.negative, digits_value(a@)));
            assert(other@.at_scale(k as nat) == signed(other.negative, digits_value(b@)));
        }
        if self.negative == other.negative {
            let m = add_magnitudes(&a, &b);
            Decimal::normalized(self.negative, m, k)
        } else {
            let (d, smaller) = sub_magnitudes(&a, &b);
            if !smaller {
                Decimal::normalized(self.negative, d, k)
            } else {
                let (e, _) = sub_magnitudes(&b, &a);
                Decimal::normalized(other.negative, e, k)
            }
        }
    }

    /// The whole part of the number as a 32-bit integer: the fraction is cut
    /// off, and a number too large or too small for 32 bits gives the largest
    /// or the smallest value there is.
    pub fn to_i32(&self) -> (r: i32)
        ensures
            r == clamp_i32(self@.truncated()),
    {
        proof {
            use_type_invariant(self);
            lemma_pow10_ten();
        }
        let n = self.digits.len();
        if n <= self.scale {
            proof {
                lemma_value_bound(self.digits@);
                lemma_pow_increases(10, n as nat, self.scale as nat);
                lemma_fundamental_div_mod_converse(
                    digits_value(self.digits@) as int,
                    pow10(self.scale as nat),
                    0,
                    digits_value(self.digits@) as int,
                );
            }
            return 0;
        }
        let whole: usize = n - self.scale;
        let ghost high = self.digits@.skip(self.scale as int);
        proof {
            lemma_value_quotient(self.digits@, self.scale as int);
            assert(high.last() == self.digits@.last());
            lemma_value_at_least(high);
            let v = digits_value(self.digits@) as int;
            let p = pow10(self.scale as nat);
            if self.negative {
                lemma_value_at_least(self.digits@);
                lemma_pow10_step((n - 1) as nat);
                assert(-self@.unscaled == v);
                assert((-self@.unscaled) / p == v / p);
            }
        }
        if whole > 10 {
            proof {
                lemma_pow_increases(10, 10, (whole - 1) as nat);
            }
            return if self.negative { i32::MIN } else { i32::MAX };
        }
        let mut acc: i64 = 0;
        let mut i: usize = n;
        proof {
            assert(self.digits@.skip(n as int) =~= Seq::<u8>::empty());
            lemma_pow10_step(0);
        }
        while i > self.scale
            invariant
                self.scale <= i <= n,
                n == self.digits@.len(),
                n - self.scale <= 10,
                all_digits(self.digits@),
                acc == digits_value(self.digits@.skip(i as int)),
                0 <= acc < pow10((n - i) as nat),
                pow10(10) == 10000000000,
            decreases i,
        {
            proof {
                lemma_pow_increases(10, (n - i) as nat, 9);
                lemma_pow10_step(9);
                lemma_pow10_step((n - i) as nat);
                assert(self.digits@.skip(i - 1).drop_first() =~= self.digits@.skip(i as int));
            }
            i = i - 1;
            acc = acc * 10 + self.digits[i] as i64;
        }
        if self.negative {
            if acc > 2147483648 {
                i32::MIN
            } else {
                (-acc) as i32
            }
        } else {
            if acc > 2147483647 {
                i32::MAX
            } else {
                acc as i32
            }
        }
    }

    /// The number with the opposite sign.
    pub fn neg(&self) -> (r: Decimal)
        ensures
            r@ == self@.neg(),
            r@.canonical(),
    {
        proof {
            use_type_invariant(self);
            lemma_wf_canonical(*self);
        }
        let digits = copy_digits(&self.digits);
        if self.digits.len() == 0 {
            Decimal { negative: false, digits, scale: self.scale }
        } else {
            Decimal { negative: !self.negative, digits, scale: self.scale }
        }
    }

    /// The exact difference of two numbers.
    pub fn minus(&self, other: &Decimal) -> (r: Decimal)
        ensures
            r@ == self@.minus(other@),
            r@.canonical(),
    {
        let n = other.neg();
        self.plus(&n)
    }
}

impl Clone for Decimal {
    fn clone(&self) -> (r: Decimal)
        ensures
            r@ == self@,
            r@.canonical(),
    {
        proof {
            use_type_invariant(self);
            lemma_wf_canonical(*self);
        }
        Decimal { negative: self.negative, digits: copy_digits(&self.digits), scale: self.scale }
    }
}

/// A number in its stored form is canonical.
pub proof fn lemma_wf_canonical(d: Decimal)
    requires
        d.wf(),
    ensures
        d@.canonical(),
{
    if d.scale > 0 {
        let v = digits_value(d.digits@);
        assert(v == d.digits@[0] + 10 * digits_value(d.digits@.drop_first()));
    }
}

fn copy_digits(v: &Vec<u8>) -> (r: Vec<u8>)
    ensures
        r@ == v@,
{
    let mut out: Vec<u8> = Vec::new();
    let mut i: usize = 0;
    while i < v.len()
        invariant
            i <= v@.len(),
            out@ =~= v@.take(i as int),
        decreases v@.len() - i,
    {
        out.push(v[i]);
        i = i + 1;
    }
    proof {
        assert(v@.take(v@.len() as int) =~= v@);
    }
    out
}

} // verus!
