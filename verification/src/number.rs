//! Lox numbers: IEEE-754 binary64 values, held as their bit patterns.
//!
//! The arithmetic and the decimal conversions are those of rustc_apfloat's
//! software `Double`, which follows IEEE-754 with round-to-nearest-even, the
//! rounding of the machine's own binary64 type. Negation and the IEEE order
//! are stated here over the bit fields and computed directly.

use rustc_apfloat::ieee::Double;
use rustc_apfloat::{Float, Round};
use vstd::prelude::*;
use crate::text::{decimal, digit_value, is_digit, is_digit_spec, push_char, text_of};

verus! {

/// Name for the bits of `a + b` that rustc_apfloat's `Float::add_r` computes (nearest-even).
pub uninterp spec fn ieee_add(a: u64, b: u64) -> u64;

/// Name for the bits of `a - b` that rustc_apfloat's `Float::sub_r` computes (nearest-even).
pub uninterp spec fn ieee_sub(a: u64, b: u64) -> u64;

/// Name for the bits of `a * b` that rustc_apfloat's `Float::mul_r` computes (nearest-even).
pub uninterp spec fn ieee_mul(a: u64, b: u64) -> u64;

/// Name for the bits of `a / b` that rustc_apfloat's `Float::div_r` computes (nearest-even).
pub uninterp spec fn ieee_div(a: u64, b: u64) -> u64;

/// Name for what rustc_apfloat's `Float::from_str_r` (nearest-even) reads from a text:
/// the bits of the value, or `None` where it refuses the text.
pub uninterp spec fn ieee_parse(text: Seq<char>) -> Option<u64>;

/// Name for the bits of the value nearest to `n` (`Float::from_u128_r`, nearest-even).
pub uninterp spec fn ieee_from_u128(n: u128) -> u64;

/// Name for the text that rustc_apfloat's `Display` writes for the value with
/// precision `digits` and width 0: scientific notation with at most `digits`
/// significant digits, such as `3.14E+0`.
pub uninterp spec fn ieee_scientific(bits: u64, digits: usize) -> Seq<char>;

/// rustc_apfloat's `Float::add_r` with round-to-nearest-even, on bit patterns.
#[verifier::external_body]
fn add_bits(a: u64, b: u64) -> (r: u64)
    ensures
        r == ieee_add(a, b),
{
    Double::from_bits(a as u128).add_r(Double::from_bits(b as u128), Round::NearestTiesToEven).value.to_bits() as u64
}

/// rustc_apfloat's `Float::sub_r` with round-to-nearest-even, on bit patterns.
#[verifier::external_body]
fn sub_bits(a: u64, b: u64) -> (r: u64)
    ensures
        r == ieee_sub(a, b),
{
    Double::from_bits(a as u128).sub_r(Double::from_bits(b as u128), Round::NearestTiesToEven).value.to_bits() as u64
}

/// rustc_apfloat's `Float::mul_r` with round-to-nearest-even, on bit patterns.
#[verifier::external_body]
fn mul_bits(a: u64, b: u64) -> (r: u64)
    ensures
        r == ieee_mul(a, b),
{
    Double::from_bits(a as u128).mul_r(Double::from_bits(b as u128), Round::NearestTiesToEven).value.to_bits() as u64
}

/// rustc_apfloat's `Float::div_r` with round-to-nearest-even, on bit patterns.
#[verifier::external_body]
fn div_bits(a: u64, b: u64) -> (r: u64)
    ensures
        r == ieee_div(a, b),
{
    Double::from_bits(a as u128).div_r(Double::from_bits(b as u128), Round::NearestTiesToEven).value.to_bits() as u64
}

/// `-a`: the bits with the sign flipped (rustc_apfloat's `Neg::neg` flips
/// the sign and nothing else, NaNs included).
pub open spec fn ieee_neg(a: u64) -> u64 {
    if a >= 0x8000_0000_0000_0000u64 {
        (a - 0x8000_0000_0000_0000u64) as u64
    } else {
        (a + 0x8000_0000_0000_0000u64) as u64
    }
}

/// The value's place on the number line, for comparing values that are not
/// NaN: the magnitude bits, negated for a negative value, so that both zeros
/// are 0 and the infinities lie beyond every finite value.
pub open spec fn order_key(a: u64) -> int {
    let m = (a as nat) % 0x8000_0000_0000_0000nat;
    if m == 0 {
        0
    } else if a >= 0x8000_0000_0000_0000u64 {
        -m
    } else {
        m as int
    }
}

/// The order of `a` and `b` as IEEE-754 orders them (rustc_apfloat's
/// `partial_cmp`): 0 less, 1 equal, 2 greater, 3 unordered (a NaN is
/// involved). The two zeros are equal.
pub open spec fn ieee_order(a: u64, b: u64) -> u8 {
    if is_nan_bits(a) || is_nan_bits(b) {
        3
    } else if order_key(a) < order_key(b) {
        0
    } else if order_key(a) == order_key(b) {
        1
    } else {
        2
    }
}

/// `-a`, on bit patterns.
fn neg_bits(a: u64) -> (r: u64)
    ensures
        r == ieee_neg(a),
{
    if a >= 0x8000_0000_0000_0000u64 {
        a - 0x8000_0000_0000_0000u64
    } else {
        a + 0x8000_0000_0000_0000u64
    }
}

fn is_nan(a: u64) -> (r: bool)
    ensures
        r == is_nan_bits(a),
{
    (a / 0x10_0000_0000_0000u64) % 2048 == 2047 && a % 0x10_0000_0000_0000u64 != 0
}

fn order_key_of(a: u64) -> (k: i128)
    ensures
        k == order_key(a),
{
    let m = a % 0x8000_0000_0000_0000u64;
    if m == 0 {
        0
    } else if a >= 0x8000_0000_0000_0000u64 {
        -(m as i128)
    } else {
        m as i128
    }
}

/// The IEEE order of two values as a code (0 less, 1 equal, 2 greater,
/// 3 unordered).
fn order_bits(a: u64, b: u64) -> (r: u8)
    ensures
        r == ieee_order(a, b),
        r <= 3,
{
    if is_nan(a) || is_nan(b) {
        return 3;
    }
    let ka = order_key_of(a);
    let kb = order_key_of(b);
    if ka < kb {
        0
    } else if ka == kb {
        1
    } else {
        2
    }
}

/// A text of ASCII digits, beginning with a digit, with at most one `.`:
/// the shape of the number literals that the scanner reads.
pub open spec fn plain_numeral(s: Seq<char>) -> bool {
    &&& s.len() > 0
    &&& is_digit_spec(s[0])
    &&& forall|i: int| 0 <= i < s.len() ==> is_digit_spec(#[trigger] s[i]) || s[i] == '.'
    &&& forall|i: int, j: int| #![trigger s[i], s[j]] 0 <= i < j < s.len() && s[i] == '.' ==> s[j] != '.'
}

/// rustc_apfloat's `Float::from_str_r` with round-to-nearest-even; the bits of the
/// value read, or `None` where it returns an error. Its decimal reader refuses
/// only an empty text, a second `.`, a text without digits, and characters other
/// than digits, `.`, a sign, an exponent or the names of the special values, so
/// a plain numeral is always read.
#[verifier::external_body]
fn parse_bits(text: &str) -> (r: Option<u64>)
    ensures
        r == ieee_parse(text@),
        plain_numeral(text@) ==> r is Some,
{
    match Double::from_str_r(text, Round::NearestTiesToEven) {
        Ok(v) => Some(v.value.to_bits() as u64),
        Err(_) => None,
    }
}

/// rustc_apfloat's `Float::from_u128_r` with round-to-nearest-even.
#[verifier::external_body]
fn from_u128_bits(n: u128) -> (r: u64)
    ensures
        r == ieee_from_u128(n),
{
    Double::from_u128_r(n, Round::NearestTiesToEven).value.to_bits() as u64
}

/// rustc_apfloat's `Display` with width 0 and precision `digits`.
#[verifier::external_body]
fn scientific_text(bits: u64, digits: usize) -> (s: String)
    requires
        1 <= digits <= 17,
    ensures
        s@ == ieee_scientific(bits, digits),
{
    format!("{:w$.p$}", Double::from_bits(bits as u128), w = 0, p = digits)
}

// ---------------------------------------------------------------------------
// The fields of a binary64 bit pattern.

pub open spec fn exponent_field(bits: u64) -> nat {
    ((bits as nat) / 0x10_0000_0000_0000nat) % 2048
}

pub open spec fn mantissa_field(bits: u64) -> nat {
    (bits as nat) % 0x10_0000_0000_0000nat
}

pub open spec fn sign_field(bits: u64) -> bool {
    bits >= 0x8000_0000_0000_0000u64
}

pub open spec fn is_nan_bits(bits: u64) -> bool {
    exponent_field(bits) == 2047 && mantissa_field(bits) != 0
}

pub open spec fn is_infinite_bits(bits: u64) -> bool {
    exponent_field(bits) == 2047 && mantissa_field(bits) == 0
}

pub open spec fn is_zero_bits(bits: u64) -> bool {
    exponent_field(bits) == 0 && mantissa_field(bits) == 0
}

// ---------------------------------------------------------------------------
// From the scientific text of rustc_apfloat to the decimal text of Rust's
// `Display` for binary64: shortest digits that read back to the same value,
// written out without an exponent.

/// The scientific text with the fewest significant digits (from `p` up to 17)
/// that reads back to the same bits; the 17-digit text where none does.
pub open spec fn shortest_from(bits: u64, p: nat) -> Seq<char>
    decreases 17 - p,
{
    if p >= 17 {
        ieee_scientific(bits, 17)
    } else if ieee_parse(ieee_scientific(bits, p as usize)) == Some(bits) {
        ieee_scientific(bits, p as usize)
    } else {
        shortest_from(bits, p + 1)
    }
}

/// Index of the first `c` in `s` at or after `from`; `s.len()` where there is none.
pub open spec fn find_from(s: Seq<char>, c: char, from: int) -> int
    decreases s.len() - from,
{
    if from >= s.len() {
        s.len() as int
    } else if s[from] == c {
        from
    } else {
        find_from(s, c, from + 1)
    }
}

/// The digits of `s`, in order, without the other characters.
pub open spec fn keep_digits(s: Seq<char>) -> Seq<char>
    decreases s.len(),
{
    if s.len() == 0 {
        s
    } else if is_digit_spec(s.last()) {
        keep_digits(s.drop_last()).push(s.last())
    } else {
        keep_digits(s.drop_last())
    }
}

/// `s` without its trailing zeros.
pub open spec fn strip_trailing_zeros(s: Seq<char>) -> Seq<char>
    decreases s.len(),
{
    if s.len() > 0 && s.last() == '0' {
        strip_trailing_zeros(s.drop_last())
    } else {
        s
    }
}

/// The largest exponent magnitude that is read from a scientific text.
pub open spec fn exponent_cap() -> nat {
    100_000
}

/// The value of the decimal digits of `s`, capped at `exponent_cap()`.
pub open spec fn capped_value(s: Seq<char>) -> nat
    decreases s.len(),
{
    if s.len() == 0 {
        0
    } else {
        let v = capped_value(s.drop_last()) * 10 + digit_value(s.last());
        if v > exponent_cap() { exponent_cap() } else { v }
    }
}

/// The significant digits of a scientific text `[-]D.DDDE±X`.
pub open spec fn sci_digits(t: Seq<char>) -> Seq<char> {
    let e = find_from(t, 'E', 0);
    strip_trailing_zeros(keep_digits(t.subrange(0, e)))
}

/// The decimal exponent of a scientific text `[-]D.DDDE±X`.
pub open spec fn sci_exponent(t: Seq<char>) -> int {
    let e = find_from(t, 'E', 0);
    let rest = if e < t.len() { t.subrange(e + 1, t.len() as int) } else { Seq::empty() };
    let v = capped_value(keep_digits(rest)) as int;
    if rest.len() > 0 && rest[0] == '-' { -v } else { v }
}

/// `n` zeros.
pub open spec fn zeros(n: nat) -> Seq<char> {
    Seq::new(n, |i: int| '0')
}

/// The decimal text, without exponent, of the number `0.D1..Dn * 10^(x + 1)`
/// (digits `ds`, at least one), as Rust's `Display` for binary64 writes it.
pub open spec fn positional(ds: Seq<char>, x: int) -> Seq<char> {
    let k = x + 1;
    let n = ds.len() as int;
    if k <= 0 {
        seq!['0', '.'] + zeros((-k) as nat) + ds
    } else if k >= n {
        ds + zeros((k - n) as nat)
    } else {
        ds.subrange(0, k) + seq!['.'] + ds.subrange(k, n)
    }
}

/// The significant digits of a finite non-zero value, at least one.
pub open spec fn display_digits(bits: u64) -> Seq<char> {
    let d = sci_digits(shortest_from(bits, 1));
    if d.len() == 0 { seq!['0'] } else { d }
}

/// The decimal exponent of the leading significant digit of a finite non-zero value.
pub open spec fn display_exponent(bits: u64) -> int {
    sci_exponent(shortest_from(bits, 1))
}

/// What Rust's `Display` writes for a binary64 value: `NaN`, `inf`, `-inf`,
/// `0`, `-0`, or the shortest digits that read back to the value, positionally.
pub open spec fn display_text(bits: u64) -> Seq<char> {
    if is_nan_bits(bits) {
        "NaN"@
    } else if is_infinite_bits(bits) {
        if sign_field(bits) { "-inf"@ } else { "inf"@ }
    } else if is_zero_bits(bits) {
        if sign_field(bits) { "-0"@ } else { "0"@ }
    } else {
        let body = positional(display_digits(bits), display_exponent(bits));
        if sign_field(bits) { seq!['-'] + body } else { body }
    }
}

/// The value is finite and has no fractional part.
pub open spec fn is_integral_bits(bits: u64) -> bool {
    !is_nan_bits(bits) && !is_infinite_bits(bits) && (is_zero_bits(bits)
        || display_exponent(bits) + 1 >= display_digits(bits).len())
}

/// A Lox number literal as the scanner and the printers write it: integral
/// values get a `.0` suffix, the others are written as `Display` writes them.
pub open spec fn literal_text(bits: u64) -> Seq<char> {
    if is_integral_bits(bits) {
        display_text(bits) + ".0"@
    } else {
        display_text(bits)
    }
}

/// A Lox number: the bit pattern of an IEEE-754 binary64 value.
#[derive(Clone, Copy, Debug)]
pub struct Number {
    pub bits: u64,
}

fn find_char(s: &Vec<char>, c: char, from: usize) -> (r: usize)
    requires
        from <= s.len(),
    ensures
        r == find_from(s@, c, from as int),
        from <= r <= s.len(),
    decreases s.len() - from,
{
    if from >= s.len() {
        s.len()
    } else if s[from] == c {
        from
    } else {
        find_char(s, c, from + 1)
    }
}

fn digits_between(s: &Vec<char>, from: usize, to: usize) -> (r: Vec<char>)
    requires
        from <= to <= s.len(),
    ensures
        r@ == keep_digits(s@.subrange(from as int, to as int)),
{
    let mut r: Vec<char> = Vec::new();
    let mut i = from;
    while i < to
        invariant
            from <= i <= to <= s.len(),
            r@ == keep_digits(s@.subrange(from as int, i as int)),
        decreases to - i,
    {
        assert(s@.subrange(from as int, i + 1).drop_last() == s@.subrange(from as int, i as int));
        if is_digit(s[i]) {
            r.push(s[i]);
        }
        i += 1;
    }
    r
}

fn digit_of(c: char) -> (d: u64)
    ensures
        d == digit_value(c),
{
    if c == '1' { 1 }
    else if c == '2' { 2 }
    else if c == '3' { 3 }
    else if c == '4' { 4 }
    else if c == '5' { 5 }
    else if c == '6' { 6 }
    else if c == '7' { 7 }
    else if c == '8' { 8 }
    else if c == '9' { 9 }
    else { 0 }
}

fn capped_value_of(s: &Vec<char>) -> (v: u64)
    ensures
        v == capped_value(s@),
{
    let mut v: u64 = 0;
    let mut i: usize = 0;
    while i < s.len()
        invariant
            i <= s.len(),
            v == capped_value(s@.take(i as int)),
            v <= exponent_cap(),
        decreases s.len() - i,
    {
        assert(s@.take(i + 1).drop_last() == s@.take(i as int));
        let w = v * 10 + digit_of(s[i]);
        v = if w > 100_000 { 100_000 } else { w };
        i += 1;
    }
    assert(s@.take(s.len() as int) == s@);
    v
}

fn push_zeros(s: &mut String, n: u64)
    ensures
        final(s)@ == old(s)@ + zeros(n as nat),
{
    let mut i: u64 = 0;
    while i < n
        invariant
            i <= n,
            s@ == old(s)@ + zeros(i as nat),
        decreases n - i,
    {
        push_char(s, '0');
        assert(zeros((i + 1) as nat) == zeros(i as nat).push('0'));
        i += 1;
    }
}

fn push_range(s: &mut String, v: &Vec<char>, from: usize, to: usize)
    requires
        from <= to <= v.len(),
    ensures
        final(s)@ == old(s)@ + v@.subrange(from as int, to as int),
{
    let mut i = from;
    while i < to
        invariant
            from <= i <= to <= v.len(),
            s@ == old(s)@ + v@.subrange(from as int, i as int),
        decreases to - i,
    {
        push_char(s, v[i]);
        assert(v@.subrange(from as int, i + 1) == v@.subrange(from as int, i as int).push(v@[i as int]));
        i += 1;
    }
}

impl Number {
    /// The number whose bit pattern is `bits`.
    pub fn from_bits(bits: u64) -> (r: Number)
        ensures
            r.bits == bits,
    {
        Number { bits }
    }

    /// `self + other`.
    pub fn add(self, other: Number) -> (r: Number)
        ensures
            r.bits == ieee_add(self.bits, other.bits),
    {
        Number { bits: add_bits(self.bits, other.bits) }
    }

    /// `self - other`.
    pub fn sub(self, other: Number) -> (r: Number)
        ensures
            r.bits == ieee_sub(self.bits, other.bits),
    {
        Number { bits: sub_bits(self.bits, other.bits) }
    }

    /// `self * other`.
    pub fn mul(self, other: Number) -> (r: Number)
        ensures
            r.bits == ieee_mul(self.bits, other.bits),
    {
        Number { bits: mul_bits(self.bits, other.bits) }
    }

    /// `self / other`.
    pub fn div(self, other: Number) -> (r: Number)
        ensures
            r.bits == ieee_div(self.bits, other.bits),
    {
        Number { bits: div_bits(self.bits, other.bits) }
    }

    /// `-self`.
    pub fn neg(self) -> (r: Number)
        ensures
            r.bits == ieee_neg(self.bits),
    {
        Number { bits: neg_bits(self.bits) }
    }

    /// `self < other` (false where a NaN is involved).
    pub fn lt(self, other: Number) -> (r: bool)
        ensures
            r == (ieee_order(self.bits, other.bits) == 0),
    {
        order_bits(self.bits, other.bits) == 0
    }

    /// `self <= other` (false where a NaN is involved).
    pub fn le(self, other: Number) -> (r: bool)
        ensures
            r == (ieee_order(self.bits, other.bits) == 0 || ieee_order(self.bits, other.bits) == 1),
    {
        let o = order_bits(self.bits, other.bits);
        o == 0 || o == 1
    }

    /// `self > other` (false where a NaN is involved).
    pub fn gt(self, other: Number) -> (r: bool)
        ensures
            r == (ieee_order(self.bits, other.bits) == 2),
    {
        order_bits(self.bits, other.bits) == 2
    }

    /// `self >= other` (false where a NaN is involved).
    pub fn ge(self, other: Number) -> (r: bool)
        ensures
            r == (ieee_order(self.bits, other.bits) == 2 || ieee_order(self.bits, other.bits) == 1),
    {
        let o = order_bits(self.bits, other.bits);
        o == 2 || o == 1
    }

    /// `self == other` in the IEEE sense (`0 == -0`, a NaN equals nothing).
    pub fn eq(self, other: Number) -> (r: bool)
        ensures
            r == (ieee_order(self.bits, other.bits) == 1),
    {
        order_bits(self.bits, other.bits) == 1
    }

    /// The value of a decimal text such as `3.14`, rounded to nearest.
    pub fn parse_decimal(text: &str) -> (r: Option<Number>)
        ensures
            r matches Some(n) ==> ieee_parse(text@) == Some(n.bits),
            r is None ==> ieee_parse(text@) is None,
            plain_numeral(text@) ==> r is Some,
    {
        match parse_bits(text) {
            Some(b) => Some(Number { bits: b }),
            None => None,
        }
    }

    /// The value nearest to the integer `n`.
    pub fn from_u128(n: u128) -> (r: Number)
        ensures
            r.bits == ieee_from_u128(n),
    {
        Number { bits: from_u128_bits(n) }
    }

    fn shortest_scientific(bits: u64) -> (t: String)
        ensures
            t@ == shortest_from(bits, 1),
    {
        let mut p: usize = 1;
        let mut t = scientific_text(bits, 1);
        while p < 17 && parse_bits(t.as_str()) != Some(bits)
            invariant
                1 <= p <= 17,
                t@ == ieee_scientific(bits, p),
                shortest_from(bits, 1) == shortest_from(bits, p as nat),
            decreases 17 - p,
        {
            p += 1;
            t = scientific_text(bits, p);
        }
        t
    }

    /// The text that Rust's `Display` writes for this binary64 value.
    pub fn to_display_text(&self) -> (s: String)
        ensures
            s@ == display_text(self.bits),
    {
        let bits = self.bits;
        let ex = bits / 0x10_0000_0000_0000 % 2048;
        let ma = bits % 0x10_0000_0000_0000;
        let neg = bits >= 0x8000_0000_0000_0000u64;
        if ex == 2047 && ma != 0 {
            return text_of("NaN");
        }
        if ex == 2047 {
            return if neg { text_of("-inf") } else { text_of("inf") };
        }
        if ex == 0 && ma == 0 {
            return if neg { text_of("-0") } else { text_of("0") };
        }
        let (ds, x) = Self::digits_and_exponent(bits);
        let mut s = String::new();
        if neg {
            push_char(&mut s, '-');
        }
        Self::push_positional(&mut s, &ds, x);
        proof {
            if neg {
                assert(s@ == seq!['-'] + positional(ds@, x as int));
            } else {
                assert(s@ == positional(ds@, x as int));
            }
        }
        s
    }

    fn digits_and_exponent(bits: u64) -> (r: (Vec<char>, i64))
        ensures
            r.0@ == display_digits(bits),
            r.1 == display_exponent(bits),
            -100_000 <= r.1 <= 100_000,
    {
        let t = Self::shortest_scientific(bits);
        let tv = crate::text::chars_of(t.as_str());
        let e = find_char(&tv, 'E', 0);
        let mut ds = digits_between(&tv, 0, e);
        let ghost all = ds@;
        while ds.len() > 0 && ds[ds.len() - 1] == '0'
            invariant
                strip_trailing_zeros(ds@) == strip_trailing_zeros(all),
            decreases ds.len(),
        {
            ds.pop();
        }
        assert(strip_trailing_zeros(ds@) == ds@);
        if ds.len() == 0 {
            ds.push('0');
        }
        let x: i64 = if e < tv.len() {
            let rest_digits = digits_between(&tv, e + 1, tv.len());
            let v = capped_value_of(&rest_digits);
            if e + 1 < tv.len() && tv[e + 1] == '-' { -(v as i64) } else { v as i64 }
        } else {
            0
        };
        proof {
            let rest = if e < tv@.len() { tv@.subrange(e + 1, tv@.len() as int) } else { Seq::empty() };
            if e < tv@.len() {
                assert(rest.len() > 0 ==> rest[0] == tv@[e + 1]);
            } else {
                assert(keep_digits(rest) == Seq::<char>::empty());
            }
        }
        (ds, x)
    }

    fn push_positional(s: &mut String, ds: &Vec<char>, x: i64)
        requires
            ds.len() >= 1,
            -100_000 <= x <= 100_000,
        ensures
            final(s)@ == old(s)@ + positional(ds@, x as int),
    {
        let k: i64 = x + 1;
        let n = ds.len();
        if k <= 0 {
            push_char(s, '0');
            push_char(s, '.');
            push_zeros(s, (-k) as u64);
            push_range(s, ds, 0, n);
            assert(ds@.subrange(0, n as int) == ds@);
            assert(final(s)@ == old(s)@ + (seq!['0', '.'] + zeros((-k) as nat) + ds@));
        } else if k as u64 >= n as u64 {
            push_range(s, ds, 0, n);
            push_zeros(s, (k as u64) - (n as u64));
            assert(ds@.subrange(0, n as int) == ds@);
            assert(final(s)@ == old(s)@ + (ds@ + zeros((k - n) as nat)));
        } else {
            let ku = k as usize;
            push_range(s, ds, 0, ku);
            push_char(s, '.');
            push_range(s, ds, ku, n);
            assert(final(s)@ == old(s)@ + (ds@.subrange(0, k as int) + seq!['.'] + ds@.subrange(k as int, n as int)));
        }
    }

    /// The value is finite and has no fractional part.
    pub fn is_integral(&self) -> (r: bool)
        ensures
            r == is_integral_bits(self.bits),
    {
        let bits = self.bits;
        let ex = bits / 0x10_0000_0000_0000 % 2048;
        let ma = bits % 0x10_0000_0000_0000;
        if ex == 2047 {
            return false;
        }
        if ex == 0 && ma == 0 {
            return true;
        }
        let (ds, x) = Self::digits_and_exponent(bits);
        x + 1 >= 0 && (x + 1) as u64 >= ds.len() as u64
    }

    /// The number as a literal is written: integral values with a `.0` suffix.
    pub fn to_literal_text(&self) -> (s: String)
        ensures
            s@ == literal_text(self.bits),
    {
        let mut s = self.to_display_text();
        if self.is_integral() {
            s.append(".0");
        }
        s
    }
}

} // verus!

verus! {

/// The whole number that the digits of `s` make.
pub open spec fn digits_int(s: Seq<char>) -> int
    decreases s.len(),
{
    if s.len() == 0 {
        0
    } else {
        digits_int(s.drop_last()) * 10 + digit_value(s.last())
    }
}

/// Ten to the power `n`.
pub open spec fn pow10(n: nat) -> int
    decreases n,
{
    if n == 0 {
        1
    } else {
        10 * pow10((n - 1) as nat)
    }
}

/// A decimal text `D..D` or `D..D.D..D` as the whole number its digits make
/// and the count of digits after the point: its value is the first over ten
/// to the power of the second.
pub open spec fn point_value(t: Seq<char>) -> (int, nat) {
    let p = find_from(t, '.', 0);
    if p < t.len() {
        (digits_int(t.subrange(0, p) + t.subrange(p + 1, t.len() as int)), (t.len() - p - 1) as nat)
    } else {
        (digits_int(t), 0)
    }
}

/// `n / 10^f` equals `d * 10^e`.
pub open spec fn same_decimal(n: int, f: nat, d: int, e: int) -> bool {
    if f + e >= 0 {
        n == d * pow10((f + e) as nat)
    } else {
        n * pow10((-(f + e)) as nat) == d
    }
}

proof fn lemma_digits_int_concat(a: Seq<char>, b: Seq<char>)
    ensures
        digits_int(a + b) == digits_int(a) * pow10(b.len()) + digits_int(b),
    decreases b.len(),
{
    if b.len() == 0 {
        assert(a + b =~= a);
    } else {
        let b1 = b.drop_last();
        assert((a + b).drop_last() =~= a + b1);
        assert((a + b).last() == b.last());
        lemma_digits_int_concat(a, b1);
        let x = digits_int(a);
        let p = pow10(b1.len());
        let y = digits_int(b1);
        assert((x * p + y) * 10 == x * (10 * p) + y * 10) by (nonlinear_arith);
    }
}

proof fn lemma_digits_int_zeros(m: nat)
    ensures
        digits_int(zeros(m)) == 0,
    decreases m,
{
    if m > 0 {
        assert(zeros(m).drop_last() =~= zeros((m - 1) as nat));
        lemma_digits_int_zeros((m - 1) as nat);
    }
}

proof fn lemma_find_from(t: Seq<char>, c: char, from: int)
    requires
        0 <= from <= t.len(),
    ensures
        from <= find_from(t, c, from) <= t.len(),
        forall|i: int| from <= i < find_from(t, c, from) ==> t[i] != c,
        find_from(t, c, from) < t.len() ==> t[find_from(t, c, from)] == c,
    decreases t.len() - from,
{
    if from < t.len() && t[from] != c {
        lemma_find_from(t, c, from + 1);
    }
}

/// Writing the digits `ds` positionally keeps their value: the decimal text
/// that `positional(ds, x)` writes denotes `0.D1..Dn * 10^(x + 1)`, that is
/// the whole number of `ds` times ten to the power `x + 1 - n`, whatever
/// zeros it adds before or after them.
pub proof fn law_positional_keeps_the_value(ds: Seq<char>, x: int)
    requires
        ds.len() > 0,
        forall|i: int| 0 <= i < ds.len() ==> is_digit_spec(#[trigger] ds[i]),
    ensures
        same_decimal(point_value(positional(ds, x)).0, point_value(positional(ds, x)).1, digits_int(ds), x + 1 - ds.len()),
{
    let k = x + 1;
    let n = ds.len() as int;
    let t = positional(ds, x);
    lemma_find_from(t, '.', 0);
    let p = find_from(t, '.', 0);
    if k <= 0 {
        let z = zeros((-k) as nat);
        assert(t == seq!['0', '.'] + z + ds);
        assert(t[1] == '.');
        assert(t[0] != '.');
        assert(p == 1);
        assert(t.subrange(0, 1) + t.subrange(2, t.len() as int) =~= zeros((1 - k) as nat) + ds);
        lemma_digits_int_concat(zeros((1 - k) as nat), ds);
        lemma_digits_int_zeros((1 - k) as nat);
        assert(point_value(t) == (digits_int(ds), (n - k) as nat));
    } else if k >= n {
        let z = zeros((k - n) as nat);
        assert(t == ds + z);
        assert forall|i: int| 0 <= i < t.len() implies t[i] != '.' by {
            if i < n {
                assert(t[i] == ds[i]);
            } else {
                assert(t[i] == z[i - n]);
            }
        }
        assert(p == t.len());
        lemma_digits_int_concat(ds, z);
        lemma_digits_int_zeros((k - n) as nat);
        assert(point_value(t) == (digits_int(ds) * pow10((k - n) as nat), 0nat));
    } else {
        assert(t == ds.subrange(0, k) + seq!['.'] + ds.subrange(k, n));
        assert forall|i: int| 0 <= i < k implies t[i] != '.' by {
            assert(t[i] == ds[i]);
        }
        assert(t[k] == '.');
        assert(p == k);
        assert(t.subrange(0, k) + t.subrange(k + 1, t.len() as int) =~= ds);
        assert(point_value(t) == (digits_int(ds), (n - k) as nat));
    }
}

proof fn lemma_keep_digits(s: Seq<char>)
    ensures
        forall|i: int| 0 <= i < keep_digits(s).len() ==> is_digit_spec(#[trigger] keep_digits(s)[i]),
    decreases s.len(),
{
    if s.len() > 0 {
        lemma_keep_digits(s.drop_last());
        let k = keep_digits(s.drop_last());
        if is_digit_spec(s.last()) {
            assert forall|i: int| 0 <= i < keep_digits(s).len() implies is_digit_spec(#[trigger] keep_digits(s)[i]) by {
                if i < k.len() {
                    assert(keep_digits(s)[i] == k[i]);
                }
            }
        }
    }
}

proof fn lemma_strip_trailing_zeros(s: Seq<char>)
    ensures
        strip_trailing_zeros(s).len() <= s.len(),
        forall|i: int| 0 <= i < strip_trailing_zeros(s).len() ==> #[trigger] strip_trailing_zeros(s)[i] == s[i],
    decreases s.len(),
{
    if s.len() > 0 && s.last() == '0' {
        lemma_strip_trailing_zeros(s.drop_last());
    }
}

/// The text `print` writes for a finite non-zero number, after its sign,
/// denotes the value of the shortest scientific reading of it
/// (`shortest_from`): the whole number of its significant digits times ten
/// to the power of its exponent plus one, less the count of digits. A minus
/// sign comes first exactly when the number is negative.
pub proof fn law_display_text_keeps_the_value(bits: u64)
    requires
        !is_nan_bits(bits),
        !is_infinite_bits(bits),
        !is_zero_bits(bits),
    ensures
        ({
            let t = display_text(bits);
            let body = if sign_field(bits) { t.subrange(1, t.len() as int) } else { t };
            let ds = display_digits(bits);
            &&& t.len() > 0
            &&& (t[0] == '-' <==> sign_field(bits))
            &&& same_decimal(point_value(body).0, point_value(body).1, digits_int(ds), display_exponent(bits) + 1 - ds.len())
        }),
{
    let ds = display_digits(bits);
    lemma_find_from(shortest_from(bits, 1), 'E', 0);
    let pre = shortest_from(bits, 1).subrange(0, find_from(shortest_from(bits, 1), 'E', 0));
    let raw = keep_digits(pre);
    lemma_keep_digits(pre);
    lemma_strip_trailing_zeros(raw);
    let sd = sci_digits(shortest_from(bits, 1));
    assert(sd == strip_trailing_zeros(raw));
    assert forall|i: int| 0 <= i < ds.len() implies is_digit_spec(#[trigger] ds[i]) by {
        if sd.len() > 0 {
            assert(ds == sd);
            assert(sd[i] == raw[i]);
            assert(i < raw.len());
            assert(is_digit_spec(raw[i]));
        } else {
            assert(ds[i] == '0');
        }
    }
    law_positional_keeps_the_value(ds, display_exponent(bits));
    let body = positional(ds, display_exponent(bits));
    let t = display_text(bits);
    let k = display_exponent(bits) + 1;
    if k <= 0 {
        assert(body[0] == '0');
    } else {
        assert(body[0] == ds[0]);
    }
    if sign_field(bits) {
        assert(t.subrange(1, t.len() as int) =~= body);
    }
}

} // verus!
