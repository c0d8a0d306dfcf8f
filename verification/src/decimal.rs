//! Exact nonnegative decimal values.
//!
//! Numeric literals in the data language are runs of digits with at most one
//! decimal point.  A value is kept in canonical form (no leading zeros in the
//! integer part, no trailing zeros in the fractional part), so that two
//! canonical values denote the same number exactly when their digit sequences
//! are equal, and numeric order is digit-by-digit order.

use vstd::prelude::*;

verus! {

/// A nonnegative decimal number in canonical form.  Each element of a digit
/// vector is a digit value between 0 and 9.
#[derive(Debug)]
pub struct Decimal {
    int_digits: Vec<u8>,
    frac_digits: Vec<u8>,
}

/// The mathematical model of a `Decimal`: the two digit sequences.
pub struct DecimalView {
    pub int_digits: Seq<u8>,
    pub frac_digits: Seq<u8>,
}

impl View for Decimal {
    type V = DecimalView;

    closed spec fn view(&self) -> DecimalView {
        DecimalView { int_digits: self.int_digits@, frac_digits: self.frac_digits@ }
    }
}

pub open spec fn digits_wf(s: Seq<u8>) -> bool {
    forall|i: int| 0 <= i < s.len() ==> s[i] <= 9
}

impl DecimalView {
    /// Canonical form: valid digits, a nonempty integer part without leading
    /// zeros, and a fractional part without trailing zeros.
    pub open spec fn wf(self) -> bool {
        &&& digits_wf(self.int_digits)
        &&& digits_wf(self.frac_digits)
        &&& self.int_digits.len() >= 1
        &&& (self.int_digits.len() > 1 ==> self.int_digits[0] != 0)
        &&& (self.frac_digits.len() > 0 ==> self.frac_digits[self.frac_digits.len() - 1] != 0)
    }
}

/// Digit-by-digit three-way comparison from position `i` on: the first
/// differing digit decides; if one sequence is a strict prefix of the other,
/// the longer one is greater.
pub open spec fn lex_cmp(a: Seq<u8>, b: Seq<u8>, i: int) -> int
    decreases a.len() + b.len() - 2 * i,
{
    if i >= a.len() && i >= b.len() {
        0
    } else if i >= a.len() {
        -1
    } else if i >= b.len() {
        1
    } else if a[i] < b[i] {
        -1
    } else if a[i] > b[i] {
        1
    } else {
        lex_cmp(a, b, i + 1)
    }
}

/// Three-way numeric comparison of canonical decimals: a longer integer part
/// is greater (no leading zeros), equal-length integer parts compare digit by
/// digit, and ties are broken by the fractional digits (no trailing zeros, so
/// a strict prefix is smaller).
pub open spec fn dec_cmp(a: DecimalView, b: DecimalView) -> int {
    if a.int_digits.len() < b.int_digits.len() {
        -1
    } else if a.int_digits.len() > b.int_digits.len() {
        1
    } else if lex_cmp(a.int_digits, b.int_digits, 0) != 0 {
        lex_cmp(a.int_digits, b.int_digits, 0)
    } else {
        lex_cmp(a.frac_digits, b.frac_digits, 0)
    }
}

pub open spec fn strip_leading_zeros(s: Seq<u8>) -> Seq<u8>
    decreases s.len(),
{
    if s.len() > 1 && s[0] == 0 {
        strip_leading_zeros(s.skip(1))
    } else {
        s
    }
}

pub open spec fn strip_trailing_zeros(s: Seq<u8>) -> Seq<u8>
    decreases s.len(),
{
    if s.len() > 0 && s[s.len() - 1] == 0 {
        strip_trailing_zeros(s.take(s.len() - 1))
    } else {
        s
    }
}

/// The canonical decimal denoted by raw integer and fractional digit runs.
pub open spec fn norm_decimal(int_digits: Seq<u8>, frac_digits: Seq<u8>) -> DecimalView {
    DecimalView {
        int_digits: strip_leading_zeros(int_digits),
        frac_digits: strip_trailing_zeros(frac_digits),
    }
}

proof fn lemma_strip_leading_wf(s: Seq<u8>)
    requires
        digits_wf(s),
        s.len() >= 1,
    ensures
        digits_wf(strip_leading_zeros(s)),
        strip_leading_zeros(s).len() >= 1,
        strip_leading_zeros(s).len() > 1 ==> strip_leading_zeros(s)[0] != 0,
    decreases s.len(),
{
    if s.len() > 1 && s[0] == 0 {
        assert(digits_wf(s.skip(1)));
        lemma_strip_leading_wf(s.skip(1));
    }
}

proof fn lemma_strip_trailing_wf(s: Seq<u8>)
    requires
        digits_wf(s),
    ensures
        digits_wf(strip_trailing_zeros(s)),
        strip_trailing_zeros(s).len() > 0 ==> strip_trailing_zeros(s)[strip_trailing_zeros(
            s,
        ).len() - 1] != 0,
    decreases s.len(),
{
    if s.len() > 0 && s[s.len() - 1] == 0 {
        assert(digits_wf(s.take(s.len() - 1)));
        lemma_strip_trailing_wf(s.take(s.len() - 1));
    }
}

/// Canonicalizing any valid digit runs yields a well-formed decimal.
pub proof fn lemma_norm_wf(int_digits: Seq<u8>, frac_digits: Seq<u8>)
    requires
        digits_wf(int_digits),
        digits_wf(frac_digits),
        int_digits.len() >= 1,
    ensures
        norm_decimal(int_digits, frac_digits).wf(),
{
    lemma_strip_leading_wf(int_digits);
    lemma_strip_trailing_wf(frac_digits);
}

proof fn lemma_lex_cmp_zero(a: Seq<u8>, b: Seq<u8>, i: int)
    requires
        0 <= i <= a.len(),
        i <= b.len(),
        lex_cmp(a, b, i) == 0,
    ensures
        a.len() == b.len(),
        forall|j: int| i <= j < a.len() ==> a[j] == b[j],
    decreases a.len() - i,
{
    if i < a.len() || i < b.len() {
        lemma_lex_cmp_zero(a, b, i + 1);
    }
}

proof fn lemma_lex_cmp_self(a: Seq<u8>, i: int)
    requires
        0 <= i,
    ensures
        lex_cmp(a, a, i) == 0,
    decreases a.len() - i,
{
    if i < a.len() {
        lemma_lex_cmp_self(a, i + 1);
    }
}

/// Canonicalizing a decimal already in canonical form changes nothing.
pub proof fn lemma_norm_canonical(d: DecimalView)
    requires
        d.wf(),
    ensures
        norm_decimal(d.int_digits, d.frac_digits) == d,
{
    assert(strip_leading_zeros(d.int_digits) == d.int_digits);
    assert(strip_trailing_zeros(d.frac_digits) == d.frac_digits);
}

proof fn lemma_lex_cmp_antisym(a: Seq<u8>, b: Seq<u8>, i: int)
    ensures
        lex_cmp(a, b, i) == -lex_cmp(b, a, i),
    decreases a.len() + b.len() - 2 * i,
{
    if i < a.len() && i < b.len() && a[i] == b[i] {
        lemma_lex_cmp_antisym(a, b, i + 1);
    }
}

/// The comparison is antisymmetric: swapping the operands flips its sign.
pub proof fn lemma_dec_cmp_antisym(a: DecimalView, b: DecimalView)
    ensures
        dec_cmp(a, b) == -dec_cmp(b, a),
{
    lemma_lex_cmp_antisym(a.int_digits, b.int_digits, 0);
    lemma_lex_cmp_antisym(a.frac_digits, b.frac_digits, 0);
}

/// Two decimals compare as equal exactly when they are the same value.
pub proof fn lemma_dec_cmp_zero_iff_eq(a: DecimalView, b: DecimalView)
    ensures
        dec_cmp(a, b) == 0 <==> (a.int_digits =~= b.int_digits && a.frac_digits
            =~= b.frac_digits),
{
    if dec_cmp(a, b) == 0 {
        lemma_lex_cmp_zero(a.int_digits, b.int_digits, 0);
        lemma_lex_cmp_zero(a.frac_digits, b.frac_digits, 0);
    }
    if a.int_digits =~= b.int_digits && a.frac_digits =~= b.frac_digits {
        lemma_lex_cmp_self(a.int_digits, 0);
        lemma_lex_cmp_self(a.frac_digits, 0);
    }
}

impl Decimal {
    pub open spec fn wf(self) -> bool {
        self@.wf()
    }

    /// Builds the canonical decimal for raw digit runs as scanned from a
    /// numeric literal.
    pub fn new(int_digits: Vec<u8>, frac_digits: Vec<u8>) -> (d: Decimal)
        requires
            digits_wf(int_digits@),
            digits_wf(frac_digits@),
            int_digits@.len() >= 1,
        ensures
            d@ == norm_decimal(int_digits@, frac_digits@),
            d.wf(),
    {
        let ghost i0 = int_digits@;
        let ghost f0 = frac_digits@;
        let mut ip = int_digits;
        let mut fp = frac_digits;
        while ip.len() > 1 && ip[0] == 0
            invariant
                ip@.len() >= 1,
                strip_leading_zeros(ip@) == strip_leading_zeros(i0),
            decreases ip@.len(),
        {
            proof {
                assert(ip@.remove(0) =~= ip@.skip(1));
            }
            ip.remove(0);
        }
        while fp.len() > 0 && fp[fp.len() - 1] == 0
            invariant
                strip_trailing_zeros(fp@) == strip_trailing_zeros(f0),
            decreases fp@.len(),
        {
            proof {
                assert(fp@.drop_last() =~= fp@.take(fp@.len() - 1));
            }
            fp.pop();
        }
        proof {
            lemma_norm_wf(i0, f0);
        }
        Decimal { int_digits: ip, frac_digits: fp }
    }

    /// Three-way comparison: -1, 0 or 1 as `self` is numerically below, equal
    /// to or above `other`.
    pub fn cmp_to(&self, other: &Decimal) -> (r: i8)
        ensures
            r as int == dec_cmp(self@, other@),
    {
        let a = &self.int_digits;
        let b = &other.int_digits;
        if a.len() < b.len() {
            return -1;
        }
        if a.len() > b.len() {
            return 1;
        }
        let mut j: usize = 0;
        while j < a.len()
            invariant
                a@.len() == b@.len(),
                j <= a@.len(),
                lex_cmp(a@, b@, 0) == lex_cmp(a@, b@, j as int),
                a@ == self@.int_digits,
                b@ == other@.int_digits,
            decreases a@.len() - j,
        {
            if a[j] < b[j] {
                return -1;
            }
            if a[j] > b[j] {
                return 1;
            }
            j += 1;
        }
        let fa = &self.frac_digits;
        let fb = &other.frac_digits;
        let mut k: usize = 0;
        while k < fa.len() && k < fb.len()
            invariant
                k <= fa@.len(),
                k <= fb@.len(),
                lex_cmp(fa@, fb@, 0) == lex_cmp(fa@, fb@, k as int),
                lex_cmp(self@.int_digits, other@.int_digits, 0) == 0,
                self@.int_digits.len() == other@.int_digits.len(),
                fa@ == self@.frac_digits,
                fb@ == other@.frac_digits,
            decreases fa@.len() + fb@.len() - 2 * k,
        {
            if fa[k] < fb[k] {
                return -1;
            }
            if fa[k] > fb[k] {
                return 1;
            }
            k += 1;
        }
        if k < fb.len() {
            return -1;
        }
        if k < fa.len() {
            return 1;
        }
        0
    }

    /// True when the digit vectors are in canonical form; always holds of a
    /// decimal built by `Decimal::new`.
    pub fn is_canonical(&self) -> (b: bool)
        ensures
            b == self.wf(),
    {
        if self.int_digits.len() < 1 {
            return false;
        }
        if self.int_digits.len() > 1 && self.int_digits[0] == 0 {
            return false;
        }
        if self.frac_digits.len() > 0 && self.frac_digits[self.frac_digits.len() - 1] == 0 {
            return false;
        }
        let mut j: usize = 0;
        while j < self.int_digits.len()
            invariant
                j <= self.int_digits@.len(),
                forall|i: int| 0 <= i < j ==> self.int_digits@[i] <= 9,
            decreases self.int_digits@.len() - j,
        {
            if self.int_digits[j] > 9 {
                return false;
            }
            j += 1;
        }
        let mut k: usize = 0;
        while k < self.frac_digits.len()
            invariant
                k <= self.frac_digits@.len(),
                digits_wf(self.int_digits@),
                forall|i: int| 0 <= i < k ==> self.frac_digits@[i] <= 9,
            decreases self.frac_digits@.len() - k,
        {
            if self.frac_digits[k] > 9 {
                return false;
            }
            k += 1;
        }
        true
    }

    /// The integer digits, for callers that display or test a value.
    pub fn int_part(&self) -> (v: &Vec<u8>)
        ensures
            v@ == self@.int_digits,
    {
        &self.int_digits
    }

    /// The fractional digits, for callers that display or test a value.
    pub fn frac_part(&self) -> (v: &Vec<u8>)
        ensures
            v@ == self@.frac_digits,
    {
        &self.frac_digits
    }
}

/// The character for one digit value; digits above 9 never occur in a
/// well-formed value.
pub open spec fn char_of_digit(d: u8) -> char {
    match d {
        0u8 => '0',
        1u8 => '1',
        2u8 => '2',
        3u8 => '3',
        4u8 => '4',
        5u8 => '5',
        6u8 => '6',
        7u8 => '7',
        8u8 => '8',
        9u8 => '9',
        _ => '?',
    }
}

/// The textual form of a decimal: the integer digits, then a point and the
/// fractional digits when there are any.
pub open spec fn dec_chars(d: DecimalView) -> Seq<char> {
    let ints = d.int_digits.map_values(|u: u8| char_of_digit(u));
    if d.frac_digits.len() > 0 {
        ints + seq!['.'] + d.frac_digits.map_values(|u: u8| char_of_digit(u))
    } else {
        ints
    }
}

pub(crate) fn digit_char(d: u8) -> (c: char)
    ensures
        c == char_of_digit(d),
{
    match d {
        0u8 => '0',
        1u8 => '1',
        2u8 => '2',
        3u8 => '3',
        4u8 => '4',
        5u8 => '5',
        6u8 => '6',
        7u8 => '7',
        8u8 => '8',
        9u8 => '9',
        _ => '?',
    }
}

impl Decimal {
    /// The value as text, for error reports and display.
    pub fn render(&self) -> (s: String)
        ensures
            s@ == dec_chars(self@),
    {
        let mut s = String::new();
        proof {
            assert(s@ =~= self.int_digits@.subrange(0, 0).map_values(|u: u8| char_of_digit(u)));
        }
        let mut i: usize = 0;
        while i < self.int_digits.len()
            invariant
                i <= self.int_digits@.len(),
                s@ == self.int_digits@.subrange(0, i as int).map_values(
                    |u: u8| char_of_digit(u),
                ),
            decreases self.int_digits@.len() - i,
        {
            crate::strutil::push_char(&mut s, digit_char(self.int_digits[i]));
            proof {
                assert(self.int_digits@.subrange(0, i as int + 1).map_values(
                    |u: u8| char_of_digit(u),
                ) =~= self.int_digits@.subrange(0, i as int).map_values(
                    |u: u8| char_of_digit(u),
                ).push(char_of_digit(self.int_digits@[i as int])));
            }
            i += 1;
        }
        proof {
            assert(self.int_digits@.subrange(0, self.int_digits@.len() as int)
                =~= self.int_digits@);
        }
        if self.frac_digits.len() == 0 {
            return s;
        }
        crate::strutil::push_char(&mut s, '.');
        let ghost base = self.int_digits@.map_values(|u: u8| char_of_digit(u)) + seq!['.'];
        proof {
            assert(s@ =~= base);
            assert(s@ =~= base + self.frac_digits@.subrange(0, 0).map_values(
                |u: u8| char_of_digit(u),
            ));
        }
        let mut k: usize = 0;
        while k < self.frac_digits.len()
            invariant
                k <= self.frac_digits@.len(),
                base == self.int_digits@.map_values(|u: u8| char_of_digit(u)) + seq!['.'],
                s@ == base + self.frac_digits@.subrange(0, k as int).map_values(
                    |u: u8| char_of_digit(u),
                ),
            decreases self.frac_digits@.len() - k,
        {
            crate::strutil::push_char(&mut s, digit_char(self.frac_digits[k]));
            proof {
                assert(base + self.frac_digits@.subrange(0, k as int + 1).map_values(
                    |u: u8| char_of_digit(u),
                ) =~= (base + self.frac_digits@.subrange(0, k as int).map_values(
                    |u: u8| char_of_digit(u),
                )).push(char_of_digit(self.frac_digits@[k as int])));
            }
            k += 1;
        }
        proof {
            assert(self.frac_digits@.subrange(0, self.frac_digits@.len() as int)
                =~= self.frac_digits@);
            assert(s@ =~= dec_chars(self@));
        }
        s
    }
}

impl Clone for Decimal {
    fn clone(&self) -> (d: Self)
        ensures
            d@ == self@,
    {
        Decimal { int_digits: self.int_digits.clone(), frac_digits: self.frac_digits.clone() }
    }
}

} // verus!
