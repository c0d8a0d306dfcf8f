//! The lexer: turns a character sequence into tokens, one at a time.
//!
//! `spec_tok` is the specification: given the input and a cursor position it
//! gives the next token and the cursor position after it.  The executable
//! `Lexer` is proved to follow it exactly.

use crate::decimal::{digits_wf, norm_decimal, Decimal};
use crate::strutil::{push_char, str_eq};
use crate::token::{Token, TokenV};
use vstd::prelude::*;
use vstd::string::StringExecFns;

verus! {

/// The digit values of a run of digit characters.
pub open spec fn digits_of_chars(s: Seq<char>) -> Seq<u8> {
    s.map(|i: int, c: char| digit_val(c))
}

pub open spec fn is_ws_char(c: char) -> bool {
    c == ' ' || c == '\t' || c == '\n' || c == '\r'
}

pub open spec fn is_digit_char(c: char) -> bool {
    48 <= c as u32 && c as u32 <= 57
}

pub open spec fn is_letter_char(c: char) -> bool {
    (65 <= c as u32 && c as u32 <= 90) || (97 <= c as u32 && c as u32 <= 122)
}

pub open spec fn digit_val(c: char) -> u8 {
    ((c as u32) - 48) as u8
}

/// The position of the first `"` at or after `i`, or the input length if
/// there is none.
pub open spec fn quote_end(s: Seq<char>, i: int) -> int
    decreases s.len() - i,
{
    if i >= s.len() {
        s.len() as int
    } else if s[i] == '"' {
        i
    } else {
        quote_end(s, i + 1)
    }
}

/// The end of the run of digits starting at `i`.
pub open spec fn digit_run_end(s: Seq<char>, i: int) -> int
    decreases s.len() - i,
{
    if i >= s.len() {
        i
    } else if is_digit_char(s[i]) {
        digit_run_end(s, i + 1)
    } else {
        i
    }
}

/// The end of the run of digits and decimal points starting at `i`.
pub open spec fn num_run_end(s: Seq<char>, i: int) -> int
    decreases s.len() - i,
{
    if i >= s.len() {
        i
    } else if is_digit_char(s[i]) || s[i] == '.' {
        num_run_end(s, i + 1)
    } else {
        i
    }
}

/// The end of the run of letters starting at `i`.
pub open spec fn word_run_end(s: Seq<char>, i: int) -> int
    decreases s.len() - i,
{
    if i >= s.len() {
        i
    } else if is_letter_char(s[i]) {
        word_run_end(s, i + 1)
    } else {
        i
    }
}

/// The next token of `s` scanned from position `pos`, and the position just
/// after it.  Whitespace is skipped; at the end of the input the token is
/// `Eof` on every call.
pub open spec fn spec_tok(s: Seq<char>, pos: int) -> (TokenV, int)
    decreases s.len() - pos,
{
    if pos < 0 || pos >= s.len() {
        (TokenV::Eof, s.len() as int)
    } else if is_ws_char(s[pos]) {
        spec_tok(s, pos + 1)
    } else if s[pos] == '{' {
        (TokenV::Lbrace, pos + 1)
    } else if s[pos] == '}' {
        (TokenV::Rbrace, pos + 1)
    } else if s[pos] == ',' {
        (TokenV::Comma, pos + 1)
    } else if s[pos] == ':' {
        (TokenV::Colon, pos + 1)
    } else if s[pos] == '"' {
        let q = quote_end(s, pos + 1);
        if q >= s.len() {
            (TokenV::Illegal(s.subrange(pos, s.len() as int)), s.len() as int)
        } else {
            (TokenV::String(s.subrange(pos + 1, q)), q + 1)
        }
    } else if is_digit_char(s[pos]) {
        let ie = digit_run_end(s, pos);
        if ie < s.len() && s[ie] == '.' {
            let fe = digit_run_end(s, ie + 1);
            if fe < s.len() && s[fe] == '.' {
                let e = num_run_end(s, fe);
                (TokenV::Illegal(s.subrange(pos, e)), e)
            } else {
                (
                    TokenV::Number(
                        norm_decimal(
                            digits_of_chars(s.subrange(pos, ie)),
                            digits_of_chars(s.subrange(ie + 1, fe)),
                        ),
                    ),
                    fe,
                )
            }
        } else {
            (
                TokenV::Number(
                    norm_decimal(digits_of_chars(s.subrange(pos, ie)), Seq::<u8>::empty()),
                ),
                ie,
            )
        }
    } else if is_letter_char(s[pos]) {
        let e = word_run_end(s, pos);
        let run = s.subrange(pos, e);
        if run == "String"@ {
            (TokenV::TypeString, e)
        } else if run == "Number"@ {
            (TokenV::TypeNumber, e)
        } else {
            (TokenV::Illegal(run), e)
        }
    } else {
        (TokenV::Illegal(s.subrange(pos, pos + 1)), pos + 1)
    }
}

pub proof fn lemma_quote_end_bounds(s: Seq<char>, i: int)
    requires
        0 <= i <= s.len(),
    ensures
        i <= quote_end(s, i) <= s.len(),
    decreases s.len() - i,
{
    if i < s.len() && s[i] != '"' {
        lemma_quote_end_bounds(s, i + 1);
    }
}

pub proof fn lemma_digit_run_end_bounds(s: Seq<char>, i: int)
    requires
        0 <= i <= s.len(),
    ensures
        i <= digit_run_end(s, i) <= s.len(),
    decreases s.len() - i,
{
    if i < s.len() && is_digit_char(s[i]) {
        lemma_digit_run_end_bounds(s, i + 1);
    }
}

pub proof fn lemma_num_run_end_bounds(s: Seq<char>, i: int)
    requires
        0 <= i <= s.len(),
    ensures
        i <= num_run_end(s, i) <= s.len(),
    decreases s.len() - i,
{
    if i < s.len() && (is_digit_char(s[i]) || s[i] == '.') {
        lemma_num_run_end_bounds(s, i + 1);
    }
}

pub proof fn lemma_word_run_end_bounds(s: Seq<char>, i: int)
    requires
        0 <= i <= s.len(),
    ensures
        i <= word_run_end(s, i) <= s.len(),
    decreases s.len() - i,
{
    if i < s.len() && is_letter_char(s[i]) {
        lemma_word_run_end_bounds(s, i + 1);
    }
}

/// Pins `quote_end` when the first quote's position is known.
pub proof fn lemma_quote_end_at(s: Seq<char>, i: int, j: int)
    requires
        0 <= i <= j < s.len(),
        s[j] == '"',
        forall|k: int| i <= k < j ==> s[k] != '"',
    ensures
        quote_end(s, i) == j,
    decreases j - i,
{
    if i < j {
        lemma_quote_end_at(s, i + 1, j);
    }
}

/// Pins `word_run_end` when the run of letters is known.
pub proof fn lemma_word_run_at(s: Seq<char>, i: int, j: int)
    requires
        0 <= i <= j <= s.len(),
        forall|k: int| i <= k < j ==> is_letter_char(#[trigger] s[k]),
        j == s.len() || !is_letter_char(s[j]),
    ensures
        word_run_end(s, i) == j,
    decreases j - i,
{
    if i < j {
        lemma_word_run_at(s, i + 1, j);
    }
}

/// A quoted run of non-quote characters lexes as a string literal carrying
/// exactly the enclosed text.
pub proof fn lemma_tok_string_at(s: Seq<char>, pos: int, name: Seq<char>)
    requires
        0 <= pos,
        pos + name.len() + 2 <= s.len(),
        s[pos] == '"',
        s[pos + name.len() + 1] == '"',
        forall|k: int| 0 <= k < name.len() ==> s[pos + 1 + k] == #[trigger] name[k],
        forall|k: int| 0 <= k < name.len() ==> #[trigger] name[k] != '"',
    ensures
        spec_tok(s, pos) == (TokenV::String(name), pos + name.len() + 2),
{
    assert forall|k: int| pos + 1 <= k < pos + 1 + name.len() implies #[trigger] s[k] != '"' by {
        assert(s[k] == name[k - pos - 1]);
    };
    lemma_quote_end_at(s, pos + 1, pos + name.len() + 1);
    assert(s.subrange(pos + 1, pos + 1 + name.len()) =~= name);
}

/// Pins `digit_run_end` when the run of digits is known.
pub proof fn lemma_digit_run_at(s: Seq<char>, i: int, j: int)
    requires
        0 <= i <= j <= s.len(),
        forall|k: int| i <= k < j ==> is_digit_char(#[trigger] s[k]),
        j == s.len() || !is_digit_char(s[j]),
    ensures
        digit_run_end(s, i) == j,
    decreases j - i,
{
    if i < j {
        lemma_digit_run_at(s, i + 1, j);
    }
}

/// A digit is recovered from its character.
proof fn lemma_digit_char_inverse(x: u8)
    requires
        x <= 9,
    ensures
        is_digit_char(crate::decimal::char_of_digit(x)),
        digit_val(crate::decimal::char_of_digit(x)) == x,
        !is_ws_char(crate::decimal::char_of_digit(x)),
        crate::decimal::char_of_digit(x) != '{',
        crate::decimal::char_of_digit(x) != '}',
        crate::decimal::char_of_digit(x) != ',',
        crate::decimal::char_of_digit(x) != ':',
        crate::decimal::char_of_digit(x) != '"',
        crate::decimal::char_of_digit(x) != '.',
{
}

/// The written form of a canonical decimal, followed by anything that is
/// neither a digit nor a point, lexes as a number token carrying exactly
/// that decimal.
pub proof fn lemma_tok_number_at(s: Seq<char>, pos: int, d: crate::decimal::DecimalView)
    requires
        d.wf(),
        0 <= pos,
        pos + crate::decimal::dec_chars(d).len() <= s.len(),
        forall|k: int|
            0 <= k < crate::decimal::dec_chars(d).len() ==> s[pos + k] == #[trigger] crate::decimal::dec_chars(
                d,
            )[k],
        pos + crate::decimal::dec_chars(d).len() == s.len() || !(is_digit_char(
            s[pos + crate::decimal::dec_chars(d).len()],
        ) || s[pos + crate::decimal::dec_chars(d).len()] == '.'),
    ensures
        spec_tok(s, pos) == (
            TokenV::Number(d),
            pos + crate::decimal::dec_chars(d).len(),
        ),
{
    let text = crate::decimal::dec_chars(d);
    let ni = d.int_digits.len() as int;
    let ints = d.int_digits.map_values(|u: u8| crate::decimal::char_of_digit(u));
    assert forall|k: int| 0 <= k < ni implies is_digit_char(#[trigger] s[pos + k]) && digit_val(
        s[pos + k],
    ) == d.int_digits[k] by {
        lemma_digit_char_inverse(d.int_digits[k]);
        assert(text[k] == ints[k]);
    };
    assert forall|k: int| pos <= k < pos + ni implies is_digit_char(#[trigger] s[k]) by {
        assert(s[pos + (k - pos)] == text[k - pos]);
        lemma_digit_char_inverse(d.int_digits[k - pos]);
    };
    lemma_digit_char_inverse(d.int_digits[0]);
    assert(s[pos + 0] == text[0]);
    if d.frac_digits.len() == 0 {
        assert(text =~= ints);
        lemma_digit_run_at(s, pos, pos + ni);
        assert(digits_of_chars(s.subrange(pos, pos + ni)) =~= d.int_digits) by {
            assert forall|k: int| 0 <= k < ni implies digits_of_chars(
                s.subrange(pos, pos + ni),
            )[k] == d.int_digits[k] by {
                assert(s.subrange(pos, pos + ni)[k] == s[pos + k]);
            };
        };
        assert(d.frac_digits =~= Seq::<u8>::empty());
        crate::decimal::lemma_norm_canonical(d);
    } else {
        let nf = d.frac_digits.len() as int;
        let fracs = d.frac_digits.map_values(|u: u8| crate::decimal::char_of_digit(u));
        assert(text == ints + seq!['.'] + fracs);
        assert(s[pos + ni] == text[ni]);
        assert(text[ni] == '.');
        lemma_digit_run_at(s, pos, pos + ni);
        assert forall|k: int| pos + ni + 1 <= k < pos + ni + 1 + nf implies is_digit_char(
            #[trigger] s[k],
        ) by {
            assert(s[pos + (k - pos)] == text[k - pos]);
            assert(text[k - pos] == fracs[k - pos - ni - 1]);
            lemma_digit_char_inverse(d.frac_digits[k - pos - ni - 1]);
        };
        lemma_digit_run_at(s, pos + ni + 1, pos + ni + 1 + nf);
        assert(digits_of_chars(s.subrange(pos, pos + ni)) =~= d.int_digits) by {
            assert forall|k: int| 0 <= k < ni implies digits_of_chars(
                s.subrange(pos, pos + ni),
            )[k] == d.int_digits[k] by {
                assert(s.subrange(pos, pos + ni)[k] == s[pos + k]);
            };
        };
        assert(digits_of_chars(s.subrange(pos + ni + 1, pos + ni + 1 + nf))
            =~= d.frac_digits) by {
            assert forall|k: int| 0 <= k < nf implies digits_of_chars(
                s.subrange(pos + ni + 1, pos + ni + 1 + nf),
            )[k] == d.frac_digits[k] by {
                assert(s.subrange(pos + ni + 1, pos + ni + 1 + nf)[k] == s[pos + ni + 1 + k]);
                assert(s[pos + (ni + 1 + k)] == text[ni + 1 + k]);
                assert(text[ni + 1 + k] == fracs[k]);
                lemma_digit_char_inverse(d.frac_digits[k]);
            };
        };
        crate::decimal::lemma_norm_canonical(d);
    }
}

proof fn lemma_digit_run_chars(s: Seq<char>, i: int)
    requires
        0 <= i <= s.len(),
    ensures
        forall|j: int| i <= j < digit_run_end(s, i) ==> is_digit_char(#[trigger] s[j]),
    decreases s.len() - i,
{
    if i < s.len() && is_digit_char(s[i]) {
        lemma_digit_run_chars(s, i + 1);
    }
}

/// Every number token carries a canonical decimal value.
pub proof fn lemma_tok_number_wf(s: Seq<char>, pos: int)
    requires
        0 <= pos <= s.len(),
    ensures
        spec_tok(s, pos).0 matches TokenV::Number(d) ==> d.wf(),
    decreases s.len() - pos,
{
    if pos < s.len() {
        let c = s[pos];
        if is_ws_char(c) {
            lemma_tok_number_wf(s, pos + 1);
        } else if c != '{' && c != '}' && c != ',' && c != ':' && c != '"' && is_digit_char(c) {
            lemma_digit_run_end_bounds(s, pos);
            lemma_digit_run_end_bounds(s, pos + 1);
            lemma_digit_run_chars(s, pos);
            let ie = digit_run_end(s, pos);
            let ints = digits_of_chars(s.subrange(pos, ie));
            assert forall|j: int| 0 <= j < ints.len() implies ints[j] <= 9 by {
                assert(is_digit_char(s.subrange(pos, ie)[j]));
            };
            if ie < s.len() && s[ie] == '.' {
                lemma_digit_run_end_bounds(s, ie + 1);
                lemma_digit_run_chars(s, ie + 1);
                let fe = digit_run_end(s, ie + 1);
                if !(fe < s.len() && s[fe] == '.') {
                    let fracs = digits_of_chars(s.subrange(ie + 1, fe));
                    assert forall|j: int| 0 <= j < fracs.len() implies fracs[j] <= 9 by {
                        assert(is_digit_char(s.subrange(ie + 1, fe)[j]));
                    };
                    crate::decimal::lemma_norm_wf(ints, fracs);
                }
            } else {
                crate::decimal::lemma_norm_wf(ints, Seq::<u8>::empty());
            }
        }
    }
}

/// Scanning a token never moves the cursor backwards or past the end, and
/// moves it strictly forward unless the token is `Eof`.
pub proof fn lemma_tok_advances(s: Seq<char>, pos: int)
    requires
        0 <= pos <= s.len(),
    ensures
        pos <= spec_tok(s, pos).1 <= s.len(),
        spec_tok(s, pos).0 != TokenV::Eof ==> spec_tok(s, pos).1 > pos,
    decreases s.len() - pos,
{
    if pos < s.len() {
        let c = s[pos];
        if is_ws_char(c) {
            lemma_tok_advances(s, pos + 1);
        } else if c == '{' || c == '}' || c == ',' || c == ':' {
        } else if c == '"' {
            lemma_quote_end_bounds(s, pos + 1);
        } else if is_digit_char(c) {
            lemma_digit_run_end_bounds(s, pos + 1);
            let ie = digit_run_end(s, pos);
            if ie < s.len() && s[ie] == '.' {
                lemma_digit_run_end_bounds(s, ie + 1);
                let fe = digit_run_end(s, ie + 1);
                if fe < s.len() && s[fe] == '.' {
                    lemma_num_run_end_bounds(s, fe);
                }
            }
        } else if is_letter_char(c) {
            lemma_word_run_end_bounds(s, pos + 1);
        }
    }
}

/// The lexer: an input and a cursor over it.
pub struct Lexer<'a> {
    pub input: &'a [char],
    pub pos: usize,
}

impl<'a> Lexer<'a> {
    pub open spec fn wf(self) -> bool {
        self.pos <= self.input@.len()
    }

    pub fn new(input: &'a [char]) -> (l: Lexer<'a>)
        ensures
            l.wf(),
            l.input@ == input@,
            l.pos == 0,
    {
        Lexer { input, pos: 0 }
    }

    /// Returns the next token and advances the cursor past it, exactly as
    /// `spec_tok` describes.
    pub fn next_token(&mut self) -> (t: Token)
        requires
            old(self).wf(),
        ensures
            final(self).wf(),
            final(self).input@ == old(self).input@,
            t@ == spec_tok(old(self).input@, old(self).pos as int).0,
            final(self).pos as int == spec_tok(old(self).input@, old(self).pos as int).1,
    {
        let input = self.input;
        let ghost s = input@;
        let ghost p0 = self.pos as int;
        while self.pos < input.len() && is_ws(input[self.pos])
            invariant
                self.pos <= s.len(),
                self.input@ == s,
                input@ == s,
                spec_tok(s, p0) == spec_tok(s, self.pos as int),
            decreases s.len() - self.pos,
        {
            self.pos = self.pos + 1;
        }
        if self.pos >= input.len() {
            return Token::Eof;
        }
        let ghost pc = self.pos as int;
        let c = input[self.pos];
        if c == '{' {
            self.pos = self.pos + 1;
            return Token::Lbrace;
        }
        if c == '}' {
            self.pos = self.pos + 1;
            return Token::Rbrace;
        }
        if c == ',' {
            self.pos = self.pos + 1;
            return Token::Comma;
        }
        if c == ':' {
            self.pos = self.pos + 1;
            return Token::Colon;
        }
        if c == '"' {
            let start = self.pos;
            let mut j = self.pos + 1;
            let mut text = String::new();
            while j < input.len() && input[j] != '"'
                invariant
                    start as int + 1 <= j as int <= s.len(),
                    input@ == s,
                    quote_end(s, start as int + 1) == quote_end(s, j as int),
                    text@ == s.subrange(start as int + 1, j as int),
                decreases s.len() - j,
            {
                push_char(&mut text, input[j]);
                proof {
                    assert(s.subrange(start as int + 1, j as int + 1) =~= s.subrange(
                        start as int + 1,
                        j as int,
                    ).push(s[j as int]));
                }
                j = j + 1;
            }
            if j >= input.len() {
                let mut raw = String::new();
                push_char(&mut raw, '"');
                raw.append(text.as_str());
                proof {
                    assert(raw@ =~= s.subrange(start as int, s.len() as int));
                }
                self.pos = input.len();
                return Token::Illegal(raw);
            }
            self.pos = j + 1;
            return Token::String(text);
        }
        if is_digit(c) {
            let ghost ie = digit_run_end(s, pc);
            let start = self.pos;
            let mut k = self.pos;
            let mut iv: Vec<u8> = Vec::new();
            let mut raw = String::new();
            while k < input.len() && is_digit(input[k])
                invariant
                    start as int <= k as int <= s.len(),
                    input@ == s,
                    digit_run_end(s, start as int) == digit_run_end(s, k as int),
                    iv@ == digits_of_chars(s.subrange(start as int, k as int)),
                    digits_wf(iv@),
                    raw@ == s.subrange(start as int, k as int),
                decreases s.len() - k,
            {
                iv.push(digit_of(input[k]));
                push_char(&mut raw, input[k]);
                proof {
                    assert(s.subrange(start as int, k as int + 1) =~= s.subrange(
                        start as int,
                        k as int,
                    ).push(s[k as int]));
                    assert(digits_of_chars(s.subrange(start as int, k as int + 1))
                        =~= digits_of_chars(s.subrange(start as int, k as int)).push(
                        digit_val(s[k as int]),
                    ));
                }
                k = k + 1;
            }
            proof {
                assert(k as int == ie);
                assert(iv@.len() == ie - start as int);
            }
            if k < input.len() && input[k] == '.' {
                let ghost fe = digit_run_end(s, ie + 1);
                push_char(&mut raw, '.');
                k = k + 1;
                let ghost fstart = k as int;
                let mut fv: Vec<u8> = Vec::new();
                while k < input.len() && is_digit(input[k])
                    invariant
                        fstart == ie + 1,
                        0 <= start as int <= ie,
                        fstart <= k as int <= s.len(),
                        input@ == s,
                        digit_run_end(s, fstart) == digit_run_end(s, k as int),
                        fv@ == digits_of_chars(s.subrange(fstart, k as int)),
                        digits_wf(fv@),
                        iv@.len() >= 1,
                        digits_wf(iv@),
                        raw@ == s.subrange(start as int, k as int),
                    decreases s.len() - k,
                {
                    fv.push(digit_of(input[k]));
                    push_char(&mut raw, input[k]);
                    proof {
                        assert(s.subrange(start as int, k as int + 1) =~= s.subrange(
                            start as int,
                            k as int,
                        ).push(s[k as int]));
                        assert(s.subrange(fstart, k as int + 1) =~= s.subrange(
                            fstart,
                            k as int,
                        ).push(s[k as int]));
                        assert(digits_of_chars(s.subrange(fstart, k as int + 1))
                            =~= digits_of_chars(s.subrange(fstart, k as int)).push(
                            digit_val(s[k as int]),
                        ));
                    }
                    k = k + 1;
                }
                proof {
                    assert(k as int == fe);
                }
                if k < input.len() && input[k] == '.' {
                    while k < input.len() && (is_digit(input[k]) || input[k] == '.')
                        invariant
                            0 <= start as int <= fe,
                            fe <= k as int <= s.len(),
                            input@ == s,
                            num_run_end(s, fe) == num_run_end(s, k as int),
                            raw@ == s.subrange(start as int, k as int),
                        decreases s.len() - k,
                    {
                        push_char(&mut raw, input[k]);
                        proof {
                            assert(s.subrange(start as int, k as int + 1) =~= s.subrange(
                                start as int,
                                k as int,
                            ).push(s[k as int]));
                        }
                        k = k + 1;
                    }
                    self.pos = k;
                    return Token::Illegal(raw);
                }
                proof {
                    assert(digits_wf(iv@));
                    assert(digits_wf(fv@));
                    assert(iv@.len() >= 1);
                }
                let d = Decimal::new(iv, fv);
                self.pos = k;
                return Token::Number(d);
            }
            proof {
                assert(digits_wf(iv@));
                assert(iv@.len() >= 1);
            }
            let fv: Vec<u8> = Vec::new();
            let d = Decimal::new(iv, fv);
            self.pos = k;
            return Token::Number(d);
        }
        if is_letter(c) {
            let ghost we = word_run_end(s, pc);
            let start = self.pos;
            let mut k = self.pos;
            let mut raw = String::new();
            while k < input.len() && is_letter(input[k])
                invariant
                    start as int <= k as int <= s.len(),
                    input@ == s,
                    word_run_end(s, start as int) == word_run_end(s, k as int),
                    raw@ == s.subrange(start as int, k as int),
                decreases s.len() - k,
            {
                push_char(&mut raw, input[k]);
                proof {
                    assert(s.subrange(start as int, k as int + 1) =~= s.subrange(
                        start as int,
                        k as int,
                    ).push(s[k as int]));
                }
                k = k + 1;
            }
            self.pos = k;
            if str_eq(raw.as_str(), "String") {
                return Token::TypeString;
            }
            if str_eq(raw.as_str(), "Number") {
                return Token::TypeNumber;
            }
            return Token::Illegal(raw);
        }
        let mut raw = String::new();
        push_char(&mut raw, c);
        proof {
            assert(raw@ =~= s.subrange(pc, pc + 1));
        }
        self.pos = self.pos + 1;
        Token::Illegal(raw)
    }
}

fn is_ws(c: char) -> (b: bool)
    ensures
        b == is_ws_char(c),
{
    c == ' ' || c == '\t' || c == '\n' || c == '\r'
}

fn is_digit(c: char) -> (b: bool)
    ensures
        b == is_digit_char(c),
{
    let u = c as u32;
    48 <= u && u <= 57
}

fn is_letter(c: char) -> (b: bool)
    ensures
        b == is_letter_char(c),
{
    let u = c as u32;
    (65 <= u && u <= 90) || (97 <= u && u <= 122)
}

fn digit_of(c: char) -> (d: u8)
    requires
        is_digit_char(c),
    ensures
        d == digit_val(c),
        d <= 9,
{
    ((c as u32) - 48) as u8
}

} // verus!
