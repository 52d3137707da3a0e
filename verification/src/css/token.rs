//! Character-level CSS tokenizer.
//!
//! A single linear scan over the stylesheet text: whitespace is skipped and
//! never tokenized, quoted strings run to the matching quote, digits start a
//! numeric token, `#` starts a hash token that keeps its `#`, `-`, letters
//! and `_` start identifiers, and `@` followed by three letters starts an
//! at-keyword. The spec functions below give the scan's meaning; `next` is
//! proved to follow them exactly.

use vstd::prelude::*;

use crate::text::digit_of;
use crate::text::digit_value;
use crate::text::is_alpha_char;
use crate::text::is_digit_char;
use crate::text::alpha_char;
use crate::text::digit_char;
use crate::text::chars_of;
use crate::text::push_char;

verus! {

/// A numeric token's value, kept exact: `integer` plus `fraction` scaled
/// down by `frac_digits` decimal places. Digits that would overflow the
/// accumulators are ignored, which caps the precision instead of failing.
#[derive(Debug, Clone, Copy, PartialEq, Eq, Structural)]
pub struct CssNumber {
    pub integer: u64,
    pub fraction: u64,
    pub frac_digits: u64,
}

#[derive(Debug, PartialEq)]
pub enum CssToken {
    HashToken(String),
    Delim(char),
    Number(CssNumber),
    Colon,
    SemiColon,
    OpenParenthesis,
    CloseParenthesis,
    OpenCurly,
    CloseCurly,
    Ident(String),
    StringToken(String),
    AtKeyword(String),
}

impl Clone for CssToken {
    fn clone(&self) -> (r: Self)
        ensures
            r == *self,
    {
        match self {
            CssToken::HashToken(x) => CssToken::HashToken(x.clone()),
            CssToken::Delim(c) => CssToken::Delim(*c),
            CssToken::Number(n) => CssToken::Number(*n),
            CssToken::Colon => CssToken::Colon,
            CssToken::SemiColon => CssToken::SemiColon,
            CssToken::OpenParenthesis => CssToken::OpenParenthesis,
            CssToken::CloseParenthesis => CssToken::CloseParenthesis,
            CssToken::OpenCurly => CssToken::OpenCurly,
            CssToken::CloseCurly => CssToken::CloseCurly,
            CssToken::Ident(x) => CssToken::Ident(x.clone()),
            CssToken::StringToken(x) => CssToken::StringToken(x.clone()),
            CssToken::AtKeyword(x) => CssToken::AtKeyword(x.clone()),
        }
    }
}

/// Mathematical counterpart of a token, over character sequences.
pub enum CssTok {
    Hash(Seq<char>),
    Delim(char),
    Number(CssNumber),
    Colon,
    SemiColon,
    OpenParenthesis,
    CloseParenthesis,
    OpenCurly,
    CloseCurly,
    Ident(Seq<char>),
    Str(Seq<char>),
    AtKeyword(Seq<char>),
}

impl View for CssToken {
    type V = CssTok;

    open spec fn view(&self) -> CssTok {
        match self {
            CssToken::HashToken(x) => CssTok::Hash(x@),
            CssToken::Delim(c) => CssTok::Delim(*c),
            CssToken::Number(n) => CssTok::Number(*n),
            CssToken::Colon => CssTok::Colon,
            CssToken::SemiColon => CssTok::SemiColon,
            CssToken::OpenParenthesis => CssTok::OpenParenthesis,
            CssToken::CloseParenthesis => CssTok::CloseParenthesis,
            CssToken::OpenCurly => CssTok::OpenCurly,
            CssToken::CloseCurly => CssTok::CloseCurly,
            CssToken::Ident(x) => CssTok::Ident(x@),
            CssToken::StringToken(x) => CssTok::Str(x@),
            CssToken::AtKeyword(x) => CssTok::AtKeyword(x@),
        }
    }
}

/// Identifier characters: letters, digits, `-`, `_`.
pub open spec fn is_ident_char(c: char) -> bool {
    is_alpha_char(c) || is_digit_char(c) || c == '-' || c == '_'
}

/// First position at or after `i` that holds neither a space nor a newline.
pub open spec fn skip_ws(s: Seq<char>, i: int) -> int
    decreases s.len() - i,
{
    if 0 <= i < s.len() && (s[i] == ' ' || s[i] == '\n') {
        skip_ws(s, i + 1)
    } else {
        i
    }
}

/// First position at or after `i` whose character ends an identifier.
pub open spec fn ident_end(s: Seq<char>, i: int) -> int
    decreases s.len() - i,
{
    if 0 <= i < s.len() && is_ident_char(s[i]) {
        ident_end(s, i + 1)
    } else {
        i
    }
}

/// First position at or after `i` holding the quote `q`, or the end.
pub open spec fn string_end(s: Seq<char>, q: char, i: int) -> int
    decreases s.len() - i,
{
    if i >= s.len() {
        i
    } else if s[i] == q {
        i
    } else {
        string_end(s, q, i + 1)
    }
}

/// Running state of the numeric scan: the accumulated value and whether the
/// decimal point has been passed.
#[derive(Clone, Copy)]
pub struct NumAcc {
    pub num: CssNumber,
    pub floating: bool,
}

pub open spec fn num_start() -> NumAcc {
    NumAcc { num: CssNumber { integer: 0, fraction: 0, frac_digits: 0 }, floating: false }
}

/// One character of the numeric scan. A digit extends the integer or the
/// fraction accumulator unless that would overflow, in which case it is
/// dropped; `.` switches to the fraction.
pub open spec fn num_step(a: NumAcc, c: char) -> NumAcc {
    if c == '.' {
        NumAcc { num: a.num, floating: true }
    } else if a.floating {
        if a.num.fraction <= (0xffff_ffff_ffff_ffffu64 - digit_value(c)) / 10
            && a.num.frac_digits < 0xffff_ffff_ffff_ffffu64 {
            NumAcc {
                num: CssNumber {
                    integer: a.num.integer,
                    fraction: (a.num.fraction * 10 + digit_value(c)) as u64,
                    frac_digits: (a.num.frac_digits + 1) as u64,
                },
                floating: true,
            }
        } else {
            a
        }
    } else {
        if a.num.integer <= (0xffff_ffff_ffff_ffffu64 - digit_value(c)) / 10 {
            NumAcc {
                num: CssNumber {
                    integer: (a.num.integer * 10 + digit_value(c)) as u64,
                    fraction: a.num.fraction,
                    frac_digits: a.num.frac_digits,
                },
                floating: a.floating,
            }
        } else {
            a
        }
    }
}

/// The numeric scan from position `i`: folds `num_step` over the digits and
/// dots and reports where it stopped.
pub open spec fn num_scan(s: Seq<char>, i: int, a: NumAcc) -> (NumAcc, int)
    decreases s.len() - i,
{
    if 0 <= i < s.len() && (is_digit_char(s[i]) || s[i] == '.') {
        num_scan(s, i + 1, num_step(a, s[i]))
    } else {
        (a, i)
    }
}

/// Outcome of one tokenizing step: a token and the position after it, the
/// end of the input, or a character the scanner cannot classify.
pub enum CssStep {
    Tok(CssTok, int),
    End,
    Fault,
}

/// The token starting at position `i` (after whitespace), as the scan rules
/// of this tokenizer define it.
pub open spec fn css_next(s: Seq<char>, i: int) -> CssStep {
    let j = skip_ws(s, i);
    if j < 0 || j >= s.len() {
        CssStep::End
    } else {
        let c = s[j];
        if c == '(' {
            CssStep::Tok(CssTok::OpenParenthesis, j + 1)
        } else if c == ')' {
            CssStep::Tok(CssTok::CloseParenthesis, j + 1)
        } else if c == ',' || c == '.' {
            CssStep::Tok(CssTok::Delim(c), j + 1)
        } else if c == ':' {
            CssStep::Tok(CssTok::Colon, j + 1)
        } else if c == ';' {
            CssStep::Tok(CssTok::SemiColon, j + 1)
        } else if c == '{' {
            CssStep::Tok(CssTok::OpenCurly, j + 1)
        } else if c == '}' {
            CssStep::Tok(CssTok::CloseCurly, j + 1)
        } else if c == '"' || c == '\'' {
            let e = string_end(s, c, j + 1);
            CssStep::Tok(
                CssTok::Str(s.subrange(j + 1, e)),
                if e < s.len() {
                    e + 1
                } else {
                    e
                },
            )
        } else if is_digit_char(c) {
            let (a, e) = num_scan(s, j, num_start());
            CssStep::Tok(CssTok::Number(a.num), e)
        } else if c == '#' {
            CssStep::Tok(CssTok::Hash(s.subrange(j, ident_end(s, j + 1))), ident_end(s, j + 1))
        } else if c == '-' {
            CssStep::Tok(CssTok::Ident(s.subrange(j, ident_end(s, j + 1))), ident_end(s, j + 1))
        } else if c == '@' {
            if j + 3 < s.len() && is_alpha_char(s[j + 1]) && is_alpha_char(s[j + 2])
                && is_alpha_char(s[j + 3]) {
                CssStep::Tok(
                    CssTok::AtKeyword(s.subrange(j + 1, ident_end(s, j + 2))),
                    ident_end(s, j + 2),
                )
            } else {
                CssStep::Tok(CssTok::Delim('@'), j + 1)
            }
        } else if is_alpha_char(c) || c == '_' {
            CssStep::Tok(CssTok::Ident(s.subrange(j, ident_end(s, j + 1))), ident_end(s, j + 1))
        } else {
            CssStep::Fault
        }
    }
}

pub proof fn lemma_skip_ws_bounds(s: Seq<char>, i: int)
    requires
        0 <= i <= s.len(),
    ensures
        i <= skip_ws(s, i) <= s.len(),
    decreases s.len() - i,
{
    if 0 <= i < s.len() && (s[i] == ' ' || s[i] == '\n') {
        lemma_skip_ws_bounds(s, i + 1);
    }
}

pub proof fn lemma_skip_ws_idem(s: Seq<char>, i: int)
    ensures
        skip_ws(s, skip_ws(s, i)) == skip_ws(s, i),
    decreases s.len() - i,
{
    if 0 <= i < s.len() && (s[i] == ' ' || s[i] == '\n') {
        lemma_skip_ws_idem(s, i + 1);
    }
}

/// Skipping whitespace first does not change what the next token is.
pub proof fn lemma_skip_ws_fixed(s: Seq<char>, i: int)
    ensures
        css_next(s, skip_ws(s, i)) == css_next(s, i),
{
    lemma_skip_ws_idem(s, i);
}

pub proof fn lemma_ident_end_bounds(s: Seq<char>, i: int)
    requires
        0 <= i <= s.len(),
    ensures
        i <= ident_end(s, i) <= s.len(),
    decreases s.len() - i,
{
    if 0 <= i < s.len() && is_ident_char(s[i]) {
        lemma_ident_end_bounds(s, i + 1);
    }
}

pub proof fn lemma_string_end_bounds(s: Seq<char>, q: char, i: int)
    requires
        0 <= i <= s.len(),
    ensures
        i <= string_end(s, q, i) <= s.len(),
    decreases s.len() - i,
{
    if i < s.len() && s[i] != q {
        lemma_string_end_bounds(s, q, i + 1);
    }
}

pub proof fn lemma_num_scan_bounds(s: Seq<char>, i: int, a: NumAcc)
    requires
        0 <= i <= s.len(),
    ensures
        i <= num_scan(s, i, a).1 <= s.len(),
    decreases s.len() - i,
{
    if 0 <= i < s.len() && (is_digit_char(s[i]) || s[i] == '.') {
        lemma_num_scan_bounds(s, i + 1, num_step(a, s[i]));
    }
}

/// A produced token always covers at least one character and never runs
/// past the end of the input.
pub proof fn lemma_css_next_progress(s: Seq<char>, i: int)
    ensures
        match css_next(s, i) {
            CssStep::Tok(t, p) => 0 <= i < p <= s.len(),
            _ => true,
        },
{
    if 0 <= i && i <= s.len() {
        lemma_skip_ws_bounds(s, i);
        let j = skip_ws(s, i);
        if j < s.len() {
            lemma_ident_end_bounds(s, j + 1);
            lemma_string_end_bounds(s, s[j], j + 1);
            lemma_num_scan_bounds(s, j + 1, num_step(num_start(), s[j]));
            if j + 3 < s.len() {
                lemma_ident_end_bounds(s, j + 2);
            }
        }
    } else if i > s.len() {
        assert(skip_ws(s, i) == i);
    }
}

/// A hash token always keeps its leading `#`.
pub proof fn lemma_hash_shape(s: Seq<char>, i: int)
    ensures
        css_next(s, i) matches CssStep::Tok(CssTok::Hash(v), p) ==> v.len() >= 1,
{
    let j = skip_ws(s, i);
    if 0 <= j && j + 1 <= s.len() {
        lemma_ident_end_bounds(s, j + 1);
    }
}

/// Scanner state: the input characters and the cursor.
pub struct LexState {
    pub input: Seq<char>,
    pub pos: int,
}

#[derive(Debug, Clone, PartialEq)]
pub struct CssTokenizer {
    pos: usize,
    input: Vec<char>,
}

impl View for CssTokenizer {
    type V = LexState;

    closed spec fn view(&self) -> LexState {
        LexState { input: self.input@, pos: self.pos as int }
    }
}

impl CssTokenizer {
    pub fn new(css: String) -> (r: Self)
        ensures
            r@.input == css@,
            r@.pos == 0,
    {
        Self { pos: 0, input: chars_of(css.as_str()) }
    }

    /// The quoted run that starts at the cursor: everything up to the quote
    /// character the cursor points at, which is consumed as well.
    fn consume_string_token(&mut self) -> (r: String)
        requires
            old(self)@.pos < old(self)@.input.len(),
        ensures
            final(self)@.input == old(self)@.input,
            ({
                let s = old(self)@.input;
                let q0 = old(self)@.pos;
                let e = string_end(s, s[q0], q0 + 1);
                &&& r@ == s.subrange(q0 + 1, e)
                &&& final(self)@.pos == (if e < s.len() {
                    e + 1
                } else {
                    e
                })
            }),
    {
        let ghost s = self.input@;
        let ghost q0 = self.pos as int;
        let q = self.input[self.pos];
        let len = self.input.len();
        let mut out = String::new();
        let mut i: usize = self.pos + 1;
        proof {
            assert(out@ =~= s.subrange(q0 + 1, q0 + 1));
        }
        loop
            invariant
                s == old(self)@.input,
                q0 == old(self)@.pos,
                self.input@ == s,
                len == s.len(),
                q == s[q0],
                0 <= q0 < s.len(),
                q0 + 1 <= i <= len,
                string_end(s, q, q0 + 1) == string_end(s, q, i as int),
                out@ == s.subrange(q0 + 1, i as int),
            decreases len - i,
        {
            if i >= len {
                self.pos = i;
                return out;
            }
            let c = self.input[i];
            if c == q {
                self.pos = i + 1;
                return out;
            }
            push_char(&mut out, c);
            proof {
                assert(out@ =~= s.subrange(q0 + 1, i + 1));
            }
            i = i + 1;
        }
    }

    /// The identifier that starts at the cursor. Its first character is
    /// taken as it stands; letters, digits, `-` and `_` extend it.
    fn consume_ident_token(&mut self) -> (r: String)
        requires
            old(self)@.pos < old(self)@.input.len(),
        ensures
            final(self)@.input == old(self)@.input,
            ({
                let s = old(self)@.input;
                let p0 = old(self)@.pos;
                let e = ident_end(s, p0 + 1);
                &&& r@ == s.subrange(p0, e)
                &&& final(self)@.pos == e
            }),
    {
        let ghost s = self.input@;
        let ghost p0 = self.pos as int;
        let len = self.input.len();
        let mut out = String::new();
        push_char(&mut out, self.input[self.pos]);
        let mut i: usize = self.pos + 1;
        proof {
            assert(out@ =~= s.subrange(p0, p0 + 1));
        }
        loop
            invariant
                s == old(self)@.input,
                p0 == old(self)@.pos,
                self.input@ == s,
                len == s.len(),
                0 <= p0 < s.len(),
                p0 + 1 <= i <= len,
                ident_end(s, p0 + 1) == ident_end(s, i as int),
                out@ == s.subrange(p0, i as int),
            decreases len - i,
        {
            if i >= len {
                self.pos = i;
                return out;
            }
            let c = self.input[i];
            if !(alpha_char(c) || digit_char(c) || c == '-' || c == '_') {
                self.pos = i;
                return out;
            }
            push_char(&mut out, c);
            proof {
                assert(out@ =~= s.subrange(p0, i + 1));
            }
            i = i + 1;
        }
    }

    /// The numeric token that starts at the cursor: digits accumulate the
    /// integer part, a `.` switches to the fraction.
    fn consume_numeric_token(&mut self) -> (r: CssNumber)
        requires
            old(self)@.pos < old(self)@.input.len(),
        ensures
            final(self)@.input == old(self)@.input,
            ({
                let outcome = num_scan(old(self)@.input, old(self)@.pos, num_start());
                &&& r == outcome.0.num
                &&& final(self)@.pos == outcome.1
            }),
    {
        let ghost s = self.input@;
        let ghost p0 = self.pos as int;
        let len = self.input.len();
        let mut acc = NumAcc { num: CssNumber { integer: 0, fraction: 0, frac_digits: 0 }, floating: false };
        let mut i: usize = self.pos;
        loop
            invariant
                s == old(self)@.input,
                p0 == old(self)@.pos,
                self.input@ == s,
                len == s.len(),
                0 <= p0 <= i <= len,
                num_scan(s, p0, num_start()) == num_scan(s, i as int, acc),
            decreases len - i,
        {
            if i >= len {
                self.pos = i;
                return acc.num;
            }
            let c = self.input[i];
            if c == '.' {
                acc = NumAcc { num: acc.num, floating: true };
            } else if digit_char(c) {
                let d = digit_of(c);
                if acc.floating {
                    if acc.num.fraction <= (0xffff_ffff_ffff_ffffu64 - d) / 10
                        && acc.num.frac_digits < 0xffff_ffff_ffff_ffffu64 {
                        proof {
                            assert(acc.num.fraction * 10 + d <= 0xffff_ffff_ffff_ffffu64)
                                by (nonlinear_arith)
                                requires
                                    acc.num.fraction <= (0xffff_ffff_ffff_ffffu64 - d) / 10,
                                    0 <= d <= 9,
                            ;
                        }
                        acc = NumAcc {
                            num: CssNumber {
                                integer: acc.num.integer,
                                fraction: acc.num.fraction * 10 + d,
                                frac_digits: acc.num.frac_digits + 1,
                            },
                            floating: true,
                        };
                    }
                } else {
                    if acc.num.integer <= (0xffff_ffff_ffff_ffffu64 - d) / 10 {
                        proof {
                            assert(acc.num.integer * 10 + d <= 0xffff_ffff_ffff_ffffu64)
                                by (nonlinear_arith)
                                requires
                                    acc.num.integer <= (0xffff_ffff_ffff_ffffu64 - d) / 10,
                                    0 <= d <= 9,
                            ;
                        }
                        acc = NumAcc {
                            num: CssNumber {
                                integer: acc.num.integer * 10 + d,
                                fraction: acc.num.fraction,
                                frac_digits: acc.num.frac_digits,
                            },
                            floating: false,
                        };
                    }
                }
            } else {
                self.pos = i;
                return acc.num;
            }
            i = i + 1;
        }
    }

    /// Moves the cursor past spaces and newlines.
    fn skip_whitespace(&mut self)
        ensures
            final(self)@.input == old(self)@.input,
            final(self)@.pos == skip_ws(old(self)@.input, old(self)@.pos),
            final(self)@.pos < old(self)@.input.len() ==> {
                let c = old(self)@.input[final(self)@.pos];
                c != ' ' && c != '\n'
            },
    {
        let ghost s = self.input@;
        let ghost p0 = self.pos as int;
        while self.pos < self.input.len() && (self.input[self.pos] == ' ' || self.input[self.pos]
            == '\n')
            invariant
                s == old(self)@.input,
                p0 == old(self)@.pos,
                self.input@ == s,
                p0 <= self.pos,
                skip_ws(s, p0) == skip_ws(s, self.pos as int),
            decreases s.len() - self.pos,
        {
            self.pos = self.pos + 1;
        }
    }

    /// The next token of the stylesheet text, or nothing once the input is
    /// exhausted. Inputs that reach an unclassifiable character are ruled
    /// out by the precondition.
    pub fn next(&mut self) -> (r: Option<CssToken>)
        requires
            !(css_next(old(self)@.input, old(self)@.pos) is Fault),
        ensures
            final(self)@.input == old(self)@.input,
            match css_next(old(self)@.input, old(self)@.pos) {
                CssStep::End => r is None && final(self)@.pos == skip_ws(
                    old(self)@.input,
                    old(self)@.pos,
                ),
                CssStep::Tok(t, p) => r is Some && r->0@ == t && final(self)@.pos == p,
                CssStep::Fault => false,
            },
    {
        let ghost s = self.input@;
        let ghost p0 = self.pos as int;
        self.skip_whitespace();
        let len = self.input.len();
        if self.pos >= len {
            return None;
        }
        let ghost j = self.pos as int;
        let c = self.input[self.pos];
        let token: CssToken = if c == '(' {
            self.pos = self.pos + 1;
            CssToken::OpenParenthesis
        } else if c == ')' {
            self.pos = self.pos + 1;
            CssToken::CloseParenthesis
        } else if c == ',' || c == '.' {
            self.pos = self.pos + 1;
            CssToken::Delim(c)
        } else if c == ':' {
            self.pos = self.pos + 1;
            CssToken::Colon
        } else if c == ';' {
            self.pos = self.pos + 1;
            CssToken::SemiColon
        } else if c == '{' {
            self.pos = self.pos + 1;
            CssToken::OpenCurly
        } else if c == '}' {
            self.pos = self.pos + 1;
            CssToken::CloseCurly
        } else if c == '"' || c == '\'' {
            CssToken::StringToken(self.consume_string_token())
        } else if digit_char(c) {
            CssToken::Number(self.consume_numeric_token())
        } else if c == '#' {
            CssToken::HashToken(self.consume_ident_token())
        } else if c == '-' {
            CssToken::Ident(self.consume_ident_token())
        } else if c == '@' {
            if len - self.pos > 3 && alpha_char(self.input[self.pos + 1]) && alpha_char(
                self.input[self.pos + 2],
            ) && alpha_char(self.input[self.pos + 3]) {
                self.pos = self.pos + 1;
                CssToken::AtKeyword(self.consume_ident_token())
            } else {
                self.pos = self.pos + 1;
                CssToken::Delim('@')
            }
        } else if alpha_char(c) || c == '_' {
            CssToken::Ident(self.consume_ident_token())
        } else {
            proof {
                assert(css_next(s, p0) is Fault);
            }
            return None;
        };
        Some(token)
    }
}

} // verus!
