//! Recursive-descent CSS parser: an ordered rule list from a token stream.
//!
//! The grammar is deliberately small: a rule is one selector followed by a
//! `{}` block of `property: value` declarations, a value is exactly one
//! token. Malformed pieces degrade: at-rules are scanned and dropped,
//! pseudo-class syntax is skipped, declarations without a colon are
//! abandoned, a truncated trailing rule is discarded. The `parse_*` spec
//! functions define the outcome; the parser is proved to produce it.

use vstd::prelude::*;

use crate::css::token::CssStep;
use crate::css::token::CssTok;
use crate::css::token::CssToken;
use crate::css::token::CssTokenizer;
use crate::css::token::css_next;
use crate::css::token::lemma_css_next_progress;
use crate::css::token::lemma_hash_shape;

verus! {

/// A component value is a single CSS token.
pub type ComponentValue = CssToken;

#[derive(Debug, Clone, PartialEq, Eq)]
pub enum Selector {
    TypeSelector(String),
    ClassSelector(String),
    IdSelector(String),
    UnknownSelector,
}

#[derive(Debug, Clone, PartialEq)]
pub struct Declaration {
    pub property: String,
    pub value: ComponentValue,
}

#[derive(Debug, Clone, PartialEq)]
pub struct QualifiedRule {
    pub selector: Selector,
    pub declarations: Vec<Declaration>,
}

#[derive(Debug, Clone, PartialEq)]
pub struct StyleSheet {
    pub rules: Vec<QualifiedRule>,
}

/// Mathematical counterparts of the rule model.
pub enum SelectorV {
    Type(Seq<char>),
    Class(Seq<char>),
    Id(Seq<char>),
    Unknown,
}

pub struct DeclV {
    pub property: Seq<char>,
    pub value: CssTok,
}

pub struct RuleV {
    pub selector: SelectorV,
    pub declarations: Seq<DeclV>,
}

impl View for Selector {
    type V = SelectorV;

    open spec fn view(&self) -> SelectorV {
        match self {
            Selector::TypeSelector(x) => SelectorV::Type(x@),
            Selector::ClassSelector(x) => SelectorV::Class(x@),
            Selector::IdSelector(x) => SelectorV::Id(x@),
            Selector::UnknownSelector => SelectorV::Unknown,
        }
    }
}

impl View for Declaration {
    type V = DeclV;

    open spec fn view(&self) -> DeclV {
        DeclV { property: self.property@, value: self.value@ }
    }
}

pub open spec fn decls_view(v: Seq<Declaration>) -> Seq<DeclV> {
    v.map_values(|d: Declaration| d@)
}

impl View for QualifiedRule {
    type V = RuleV;

    open spec fn view(&self) -> RuleV {
        RuleV { selector: self.selector@, declarations: decls_view(self.declarations@) }
    }
}

pub open spec fn rules_view(v: Seq<QualifiedRule>) -> Seq<RuleV> {
    v.map_values(|r: QualifiedRule| r@)
}

impl View for StyleSheet {
    type V = Seq<RuleV>;

    open spec fn view(&self) -> Seq<RuleV> {
        rules_view(self.rules@)
    }
}

/// No unclassifiable character is reached when tokenizing from `i` on.
pub open spec fn css_ok(s: Seq<char>, i: int) -> bool
    decreases s.len() - i,
    via css_ok_dec
{
    match css_next(s, i) {
        CssStep::Fault => false,
        CssStep::End => true,
        CssStep::Tok(t, p) => css_ok(s, p),
    }
}

#[via_fn]
proof fn css_ok_dec(s: Seq<char>, i: int) {
    lemma_css_next_progress(s, i);
}

/// A fault-free stream has a classifiable next step, and stays fault-free
/// after it.
pub proof fn lemma_css_ok_step(s: Seq<char>, i: int)
    requires
        css_ok(s, i),
    ensures
        !(css_next(s, i) is Fault),
        css_next(s, i) matches CssStep::Tok(t, p) ==> css_ok(s, p),
{
    reveal_with_fuel(css_ok, 1);
}

/// An ended stream is trivially fault-free.
pub proof fn lemma_css_ok_end(s: Seq<char>, i: int)
    requires
        css_next(s, i) is End,
    ensures
        css_ok(s, i),
{
    reveal_with_fuel(css_ok, 1);
}

/// Fault-freedom is the same from two positions that agree on the next
/// token.
pub proof fn lemma_css_ok_agree(s: Seq<char>, a: int, b: int)
    requires
        css_next(s, a) == css_next(s, b),
    ensures
        css_ok(s, a) == css_ok(s, b),
{
    reveal_with_fuel(css_ok, 1);
}

/// An identifier token taken off the stream; any other token is consumed
/// and reported as a failure, an ended stream is left alone.
pub open spec fn parse_ident(s: Seq<char>, i: int) -> (Option<Seq<char>>, int) {
    match css_next(s, i) {
        CssStep::Tok(t, p) => match t {
            CssTok::Ident(name) => (Some(name), p),
            _ => (None, p),
        },
        _ => (None, i),
    }
}

/// Position just before the next `{`, or the stream's end.
pub open spec fn skip_to_curly(s: Seq<char>, i: int) -> int
    decreases s.len() - i,
    via skip_to_curly_dec
{
    match css_next(s, i) {
        CssStep::Tok(t, p) => match t {
            CssTok::OpenCurly => i,
            _ => skip_to_curly(s, p),
        },
        _ => i,
    }
}

#[via_fn]
proof fn skip_to_curly_dec(s: Seq<char>, i: int) {
    lemma_css_next_progress(s, i);
}

/// One selector taken off the stream. A hash token names an id selector
/// without its `#`; `.` takes the following identifier as a class name; an
/// identifier is a type selector, with any `:pseudo-class` tail skipped up
/// to the `{`; an at-keyword skips to the `{` and yields no usable
/// selector; anything else is one consumed token and no usable selector.
pub open spec fn parse_selector(s: Seq<char>, i: int) -> (SelectorV, int) {
    match css_next(s, i) {
        CssStep::Tok(t, p) => match t {
            CssTok::Hash(v) => (SelectorV::Id(v.subrange(1, v.len() as int)), p),
            CssTok::Delim(d) => if d == '.' {
                match parse_ident(s, p) {
                    (Some(name), p2) => (SelectorV::Class(name), p2),
                    (None, p2) => (SelectorV::Unknown, p2),
                }
            } else {
                (SelectorV::Unknown, p)
            },
            CssTok::Ident(name) => if css_next(s, p) matches CssStep::Tok(CssTok::Colon, _) {
                (SelectorV::Type(name), skip_to_curly(s, p))
            } else {
                (SelectorV::Type(name), p)
            },
            CssTok::AtKeyword(v) => (SelectorV::Unknown, skip_to_curly(s, p)),
            _ => (SelectorV::Unknown, p),
        },
        _ => (SelectorV::Unknown, i),
    }
}

/// One declaration attempt: `identifier : component-value`. A missing colon
/// or a stream that ends too early abandons the attempt.
pub open spec fn parse_declaration(s: Seq<char>, i: int) -> (Option<DeclV>, int) {
    match parse_ident(s, i) {
        (Some(prop), p) => match css_next(s, p) {
            CssStep::Tok(t, p2) => match t {
                CssTok::Colon => match css_next(s, p2) {
                    CssStep::Tok(v, p3) => (Some(DeclV { property: prop, value: v }), p3),
                    _ => (None, p2),
                },
                _ => (None, p2),
            },
            _ => (None, p),
        },
        (None, p) => (None, p),
    }
}

/// The declaration list of a block: ends at `}` (consumed) or at the end of
/// the stream; `;` separates; an identifier starts a declaration attempt;
/// anything else is skipped.
pub open spec fn parse_declarations(s: Seq<char>, i: int) -> (Seq<DeclV>, int)
    decreases s.len() - i,
    via parse_declarations_dec
{
    match css_next(s, i) {
        CssStep::Tok(t, p) => match t {
            CssTok::CloseCurly => (Seq::<DeclV>::empty(), p),
            CssTok::SemiColon => parse_declarations(s, p),
            CssTok::Ident(name) => {
                let (d, p2) = parse_declaration(s, i);
                let (rest, p3) = parse_declarations(s, p2);
                match d {
                    Some(dv) => (seq![dv] + rest, p3),
                    None => (rest, p3),
                }
            },
            _ => parse_declarations(s, p),
        },
        _ => (Seq::<DeclV>::empty(), i),
    }
}

#[via_fn]
proof fn parse_declarations_dec(s: Seq<char>, i: int) {
    lemma_css_next_progress(s, i);
    lemma_parse_declaration_progress(s, i);
}

/// One qualified rule: selectors are consumed (the last one written wins)
/// until a `{` opens the declaration block; a stream that ends before the
/// `{` yields no rule.
pub open spec fn parse_qualified_rule(s: Seq<char>, i: int, cur: SelectorV) -> (
    Option<RuleV>,
    int,
)
    decreases s.len() - i,
    via parse_qualified_rule_dec
{
    match css_next(s, i) {
        CssStep::Tok(t, p) => match t {
            CssTok::OpenCurly => {
                let (ds, p2) = parse_declarations(s, p);
                (Some(RuleV { selector: cur, declarations: ds }), p2)
            },
            _ => {
                let (sel, p2) = parse_selector(s, i);
                parse_qualified_rule(s, p2, sel)
            },
        },
        _ => (None, i),
    }
}

#[via_fn]
proof fn parse_qualified_rule_dec(s: Seq<char>, i: int, cur: SelectorV) {
    lemma_css_next_progress(s, i);
    lemma_parse_selector_progress(s, i);
}

/// The empty selector a fresh rule starts with.
pub open spec fn blank_selector() -> SelectorV {
    SelectorV::Type(Seq::<char>::empty())
}

/// The rule list of a whole stylesheet. A rule opened by an at-keyword is
/// scanned like any other and then dropped; a truncated trailing rule ends
/// the list.
pub open spec fn parse_rules(s: Seq<char>, i: int) -> Seq<RuleV>
    decreases s.len() - i,
    via parse_rules_dec
{
    match css_next(s, i) {
        CssStep::Tok(t, p) => match t {
            CssTok::AtKeyword(v) => {
                let (r, p2) = parse_qualified_rule(s, i, blank_selector());
                parse_rules(s, p2)
            },
            _ => {
                let (r, p2) = parse_qualified_rule(s, i, blank_selector());
                match r {
                    Some(rule) => seq![rule] + parse_rules(s, p2),
                    None => Seq::<RuleV>::empty(),
                }
            },
        },
        _ => Seq::<RuleV>::empty(),
    }
}

#[via_fn]
proof fn parse_rules_dec(s: Seq<char>, i: int) {
    lemma_css_next_progress(s, i);
    lemma_parse_qualified_rule_progress(s, i, blank_selector());
}

/// A step of `parse_ident` stays inside the stream and moves forward when a
/// token is there.
proof fn lemma_parse_ident_progress(s: Seq<char>, i: int)
    ensures
        ({
            let (r, p) = parse_ident(s, i);
            &&& i <= p <= vstd::math::max(i, s.len() as int)
            &&& css_next(s, i) is Tok ==> i < p <= s.len()
        }),
{
    lemma_css_next_progress(s, i);
}

proof fn lemma_parse_declaration_progress(s: Seq<char>, i: int)
    ensures
        ({
            let (r, p) = parse_declaration(s, i);
            &&& i <= p <= vstd::math::max(i, s.len() as int)
            &&& css_next(s, i) is Tok ==> i < p <= s.len()
        }),
{
    lemma_parse_ident_progress(s, i);
    let (pi, p) = parse_ident(s, i);
    lemma_css_next_progress(s, p);
    if css_next(s, p) is Tok {
        let p2 = css_next(s, p)->Tok_1;
        lemma_css_next_progress(s, p2);
    }
}

proof fn lemma_skip_to_curly_bounds(s: Seq<char>, i: int)
    ensures
        i <= skip_to_curly(s, i) <= vstd::math::max(i, s.len() as int),
    decreases s.len() - i,
{
    lemma_css_next_progress(s, i);
    match css_next(s, i) {
        CssStep::Tok(t, p) => match t {
            CssTok::OpenCurly => {},
            _ => {
                lemma_skip_to_curly_bounds(s, p);
            },
        },
        _ => {},
    }
}

proof fn lemma_parse_selector_progress(s: Seq<char>, i: int)
    ensures
        ({
            let (r, p) = parse_selector(s, i);
            &&& i <= p <= vstd::math::max(i, s.len() as int)
            &&& css_next(s, i) is Tok ==> i < p <= s.len()
        }),
{
    lemma_css_next_progress(s, i);
    match css_next(s, i) {
        CssStep::Tok(t, p) => {
            lemma_parse_ident_progress(s, p);
            lemma_skip_to_curly_bounds(s, p);
        },
        _ => {},
    }
}

proof fn lemma_parse_declarations_bounds(s: Seq<char>, i: int)
    ensures
        ({
            let (r, p) = parse_declarations(s, i);
            i <= p <= vstd::math::max(i, s.len() as int)
        }),
    decreases s.len() - i,
{
    lemma_css_next_progress(s, i);
    match css_next(s, i) {
        CssStep::Tok(t, p) => match t {
            CssTok::CloseCurly => {},
            CssTok::SemiColon => {
                lemma_parse_declarations_bounds(s, p);
            },
            CssTok::Ident(name) => {
                lemma_parse_declaration_progress(s, i);
                let (d, p2) = parse_declaration(s, i);
                lemma_parse_declarations_bounds(s, p2);
            },
            _ => {
                lemma_parse_declarations_bounds(s, p);
            },
        },
        _ => {},
    }
}

proof fn lemma_parse_qualified_rule_progress(s: Seq<char>, i: int, cur: SelectorV)
    ensures
        ({
            let (r, p) = parse_qualified_rule(s, i, cur);
            &&& i <= p <= vstd::math::max(i, s.len() as int)
            &&& css_next(s, i) is Tok ==> i < p <= s.len()
        }),
    decreases s.len() - i,
{
    lemma_css_next_progress(s, i);
    match css_next(s, i) {
        CssStep::Tok(t, p) => match t {
            CssTok::OpenCurly => {
                lemma_parse_declarations_bounds(s, p);
            },
            _ => {
                lemma_parse_selector_progress(s, i);
                let (sel, p2) = parse_selector(s, i);
                lemma_parse_qualified_rule_progress(s, p2, sel);
            },
        },
        _ => {},
    }
}

/// One-token-lookahead reader over the CSS tokenizer.
pub struct CssParser {
    t: CssTokenizer,
    peeked: Option<CssToken>,
    peek_start: Ghost<int>,
}

impl View for CssParser {
    type V = crate::css::token::LexState;

    closed spec fn view(&self) -> crate::css::token::LexState {
        crate::css::token::LexState {
            input: self.t@.input,
            pos: if self.peeked is Some {
                self.peek_start@
            } else {
                self.t@.pos
            },
        }
    }
}

impl CssParser {
    /// The lookahead slot, when full, holds exactly the token that starts
    /// at the recorded position, with the tokenizer standing after it.
    pub closed spec fn wf(&self) -> bool {
        match self.peeked {
            Some(tok) => css_next(self.t@.input, self.peek_start@) == CssStep::Tok(
                tok@,
                self.t@.pos,
            ),
            None => true,
        }
    }

    pub fn new(t: CssTokenizer) -> (r: Self)
        ensures
            r.wf(),
            r@.input == t@.input,
            r@.pos == t@.pos,
    {
        Self { t, peeked: None, peek_start: Ghost(0) }
    }

    /// Fills the lookahead slot if it is empty.
    fn fill(&mut self)
        requires
            old(self).wf(),
            !(css_next(old(self)@.input, old(self)@.pos) is Fault),
        ensures
            final(self).wf(),
            final(self)@.input == old(self)@.input,
            css_next(final(self)@.input, final(self)@.pos) == css_next(
                old(self)@.input,
                old(self)@.pos,
            ),
            match css_next(old(self)@.input, old(self)@.pos) {
                CssStep::Tok(t, p) => {
                    &&& final(self).peeked is Some
                    &&& final(self).peeked->0@ == t
                    &&& final(self)@.pos == old(self)@.pos
                },
                CssStep::End => final(self).peeked is None,
                CssStep::Fault => false,
            },
    {
        if self.peeked.is_none() {
            let ghost start = self.t@.pos;
            let tok = self.t.next();
            match tok {
                Some(tk) => {
                    self.peeked = Some(tk);
                    self.peek_start = Ghost(start);
                },
                None => {
                    proof {
                        crate::css::token::lemma_skip_ws_fixed(self.t@.input, start);
                    }
                },
            }
        }
    }

    /// Takes the next token off the stream.
    fn advance(&mut self) -> (r: Option<CssToken>)
        requires
            old(self).wf(),
            !(css_next(old(self)@.input, old(self)@.pos) is Fault),
        ensures
            final(self).wf(),
            final(self)@.input == old(self)@.input,
            match css_next(old(self)@.input, old(self)@.pos) {
                CssStep::Tok(t, p) => r is Some && r->0@ == t && final(self)@.pos == p,
                CssStep::End => r is None && css_next(final(self)@.input, final(self)@.pos)
                    is End,
                CssStep::Fault => false,
            },
    {
        self.fill();
        match self.peeked.take() {
            Some(tk) => Some(tk),
            None => None,
        }
    }

    /// Copies the next token without taking it off the stream.
    fn peek(&mut self) -> (r: Option<CssToken>)
        requires
            old(self).wf(),
            !(css_next(old(self)@.input, old(self)@.pos) is Fault),
        ensures
            final(self).wf(),
            final(self)@.input == old(self)@.input,
            css_next(final(self)@.input, final(self)@.pos) == css_next(
                old(self)@.input,
                old(self)@.pos,
            ),
            match css_next(old(self)@.input, old(self)@.pos) {
                CssStep::Tok(t, p) => r is Some && r->0@ == t && final(self)@.pos == old(
                    self,
                )@.pos,
                CssStep::End => r is None,
                CssStep::Fault => false,
            },
    {
        self.fill();
        match &self.peeked {
            Some(t) => Some(t.clone()),
            None => None,
        }
    }

    /// Advances to just before the next `{`, or to the stream's end.
    fn skip_until_curly(&mut self)
        requires
            old(self).wf(),
            css_ok(old(self)@.input, old(self)@.pos),
        ensures
            final(self).wf(),
            final(self)@.input == old(self)@.input,
            css_ok(final(self)@.input, final(self)@.pos),
            css_next(final(self)@.input, final(self)@.pos) == css_next(
                old(self)@.input,
                skip_to_curly(old(self)@.input, old(self)@.pos),
            ),
    {
        let ghost s = old(self)@.input;
        let ghost mp0 = old(self)@.pos;
        let ghost mut mp = mp0;
        loop
            invariant
                s == old(self)@.input,
                mp0 == old(self)@.pos,
                self.wf(),
                self@.input == s,
                css_ok(s, mp),
                css_next(s, self@.pos) == css_next(s, mp),
                skip_to_curly(s, mp0) == skip_to_curly(s, mp),
            decreases s.len() - mp,
        {
            proof {
                lemma_css_ok_step(s, mp);
                lemma_css_next_progress(s, mp);
            }
            let pk = self.peek();
            match pk {
                None => {
                    return ;
                },
                Some(CssToken::OpenCurly) => {
                    return ;
                },
                Some(_) => {
                    let ghost p = match css_next(s, mp) {
                        CssStep::Tok(t, q) => q,
                        _ => mp,
                    };
                    self.advance();
                    proof {
                        mp = p;
                    }
                },
            }
        }
    }

    /// One selector, as `parse_selector` defines it.
    fn consume_selector(&mut self) -> (r: Selector)
        requires
            old(self).wf(),
            css_ok(old(self)@.input, old(self)@.pos),
        ensures
            final(self).wf(),
            final(self)@.input == old(self)@.input,
            ({
                let (sel, p) = parse_selector(old(self)@.input, old(self)@.pos);
                &&& r@ == sel
                &&& css_ok(final(self)@.input, final(self)@.pos)
                &&& css_next(final(self)@.input, final(self)@.pos) == css_next(
                    old(self)@.input,
                    p,
                )
            }),
    {
        let ghost s = old(self)@.input;
        let ghost mp = old(self)@.pos;
        proof {
            lemma_hash_shape(s, mp);
            lemma_css_ok_step(s, mp);
        }
        let t = self.advance();
        proof {
            if css_next(s, mp) is End {
                lemma_css_ok_end(s, self@.pos);
            }
        }
        match t {
            None => Selector::UnknownSelector,
            Some(tok) => match tok {
                CssToken::HashToken(x) => {
                    let n = x.as_str().unicode_len();
                    let rest = x.as_str().substring_char(1, n).to_owned();
                    Selector::IdSelector(rest)
                },
                CssToken::Delim(d) => {
                    if d == '.' {
                        match self.consume_ident() {
                            Some(name) => Selector::ClassSelector(name),
                            None => Selector::UnknownSelector,
                        }
                    } else {
                        Selector::UnknownSelector
                    }
                },
                CssToken::Ident(x) => {
                    let ghost p = match css_next(s, mp) {
                        CssStep::Tok(t0, q) => q,
                        _ => mp,
                    };
                    proof {
                        lemma_css_ok_step(s, p);
                    }
                    let pk = self.peek();
                    proof {
                        if css_next(s, p) is End {
                            lemma_css_ok_end(s, self@.pos);
                        }
                    }
                    match pk {
                        Some(CssToken::Colon) => {
                            proof {
                                lemma_skip_to_curly_agree(s, self@.pos, p);
                            }
                            self.skip_until_curly();
                        },
                        _ => {},
                    }
                    Selector::TypeSelector(x)
                },
                CssToken::AtKeyword(_) => {
                    let ghost p = match css_next(s, mp) {
                        CssStep::Tok(t0, q) => q,
                        _ => mp,
                    };
                    proof {
                        lemma_skip_to_curly_agree(s, self@.pos, p);
                    }
                    self.skip_until_curly();
                    Selector::UnknownSelector
                },
                _ => Selector::UnknownSelector,
            },
        }
    }

    /// One identifier token, or nothing; either way one token is consumed
    /// if one is there.
    fn consume_ident(&mut self) -> (r: Option<String>)
        requires
            old(self).wf(),
            css_ok(old(self)@.input, old(self)@.pos),
        ensures
            final(self).wf(),
            final(self)@.input == old(self)@.input,
            ({
                let (name, p) = parse_ident(old(self)@.input, old(self)@.pos);
                &&& match name {
                    Some(v) => r is Some && r->0@ == v,
                    None => r is None,
                }
                &&& css_ok(final(self)@.input, final(self)@.pos)
                &&& css_next(final(self)@.input, final(self)@.pos) == css_next(
                    old(self)@.input,
                    p,
                )
            }),
    {
        let ghost s = old(self)@.input;
        let ghost mp = old(self)@.pos;
        proof {
            lemma_css_ok_step(s, mp);
        }
        let t = self.advance();
        proof {
            if css_next(s, mp) is End {
                lemma_css_ok_end(s, self@.pos);
            }
        }
        match t {
            Some(tok) => match tok {
                CssToken::Ident(x) => Some(x),
                _ => None,
            },
            None => None,
        }
    }

    /// One component value: simply the next token, if the stream still has
    /// one.
    fn consume_component_value(&mut self) -> (r: Option<ComponentValue>)
        requires
            old(self).wf(),
            css_ok(old(self)@.input, old(self)@.pos),
        ensures
            final(self).wf(),
            final(self)@.input == old(self)@.input,
            css_ok(final(self)@.input, final(self)@.pos),
            match css_next(old(self)@.input, old(self)@.pos) {
                CssStep::Tok(t, p) => r is Some && r->0@ == t && css_next(
                    final(self)@.input,
                    final(self)@.pos,
                ) == css_next(old(self)@.input, p),
                CssStep::End => r is None && css_next(final(self)@.input, final(self)@.pos)
                    is End,
                CssStep::Fault => false,
            },
    {
        let ghost s = old(self)@.input;
        let ghost mp = old(self)@.pos;
        proof {
            lemma_css_ok_step(s, mp);
        }
        let t = self.advance();
        proof {
            if css_next(s, mp) is End {
                lemma_css_ok_end(s, self@.pos);
            }
        }
        t
    }

    /// One declaration attempt, as `parse_declaration` defines it.
    fn consume_declaration(&mut self) -> (r: Option<Declaration>)
        requires
            old(self).wf(),
            css_ok(old(self)@.input, old(self)@.pos),
        ensures
            final(self).wf(),
            final(self)@.input == old(self)@.input,
            ({
                let (d, p) = parse_declaration(old(self)@.input, old(self)@.pos);
                &&& match d {
                    Some(dv) => r is Some && r->0@ == dv,
                    None => r is None,
                }
                &&& css_ok(final(self)@.input, final(self)@.pos)
                &&& css_next(final(self)@.input, final(self)@.pos) == css_next(
                    old(self)@.input,
                    p,
                )
            }),
    {
        let ghost s = old(self)@.input;
        let prop = match self.consume_ident() {
            Some(p) => p,
            None => {
                return None;
            },
        };
        let mut declaration = Declaration::new();
        declaration.set_property(prop);
        let ghost cur = self@.pos;
        proof {
            lemma_css_ok_step(s, cur);
        }
        let colon = self.advance();
        proof {
            if css_next(s, cur) is End {
                lemma_css_ok_end(s, self@.pos);
            }
        }
        match colon {
            Some(CssToken::Colon) => {},
            _ => {
                return None;
            },
        }
        match self.consume_component_value() {
            Some(v) => {
                declaration.set_value(v);
                Some(declaration)
            },
            None => None,
        }
    }

    /// The declaration list of a block, as `parse_declarations` defines it.
    fn consume_list_of_declarations(&mut self) -> (r: Vec<Declaration>)
        requires
            old(self).wf(),
            css_ok(old(self)@.input, old(self)@.pos),
        ensures
            final(self).wf(),
            final(self)@.input == old(self)@.input,
            ({
                let (ds, p) = parse_declarations(old(self)@.input, old(self)@.pos);
                &&& decls_view(r@) == ds
                &&& css_ok(final(self)@.input, final(self)@.pos)
                &&& css_next(final(self)@.input, final(self)@.pos) == css_next(
                    old(self)@.input,
                    p,
                )
            }),
    {
        let ghost s = old(self)@.input;
        let ghost mp0 = old(self)@.pos;
        let ghost mut mp = mp0;
        let mut declarations: Vec<Declaration> = Vec::new();
        proof {
            assert(decls_view(declarations@) =~= Seq::<DeclV>::empty());
        }
        loop
            invariant
                s == old(self)@.input,
                mp0 == old(self)@.pos,
                self.wf(),
                self@.input == s,
                css_ok(s, mp),
                css_next(s, self@.pos) == css_next(s, mp),
                parse_declarations(s, mp0).0 == decls_view(declarations@) + parse_declarations(
                    s,
                    mp,
                ).0,
                parse_declarations(s, mp0).1 == parse_declarations(s, mp).1,
            decreases s.len() - mp,
        {
            proof {
                lemma_css_ok_step(s, mp);
                lemma_css_next_progress(s, mp);
            }
            let pk = self.peek();
            match pk {
                None => {
                    proof {
                        assert(parse_declarations(s, mp0).0 =~= decls_view(declarations@));
                    }
                    return declarations;
                },
                Some(CssToken::CloseCurly) => {
                    self.advance();
                    proof {
                        assert(parse_declarations(s, mp0).0 =~= decls_view(declarations@));
                    }
                    return declarations;
                },
                Some(CssToken::SemiColon) => {
                    let ghost p = css_next(s, mp)->Tok_1;
                    self.advance();
                    proof {
                        mp = p;
                    }
                },
                Some(CssToken::Ident(_)) => {
                    proof {
                        lemma_css_ok_agree(s, self@.pos, mp);
                        lemma_parse_declaration_progress(s, mp);
                        assert(parse_declaration(s, self@.pos) == parse_declaration(s, mp));
                    }
                    let ghost p2 = parse_declaration(s, mp).1;
                    let d = self.consume_declaration();
                    proof {
                        lemma_css_ok_agree(s, self@.pos, p2);
                    }
                    match d {
                        Some(dv) => {
                            declarations.push(dv);
                            proof {
                                assert(decls_view(declarations@) =~= decls_view(
                                    declarations@.drop_last(),
                                ).push(dv@));
                            }
                        },
                        None => {},
                    }
                    proof {
                        mp = p2;
                    }
                },
                Some(_) => {
                    let ghost p = css_next(s, mp)->Tok_1;
                    self.advance();
                    proof {
                        mp = p;
                    }
                },
            }
        }
    }

    /// One qualified rule, as `parse_qualified_rule` defines it: selectors
    /// up to the `{`, a declaration block, or nothing when the stream ends
    /// first.
    fn consume_qualified_rule(&mut self) -> (r: Option<QualifiedRule>)
        requires
            old(self).wf(),
            css_ok(old(self)@.input, old(self)@.pos),
        ensures
            final(self).wf(),
            final(self)@.input == old(self)@.input,
            ({
                let (rule, p) = parse_qualified_rule(
                    old(self)@.input,
                    old(self)@.pos,
                    blank_selector(),
                );
                &&& match rule {
                    Some(rv) => r is Some && r->0@ == rv,
                    None => r is None,
                }
                &&& css_ok(final(self)@.input, final(self)@.pos)
                &&& css_next(final(self)@.input, final(self)@.pos) == css_next(
                    old(self)@.input,
                    p,
                )
            }),
    {
        let ghost s = old(self)@.input;
        let ghost mp0 = old(self)@.pos;
        let ghost mut mp = mp0;
        let mut rule = QualifiedRule::new();
        loop
            invariant
                s == old(self)@.input,
                mp0 == old(self)@.pos,
                self.wf(),
                self@.input == s,
                css_ok(s, mp),
                css_next(s, self@.pos) == css_next(s, mp),
                decls_view(rule.declarations@) =~= Seq::<DeclV>::empty(),
                parse_qualified_rule(s, mp0, blank_selector()) == parse_qualified_rule(
                    s,
                    mp,
                    rule.selector@,
                ),
            decreases s.len() - mp,
        {
            proof {
                lemma_css_ok_step(s, mp);
                lemma_css_next_progress(s, mp);
            }
            let pk = self.peek();
            match pk {
                None => {
                    return None;
                },
                Some(CssToken::OpenCurly) => {
                    let ghost p = css_next(s, mp)->Tok_1;
                    self.advance();
                    let ds = self.consume_list_of_declarations();
                    rule.set_declarations(ds);
                    return Some(rule);
                },
                Some(_) => {
                    proof {
                        lemma_css_ok_agree(s, self@.pos, mp);
                        lemma_parse_selector_progress(s, mp);
                        assert(parse_selector(s, self@.pos) == parse_selector(s, mp));
                    }
                    let ghost p2 = parse_selector(s, mp).1;
                    let sel = self.consume_selector();
                    rule.set_selector(sel);
                    proof {
                        lemma_css_ok_agree(s, self@.pos, p2);
                        mp = p2;
                    }
                },
            }
        }
    }

    /// The whole rule list, as `parse_rules` defines it.
    fn consume_list_of_rules(&mut self) -> (r: Vec<QualifiedRule>)
        requires
            old(self).wf(),
            css_ok(old(self)@.input, old(self)@.pos),
        ensures
            final(self).wf(),
            final(self)@.input == old(self)@.input,
            rules_view(r@) == parse_rules(old(self)@.input, old(self)@.pos),
    {
        let ghost s = old(self)@.input;
        let ghost mp0 = old(self)@.pos;
        let ghost mut mp = mp0;
        let mut rules: Vec<QualifiedRule> = Vec::new();
        proof {
            assert(rules_view(rules@) =~= Seq::<RuleV>::empty());
        }
        loop
            invariant
                s == old(self)@.input,
                mp0 == old(self)@.pos,
                self.wf(),
                self@.input == s,
                css_ok(s, mp),
                css_next(s, self@.pos) == css_next(s, mp),
                parse_rules(s, mp0) == rules_view(rules@) + parse_rules(s, mp),
            decreases s.len() - mp,
        {
            proof {
                lemma_css_ok_step(s, mp);
                lemma_css_next_progress(s, mp);
            }
            let pk = self.peek();
            match pk {
                None => {
                    proof {
                        assert(parse_rules(s, mp0) =~= rules_view(rules@));
                    }
                    return rules;
                },
                Some(tok) => {
                    proof {
                        lemma_css_ok_agree(s, self@.pos, mp);
                        lemma_parse_qualified_rule_progress(s, mp, blank_selector());
                        lemma_parse_qualified_rule_agree(s, self@.pos, mp, blank_selector());
                    }
                    let ghost p2 = parse_qualified_rule(s, mp, blank_selector()).1;
                    let is_at = match &tok {
                        CssToken::AtKeyword(_) => true,
                        _ => false,
                    };
                    let rule = self.consume_qualified_rule();
                    proof {
                        lemma_css_ok_agree(s, self@.pos, p2);
                    }
                    if is_at {
                        proof {
                            mp = p2;
                        }
                    } else {
                        match rule {
                            Some(ru) => {
                                rules.push(ru);
                                proof {
                                    assert(rules_view(rules@) =~= rules_view(
                                        rules@.drop_last(),
                                    ).push(ru@));
                                    mp = p2;
                                }
                            },
                            None => {
                                proof {
                                    assert(parse_rules(s, mp0) =~= rules_view(rules@));
                                }
                                return rules;
                            },
                        }
                    }
                },
            }
        }
    }

    /// Builds the stylesheet: the ordered rule list of the whole input.
    pub fn parse_stylesheet(&mut self) -> (r: StyleSheet)
        requires
            old(self).wf(),
            css_ok(old(self)@.input, old(self)@.pos),
        ensures
            final(self).wf(),
            r@ == parse_rules(old(self)@.input, old(self)@.pos),
    {
        let mut sheet = StyleSheet::new();
        sheet.set_rules(self.consume_list_of_rules());
        sheet
    }
}

/// The result of a qualified-rule scan is the same from two positions that
/// agree on the next token, up to where the leftover position lies.
proof fn lemma_parse_qualified_rule_agree(s: Seq<char>, a: int, b: int, cur: SelectorV)
    requires
        css_next(s, a) == css_next(s, b),
    ensures
        parse_qualified_rule(s, a, cur).0 == parse_qualified_rule(s, b, cur).0,
        css_next(s, parse_qualified_rule(s, a, cur).1) == css_next(
            s,
            parse_qualified_rule(s, b, cur).1,
        ),
{
    match css_next(s, a) {
        CssStep::Tok(t, p) => {
            assert(parse_selector(s, a) == parse_selector(s, b));
        },
        _ => {},
    }
}

/// The tokens up to the next `{` are the same from two positions that agree
/// on the next token.
proof fn lemma_skip_to_curly_agree(s: Seq<char>, a: int, b: int)
    requires
        css_next(s, a) == css_next(s, b),
    ensures
        css_next(s, skip_to_curly(s, a)) == css_next(s, skip_to_curly(s, b)),
{
}

impl StyleSheet {
    pub fn new() -> (r: Self)
        ensures
            r@ == Seq::<RuleV>::empty(),
    {
        let r = Self { rules: Vec::new() };
        proof {
            assert(r@ =~= Seq::<RuleV>::empty());
        }
        r
    }

    pub fn set_rules(&mut self, rules: Vec<QualifiedRule>)
        ensures
            final(self)@ == rules_view(rules@),
    {
        self.rules = rules;
    }
}

impl Default for StyleSheet {
    fn default() -> (r: Self)
        ensures
            r@ == Seq::<RuleV>::empty(),
    {
        Self::new()
    }
}

impl QualifiedRule {
    pub fn new() -> (r: Self)
        ensures
            r.selector@ == SelectorV::Type(Seq::<char>::empty()),
            r.declarations@ == Seq::<Declaration>::empty(),
            r@.declarations == Seq::<DeclV>::empty(),
    {
        let r = Self { selector: Selector::TypeSelector(String::new()), declarations: Vec::new() };
        proof {
            assert(r@.declarations =~= Seq::<DeclV>::empty());
        }
        r
    }

    pub fn set_selector(&mut self, selector: Selector)
        ensures
            final(self).selector == selector,
            final(self).declarations == old(self).declarations,
    {
        self.selector = selector;
    }

    pub fn set_declarations(&mut self, declarations: Vec<Declaration>)
        ensures
            final(self).declarations == declarations,
            final(self).selector == old(self).selector,
    {
        self.declarations = declarations;
    }
}

impl Default for QualifiedRule {
    fn default() -> (r: Self)
        ensures
            r.selector@ == SelectorV::Type(Seq::<char>::empty()),
            r.declarations@ == Seq::<Declaration>::empty(),
    {
        Self::new()
    }
}

impl Declaration {
    pub fn new() -> (r: Self)
        ensures
            r.property@ == Seq::<char>::empty(),
            r.value@ == CssTok::Ident(Seq::<char>::empty()),
    {
        Self { property: String::new(), value: ComponentValue::Ident(String::new()) }
    }

    pub fn set_property(&mut self, property: String)
        ensures
            final(self).property == property,
            final(self).value == old(self).value,
    {
        self.property = property;
    }

    pub fn set_value(&mut self, value: ComponentValue)
        ensures
            final(self).value == value,
            final(self).property == old(self).property,
    {
        self.value = value;
    }
}

impl Default for Declaration {
    fn default() -> (r: Self)
        ensures
            r.property@ == Seq::<char>::empty(),
            r.value@ == CssTok::Ident(Seq::<char>::empty()),
    {
        Self::new()
    }
}

} // verus!
