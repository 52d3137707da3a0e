//! Character-level HTML tokenizer.
//!
//! A finite-state scanner over the markup text, producing start tags (with
//! attributes and a self-closing flag), end tags, single characters, and an
//! end marker when the input runs out mid-construct. Inside a raw-text
//! (script) element, characters pass through verbatim until a real end tag
//! is found; a `</` that does not resolve into one is replayed character by
//! character out of a side buffer.
//!
//! The scanner's one-token pushback is a single-slot `pending` buffer
//! checked before a fresh character is read. The spec functions `tk_fetch`
//! and `tk_run` define one call of `next` exactly, and `next` is proved to
//! follow them.

use vstd::prelude::*;

use crate::html::attribute::Attribute;
use crate::html::attribute::AttrV;
use crate::html::attribute::attr_add;
use crate::html::attribute::attr_empty;
use crate::html::attribute::attrs_view;
use crate::text::alpha_char;
use crate::text::is_alpha_char;
use crate::text::lower_char;
use crate::text::to_lower;

verus! {

#[derive(Debug, Clone, PartialEq, Eq)]
pub enum HtmlToken {
    StartTag { tag: String, self_closing: bool, attributes: Vec<Attribute> },
    EndTag { tag: String },
    Char(char),
    Eof,
}

/// Mathematical counterpart of a token.
#[verifier::ext_equal]
pub enum HtmlTok {
    StartTag { tag: Seq<char>, self_closing: bool, attributes: Seq<AttrV> },
    EndTag { tag: Seq<char> },
    Char(char),
    Eof,
}

impl View for HtmlToken {
    type V = HtmlTok;

    open spec fn view(&self) -> HtmlTok {
        match self {
            HtmlToken::StartTag { tag, self_closing, attributes } => HtmlTok::StartTag {
                tag: tag@,
                self_closing: *self_closing,
                attributes: attrs_view(attributes@),
            },
            HtmlToken::EndTag { tag } => HtmlTok::EndTag { tag: tag@ },
            HtmlToken::Char(c) => HtmlTok::Char(*c),
            HtmlToken::Eof => HtmlTok::Eof,
        }
    }
}

pub open spec fn tok_opt_view(t: Option<HtmlToken>) -> Option<HtmlTok> {
    match t {
        Some(tok) => Some(tok@),
        None => None,
    }
}

#[derive(Debug, Clone, Copy, PartialEq, Eq)]
pub enum State {
    Data,
    TagOpen,
    EndTagOpen,
    TagName,
    BeforeAttributeName,
    AttributeName,
    AfterAttributeName,
    BeforeAttributeValue,
    AttributeValueDoubleQuoted,
    AttributeValueSingleQuoted,
    AttributeValueUnquoted,
    AfterAttributeValueQuoted,
    SelfClosingStartTag,
    ScriptData,
    ScriptDataLessThanSign,
    ScriptDataEndTagOpen,
    ScriptDataEndTagName,
    TemporaryBuffer,
}

/// Scanner state: input, cursor, scan state, the single-slot pushback, the
/// token under construction, and the raw-text replay buffer.
pub struct HtmlLexState {
    pub input: Seq<char>,
    pub state: State,
    pub pos: int,
    pub pending: Option<char>,
    pub latest: Option<HtmlTok>,
    pub buf: Seq<char>,
    pub past_end: bool,
}

/// A fresh start or end tag under construction.
pub open spec fn tok_new_tag(start_tag_token: bool) -> HtmlTok {
    if start_tag_token {
        HtmlTok::StartTag {
            tag: Seq::<char>::empty(),
            self_closing: false,
            attributes: Seq::<AttrV>::empty(),
        }
    } else {
        HtmlTok::EndTag { tag: Seq::<char>::empty() }
    }
}

/// One character appended to the tag name under construction; anything that
/// is not a tag is left alone.
pub open spec fn tok_append_tag(l: Option<HtmlTok>, c: char) -> Option<HtmlTok> {
    match l {
        Some(HtmlTok::StartTag { tag, self_closing, attributes }) => Some(
            HtmlTok::StartTag { tag: tag.push(c), self_closing, attributes },
        ),
        Some(HtmlTok::EndTag { tag }) => Some(HtmlTok::EndTag { tag: tag.push(c) }),
        _ => l,
    }
}

/// A fresh empty attribute opened on the start tag under construction; end
/// tags and anything else are left alone.
pub open spec fn tok_start_attr(l: Option<HtmlTok>) -> Option<HtmlTok> {
    match l {
        Some(HtmlTok::StartTag { tag, self_closing, attributes }) => Some(
            HtmlTok::StartTag { tag, self_closing, attributes: attributes.push(attr_empty()) },
        ),
        _ => l,
    }
}

/// One character appended to the most recently opened attribute of the
/// start tag under construction; without one, nothing changes.
pub open spec fn tok_append_attr(l: Option<HtmlTok>, c: char, is_name: bool) -> Option<HtmlTok> {
    match l {
        Some(HtmlTok::StartTag { tag, self_closing, attributes }) => if attributes.len() > 0 {
            Some(
                HtmlTok::StartTag {
                    tag,
                    self_closing,
                    attributes: attributes.update(
                        attributes.len() - 1,
                        attr_add(attributes.last(), c, is_name),
                    ),
                },
            )
        } else {
            l
        },
        _ => l,
    }
}

/// The self-closing flag raised on the start tag under construction.
pub open spec fn tok_self_close(l: Option<HtmlTok>) -> Option<HtmlTok> {
    match l {
        Some(HtmlTok::StartTag { tag, self_closing, attributes }) => Some(
            HtmlTok::StartTag { tag, self_closing: true, attributes },
        ),
        _ => l,
    }
}

/// One character taken: from the pushback slot if it is full, from the
/// input otherwise. Past the end a NUL filler comes back with the
/// end-of-input flag raised; the cursor then stays put.
pub open spec fn tk_fetch(st: HtmlLexState) -> (char, bool, HtmlLexState) {
    match st.pending {
        Some(c) => (c, false, HtmlLexState { pending: None, ..st }),
        None => if 0 <= st.pos < st.input.len() {
            (st.input[st.pos], false, HtmlLexState { pos: st.pos + 1, ..st })
        } else {
            ('\0', true, HtmlLexState { past_end: true, ..st })
        },
    }
}

pub open spec fn srank(s: State) -> int {
    match s {
        State::ScriptDataLessThanSign => 1,
        State::ScriptDataEndTagOpen => 1,
        _ => 0,
    }
}

/// Work left in one call of `next`: input not yet taken, the pushback slot,
/// the replay buffer, and a small state rank.
pub open spec fn tk_measure(st: HtmlLexState) -> int {
    4 * (st.input.len() - st.pos) + (if st.pending is Some {
        4int
    } else {
        0int
    }) + (if st.past_end {
        0int
    } else {
        5int
    }) + st.buf.len() + srank(st.state)
}

/// Outcome of handling one character: keep scanning, or stop with the
/// state afterwards and the token produced.
pub enum TkStep {
    Cont(HtmlLexState),
    Emit(HtmlLexState, Option<HtmlTok>),
}

/// How one fetched character changes the scanner, given the scan state
/// `s1.state`: the whole per-state transition table.
pub open spec fn tk_dispatch(s1: HtmlLexState, c: char, eof: bool) -> TkStep {
    match s1.state {
            State::Data => {
                if c == '<' {
                    TkStep::Cont(HtmlLexState { state: State::TagOpen, ..s1 })
                } else if eof {
                    TkStep::Emit(s1, Some(HtmlTok::Eof))
                } else {
                    TkStep::Emit(s1, Some(HtmlTok::Char(c)))
                }
            },
            State::TagOpen => {
                if c == '/' {
                    TkStep::Cont(HtmlLexState { state: State::EndTagOpen, ..s1 })
                } else if is_alpha_char(c) {
                    TkStep::Cont(
                        HtmlLexState {
                            state: State::TagName,
                            latest: tok_append_tag(Some(tok_new_tag(true)), lower_char(c)),
                            ..s1
                        },
                    )
                } else if eof {
                    TkStep::Emit(s1, Some(HtmlTok::Eof))
                } else if c == '<' {
                    TkStep::Cont(HtmlLexState { state: State::TagOpen, ..s1 })
                } else {
                    TkStep::Emit(HtmlLexState { state: State::Data, ..s1 }, Some(HtmlTok::Char(c)))
                }
            },
            State::EndTagOpen => {
                if eof {
                    TkStep::Emit(s1, Some(HtmlTok::Eof))
                } else if is_alpha_char(c) {
                    TkStep::Cont(
                        HtmlLexState {
                            state: State::TagName,
                            latest: tok_append_tag(Some(tok_new_tag(false)), lower_char(c)),
                            ..s1
                        },
                    )
                } else {
                    TkStep::Cont(s1)
                }
            },
            State::TagName => {
                if c == ' ' {
                    TkStep::Cont(HtmlLexState { state: State::BeforeAttributeName, ..s1 })
                } else if c == '/' {
                    TkStep::Cont(HtmlLexState { state: State::SelfClosingStartTag, ..s1 })
                } else if c == '>' {
                    TkStep::Emit(HtmlLexState { state: State::Data, latest: None, ..s1 }, s1.latest)
                } else if eof {
                    TkStep::Emit(s1, Some(HtmlTok::Eof))
                } else {
                    TkStep::Cont(HtmlLexState { latest: tok_append_tag(s1.latest, lower_char(c)), ..s1 })
                }
            },
            State::BeforeAttributeName => {
                if c == '/' {
                    TkStep::Cont(HtmlLexState { state: State::SelfClosingStartTag, ..s1 })
                } else if c == '>' {
                    TkStep::Emit(HtmlLexState { state: State::Data, latest: None, ..s1 }, s1.latest)
                } else if eof {
                    TkStep::Emit(s1, Some(HtmlTok::Eof))
                } else if c == ' ' {
                    TkStep::Cont(
                        HtmlLexState {
                            state: State::AfterAttributeName,
                            latest: tok_start_attr(s1.latest),
                            ..s1
                        },
                    )
                } else if c == '=' {
                    TkStep::Cont(
                        HtmlLexState {
                            state: State::BeforeAttributeValue,
                            latest: tok_start_attr(s1.latest),
                            ..s1
                        },
                    )
                } else {
                    TkStep::Cont(
                        HtmlLexState {
                            state: State::AttributeName,
                            latest: tok_append_attr(
                                tok_start_attr(s1.latest),
                                lower_char(c),
                                true,
                            ),
                            ..s1
                        },
                    )
                }
            },
            State::AttributeName => {
                if c == ' ' {
                    TkStep::Cont(HtmlLexState { state: State::AfterAttributeName, ..s1 })
                } else if c == '/' {
                    TkStep::Cont(HtmlLexState { state: State::SelfClosingStartTag, ..s1 })
                } else if c == '>' {
                    TkStep::Emit(HtmlLexState { state: State::Data, latest: None, ..s1 }, s1.latest)
                } else if eof {
                    TkStep::Emit(s1, Some(HtmlTok::Eof))
                } else if c == '=' {
                    TkStep::Cont(HtmlLexState { state: State::BeforeAttributeValue, ..s1 })
                } else {
                    TkStep::Cont(
                        HtmlLexState {
                            latest: tok_append_attr(s1.latest, lower_char(c), true),
                            ..s1
                        },
                    )
                }
            },
            State::AfterAttributeName => {
                if c == ' ' {
                    TkStep::Cont(s1)
                } else if c == '/' {
                    TkStep::Cont(HtmlLexState { state: State::SelfClosingStartTag, ..s1 })
                } else if c == '=' {
                    TkStep::Cont(HtmlLexState { state: State::BeforeAttributeValue, ..s1 })
                } else if c == '>' {
                    TkStep::Emit(HtmlLexState { state: State::Data, latest: None, ..s1 }, s1.latest)
                } else if eof {
                    TkStep::Emit(s1, Some(HtmlTok::Eof))
                } else {
                    TkStep::Cont(
                        HtmlLexState {
                            state: State::AttributeName,
                            latest: tok_append_attr(
                                tok_start_attr(s1.latest),
                                lower_char(c),
                                true,
                            ),
                            ..s1
                        },
                    )
                }
            },
            State::BeforeAttributeValue => {
                if c == ' ' {
                    TkStep::Cont(s1)
                } else if c == '"' {
                    TkStep::Cont(HtmlLexState { state: State::AttributeValueDoubleQuoted, ..s1 })
                } else if c == '\'' {
                    TkStep::Cont(HtmlLexState { state: State::AttributeValueSingleQuoted, ..s1 })
                } else if c == '>' {
                    TkStep::Emit(HtmlLexState { state: State::Data, latest: None, ..s1 }, s1.latest)
                } else if eof {
                    TkStep::Emit(s1, Some(HtmlTok::Eof))
                } else {
                    TkStep::Cont(
                        HtmlLexState {
                            state: State::AttributeValueUnquoted,
                            latest: tok_append_attr(s1.latest, c, false),
                            ..s1
                        },
                    )
                }
            },
            State::AttributeValueDoubleQuoted => {
                if c == '"' {
                    TkStep::Cont(HtmlLexState { state: State::AfterAttributeValueQuoted, ..s1 })
                } else if eof {
                    TkStep::Emit(s1, Some(HtmlTok::Eof))
                } else {
                    TkStep::Cont(HtmlLexState { latest: tok_append_attr(s1.latest, c, false), ..s1 })
                }
            },
            State::AttributeValueSingleQuoted => {
                if c == '\'' {
                    TkStep::Cont(HtmlLexState { state: State::AfterAttributeValueQuoted, ..s1 })
                } else if eof {
                    TkStep::Emit(s1, Some(HtmlTok::Eof))
                } else {
                    TkStep::Cont(HtmlLexState { latest: tok_append_attr(s1.latest, c, false), ..s1 })
                }
            },
            State::AttributeValueUnquoted => {
                if c == ' ' {
                    TkStep::Cont(HtmlLexState { state: State::BeforeAttributeName, ..s1 })
                } else if c == '>' {
                    TkStep::Emit(HtmlLexState { state: State::Data, latest: None, ..s1 }, s1.latest)
                } else if eof {
                    TkStep::Emit(s1, Some(HtmlTok::Eof))
                } else {
                    TkStep::Cont(HtmlLexState { latest: tok_append_attr(s1.latest, c, false), ..s1 })
                }
            },
            State::AfterAttributeValueQuoted => {
                if c == ' ' {
                    TkStep::Cont(HtmlLexState { state: State::BeforeAttributeName, ..s1 })
                } else if c == '/' {
                    TkStep::Cont(HtmlLexState { state: State::SelfClosingStartTag, ..s1 })
                } else if c == '>' {
                    TkStep::Emit(HtmlLexState { state: State::Data, latest: None, ..s1 }, s1.latest)
                } else if eof {
                    TkStep::Emit(s1, Some(HtmlTok::Eof))
                } else if c == '"' {
                    TkStep::Cont(HtmlLexState { state: State::AttributeValueDoubleQuoted, ..s1 })
                } else if c == '\'' {
                    TkStep::Cont(HtmlLexState { state: State::AttributeValueSingleQuoted, ..s1 })
                } else {
                    TkStep::Cont(
                        HtmlLexState {
                            state: State::AttributeValueUnquoted,
                            latest: tok_append_attr(s1.latest, c, false),
                            ..s1
                        },
                    )
                }
            },
            State::SelfClosingStartTag => {
                if c == '>' {
                    TkStep::Emit(
                        HtmlLexState { state: State::Data, latest: None, ..s1 },
                        tok_self_close(s1.latest),
                    )
                } else if eof {
                    TkStep::Emit(s1, Some(HtmlTok::Eof))
                } else {
                    TkStep::Cont(s1)
                }
            },
            State::ScriptData => {
                if c == '<' {
                    TkStep::Cont(HtmlLexState { state: State::ScriptDataLessThanSign, ..s1 })
                } else if eof {
                    TkStep::Emit(s1, Some(HtmlTok::Eof))
                } else {
                    TkStep::Emit(s1, Some(HtmlTok::Char(c)))
                }
            },
            State::ScriptDataLessThanSign => {
                if c == '/' {
                    TkStep::Cont(
                        HtmlLexState {
                            state: State::ScriptDataEndTagOpen,
                            buf: Seq::<char>::empty(),
                            ..s1
                        },
                    )
                } else {
                    TkStep::Emit(
                        HtmlLexState { state: State::ScriptData, pending: Some(c), ..s1 },
                        Some(HtmlTok::Char('<')),
                    )
                }
            },
            State::ScriptDataEndTagOpen => {
                if is_alpha_char(c) {
                    TkStep::Cont(
                        HtmlLexState {
                            state: State::ScriptDataEndTagName,
                            latest: tok_append_tag(Some(tok_new_tag(false)), lower_char(c)),
                            buf: s1.buf.push(c),
                            ..s1
                        },
                    )
                } else {
                    TkStep::Emit(
                        HtmlLexState { state: State::ScriptData, pending: Some(c), ..s1 },
                        Some(HtmlTok::Char('<')),
                    )
                }
            },
            State::ScriptDataEndTagName => {
                if c == '>' {
                    TkStep::Emit(HtmlLexState { state: State::Data, latest: None, ..s1 }, s1.latest)
                } else if is_alpha_char(c) {
                    TkStep::Cont(
                        HtmlLexState {
                            latest: tok_append_tag(s1.latest, lower_char(c)),
                            buf: s1.buf.push(c),
                            ..s1
                        },
                    )
                } else if eof {
                    TkStep::Emit(s1, Some(HtmlTok::Eof))
                } else {
                    TkStep::Cont(
                        HtmlLexState {
                            state: State::TemporaryBuffer,
                            buf: seq!['<', '/', c],
                            ..s1
                        },
                    )
                }
            },
            State::TemporaryBuffer => {
                if s1.buf.len() == 0 {
                    if c == '<' {
                        TkStep::Cont(HtmlLexState { state: State::ScriptDataLessThanSign, ..s1 })
                    } else if eof {
                        TkStep::Emit(HtmlLexState { state: State::ScriptData, ..s1 }, Some(HtmlTok::Eof))
                    } else {
                        TkStep::Emit(HtmlLexState { state: State::ScriptData, ..s1 }, Some(HtmlTok::Char(c)))
                    }
                } else {
                    TkStep::Emit(
                        HtmlLexState { buf: s1.buf.subrange(1, s1.buf.len() as int), pending: Some(c), ..s1 },
                        Some(HtmlTok::Char(s1.buf[0])),
                    )
                }
            },
        }
}

/// Handling a character takes the measure strictly down; the one exception
/// is a fetch past the end whose flag was already raised, which can only
/// stop the scan with the cursor at the end.
#[verifier::rlimit(100)]
pub proof fn lemma_tk_dispatch_measure(st: HtmlLexState)
    requires
        0 <= st.pos <= st.input.len(),
    ensures
        ({
            let (c, eof, s1) = tk_fetch(st);
            match tk_dispatch(s1, c, eof) {
                TkStep::Cont(s2) => tk_measure(s2) < tk_measure(st) && s2.input == st.input && 0
                    <= s2.pos <= s2.input.len(),
                TkStep::Emit(s2, t) => (tk_measure(s2) < tk_measure(st) || s2.pos
                    >= s2.input.len()) && s2.input == st.input && 0 <= s2.pos <= s2.input.len(),
            }
        }),
{
}

/// Work left across calls of `next`: once the cursor reaches the end no
/// token comes back, so the fuel drops to nothing there.
pub open spec fn tk_fuel(st: HtmlLexState) -> int {
    if st.pos < st.input.len() {
        tk_measure(st) + 1
    } else {
        0
    }
}

/// One call of the scanner's loop: characters are taken until a token is
/// produced. The pair is the state afterwards and the token, which is
/// nothing only when a tag delimiter arrives with no tag under
/// construction.
pub open spec fn tk_run(st: HtmlLexState) -> (HtmlLexState, Option<HtmlTok>)
    decreases tk_measure(st),
    via tk_run_dec
{
    if !(0 <= st.pos <= st.input.len()) {
        (st, None)
    } else {
        let (c, eof, s1) = tk_fetch(st);
        match tk_dispatch(s1, c, eof) {
            TkStep::Cont(s2) => tk_run(s2),
            TkStep::Emit(s2, t) => (s2, t),
        }
    }
}

#[via_fn]
proof fn tk_run_dec(st: HtmlLexState) {
    if 0 <= st.pos <= st.input.len() {
        lemma_tk_dispatch_measure(st);
    }
}

/// One call of `next`: nothing once the cursor has reached the end,
/// otherwise one run of the scanner.
pub open spec fn tk_next(st: HtmlLexState) -> (HtmlLexState, Option<HtmlTok>) {
    if st.pos >= st.input.len() {
        (st, None)
    } else {
        tk_run(st)
    }
}

/// The scanner state a fresh tokenizer starts from.
pub open spec fn initial_lex_state(input: Seq<char>) -> HtmlLexState {
    HtmlLexState {
        input,
        state: State::Data,
        pos: 0,
        pending: None,
        latest: None,
        buf: Seq::<char>::empty(),
        past_end: false,
    }
}

/// A produced token shrinks the measure, unless the cursor has reached the
/// end of the input.
#[verifier::rlimit(100)]
pub proof fn lemma_tk_run_measure(st: HtmlLexState)
    requires
        0 <= st.pos <= st.input.len(),
    ensures
        ({
            let (s2, t) = tk_run(st);
            &&& s2.input == st.input
            &&& t is Some ==> (tk_measure(s2) < tk_measure(st) || s2.pos >= s2.input.len())
        }),
    decreases tk_measure(st),
{
    let (c, eof, s1) = tk_fetch(st);
    lemma_tk_dispatch_measure(st);
    match tk_dispatch(s1, c, eof) {
        TkStep::Cont(s2) => {
            lemma_tk_run_measure(s2);
        },
        TkStep::Emit(s2, t) => {},
    }
}

/// Each produced token leaves strictly less fuel for the calls after it.
pub proof fn lemma_tk_next_fuel(st: HtmlLexState)
    ensures
        ({
            let (s2, t) = tk_next(st);
            t is Some ==> tk_fuel(s2) < tk_fuel(st)
        }),
{
    if st.pos < st.input.len() {
        if st.pos >= 0 {
            lemma_tk_run_measure(st);
        }
    }
}

/// The whole token sequence the scanner produces from a state on.
pub open spec fn token_stream(st: HtmlLexState) -> Seq<HtmlTok>
    decreases tk_fuel(st),
    via token_stream_dec
{
    match tk_next(st) {
        (s2, None) => Seq::<HtmlTok>::empty(),
        (s2, Some(t)) => seq![t] + token_stream(s2),
    }
}

#[via_fn]
proof fn token_stream_dec(st: HtmlLexState) {
    lemma_tk_next_fuel(st);
    if st.pos < st.input.len() && st.pos >= 0 {
        assert(tk_fuel(st) >= 0);
    }
}

/// A single character, as a character token.
pub open spec fn char_tok(c: char) -> HtmlTok {
    HtmlTok::Char(c)
}

/// The character sequence seen as a stream of character tokens.
pub open spec fn chars_as_tokens(s: Seq<char>) -> Seq<HtmlTok> {
    Seq::new(s.len(), |i: int| char_tok(s[i]))
}

/// Plain text stays itself: markup without `<` tokenizes to its own
/// characters, one character token each, in order.
pub proof fn lemma_plain_text_stream(input: Seq<char>)
    requires
        forall|i: int| 0 <= i < input.len() ==> input[i] != '<',
    ensures
        token_stream(initial_lex_state(input)) == chars_as_tokens(input),
{
    lemma_plain_text_stream_from(input, 0);
    assert(input.skip(0) =~= input);
}

proof fn lemma_plain_text_stream_from(input: Seq<char>, pos: int)
    requires
        0 <= pos <= input.len(),
        forall|i: int| 0 <= i < input.len() ==> input[i] != '<',
    ensures
        token_stream((HtmlLexState { pos, ..initial_lex_state(input) })) == chars_as_tokens(
            input.skip(pos),
        ),
    decreases input.len() - pos,
{
    let st = HtmlLexState { pos, ..initial_lex_state(input) };
    if pos >= input.len() {
        assert(tk_next(st).1 is None);
        assert(input.skip(pos).len() == 0);
        assert(chars_as_tokens(input.skip(pos)).len() == 0);
        assert(chars_as_tokens(input.skip(pos)) =~~= Seq::<HtmlTok>::empty());
    } else {
        let (c, eof, s1) = tk_fetch(st);
        assert(c == input[pos] && !eof);
        assert(tk_run(st) == (HtmlLexState { pos: pos + 1, ..initial_lex_state(input) }, Some(
            HtmlTok::Char(c),
        )));
        lemma_plain_text_stream_from(input, pos + 1);
        assert(chars_as_tokens(input.skip(pos)) =~~= seq![HtmlTok::Char(input[pos])]
            + chars_as_tokens(input.skip(pos + 1)));
    }
}

#[derive(Debug, Clone, PartialEq, Eq)]
pub struct HtmlTokenizer {
    state: State,
    pos: usize,
    pending: Option<char>,
    latest_token: Option<HtmlToken>,
    input: Vec<char>,
    buf: Vec<char>,
    past_end: bool,
}

impl View for HtmlTokenizer {
    type V = HtmlLexState;

    closed spec fn view(&self) -> HtmlLexState {
        HtmlLexState {
            input: self.input@,
            state: self.state,
            pos: self.pos as int,
            pending: self.pending,
            latest: tok_opt_view(self.latest_token),
            buf: self.buf@,
            past_end: self.past_end,
        }
    }
}

impl HtmlTokenizer {
    pub fn new(html: String) -> (r: Self)
        ensures
            r@ == (HtmlLexState {
                input: html@,
                state: State::Data,
                pos: 0,
                pending: None,
                latest: None,
                buf: Seq::<char>::empty(),
                past_end: false,
            }),
    {
        Self {
            state: State::Data,
            pos: 0,
            pending: None,
            latest_token: None,
            input: crate::text::chars_of(html.as_str()),
            buf: Vec::new(),
            past_end: false,
        }
    }

    /// Takes one character: the pushback slot first, the input next; past
    /// the end a NUL filler with the end flag raised.
    fn consume_next_input(&mut self) -> (r: (char, bool))
        requires
            old(self)@.pos <= old(self)@.input.len(),
        ensures
            ({
                let (c, eof, s1) = tk_fetch(old(self)@);
                r.0 == c && r.1 == eof && final(self)@ == s1
            }),
    {
        match self.pending {
            Some(c) => {
                self.pending = None;
                (c, false)
            },
            None => {
                if self.pos < self.input.len() {
                    let c = self.input[self.pos];
                    self.pos = self.pos + 1;
                    (c, false)
                } else {
                    self.past_end = true;
                    ('\0', true)
                }
            },
        }
    }

    /// Opens a fresh start or end tag as the token under construction.
    fn create_tag(&mut self, start_tag_token: bool)
        ensures
            final(self)@ == (HtmlLexState {
                latest: Some(tok_new_tag(start_tag_token)),
                ..old(self)@
            }),
    {
        if start_tag_token {
            self.latest_token = Some(
                HtmlToken::StartTag {
                    tag: String::new(),
                    self_closing: false,
                    attributes: Vec::new(),
                },
            );
            proof {
                assert(attrs_view(Seq::<Attribute>::empty()) =~= Seq::<AttrV>::empty());
            }
        } else {
            self.latest_token = Some(HtmlToken::EndTag { tag: String::new() });
        }
    }

    /// Appends one character to the tag name under construction; a call
    /// with no tag open changes nothing.
    fn append_tag_name(&mut self, c: char)
        ensures
            final(self)@ == (HtmlLexState {
                latest: tok_append_tag(old(self)@.latest, c),
                ..old(self)@
            }),
    {
        let lt = self.latest_token.take();
        match lt {
            Some(HtmlToken::StartTag { mut tag, self_closing, attributes }) => {
                crate::text::push_char(&mut tag, c);
                self.latest_token = Some(HtmlToken::StartTag { tag, self_closing, attributes });
            },
            Some(HtmlToken::EndTag { mut tag }) => {
                crate::text::push_char(&mut tag, c);
                self.latest_token = Some(HtmlToken::EndTag { tag });
            },
            other => {
                self.latest_token = other;
            },
        }
    }

    /// Takes the token under construction out, leaving none behind.
    fn take_latest_token(&mut self) -> (r: Option<HtmlToken>)
        ensures
            final(self)@ == (HtmlLexState { latest: None, ..old(self)@ }),
            tok_opt_view(r) == old(self)@.latest,
    {
        self.latest_token.take()
    }

    /// Opens a fresh empty attribute on the start tag under construction;
    /// a call on an end tag or with no tag open changes nothing.
    fn start_new_attribute(&mut self)
        ensures
            final(self)@ == (HtmlLexState {
                latest: tok_start_attr(old(self)@.latest),
                ..old(self)@
            }),
    {
        let lt = self.latest_token.take();
        match lt {
            Some(HtmlToken::StartTag { tag, self_closing, mut attributes }) => {
                let ghost a0 = attributes@;
                attributes.push(Attribute::new());
                proof {
                    assert(attrs_view(attributes@) =~= attrs_view(a0).push(attr_empty()));
                }
                self.latest_token = Some(HtmlToken::StartTag { tag, self_closing, attributes });
            },
            other => {
                self.latest_token = other;
            },
        }
    }

    /// Appends one character to the most recently opened attribute of the
    /// start tag under construction; without one, nothing changes.
    fn append_attribute(&mut self, c: char, is_name: bool)
        ensures
            final(self)@ == (HtmlLexState {
                latest: tok_append_attr(old(self)@.latest, c, is_name),
                ..old(self)@
            }),
    {
        let lt = self.latest_token.take();
        match lt {
            Some(HtmlToken::StartTag { tag, self_closing, mut attributes }) => {
                let ghost a0 = attributes@;
                let n = attributes.len();
                if n > 0 {
                    let mut a = attributes.pop().unwrap();
                    a.add_char(c, is_name);
                    attributes.push(a);
                    proof {
                        assert(attributes@ =~= a0.update(a0.len() - 1, attributes@.last()));
                        assert(attrs_view(attributes@) =~= attrs_view(a0).update(
                            a0.len() - 1,
                            attr_add(attrs_view(a0).last(), c, is_name),
                        ));
                    }
                }
                self.latest_token = Some(HtmlToken::StartTag { tag, self_closing, attributes });
            },
            other => {
                self.latest_token = other;
            },
        }
    }

    /// Raises the self-closing flag on the start tag under construction; a
    /// call on an end tag or with no tag open changes nothing.
    fn set_self_closing_flag(&mut self)
        ensures
            final(self)@ == (HtmlLexState {
                latest: tok_self_close(old(self)@.latest),
                ..old(self)@
            }),
    {
        let lt = self.latest_token.take();
        match lt {
            Some(HtmlToken::StartTag { tag, self_closing, attributes }) => {
                self.latest_token = Some(
                    HtmlToken::StartTag { tag, self_closing: true, attributes },
                );
            },
            other => {
                self.latest_token = other;
            },
        }
    }

    /// Handles one fetched character: the transition table `tk_dispatch`,
    /// step for step. A result means the call is over.
    #[verifier::rlimit(100)]
    fn dispatch(&mut self, c: char, eof: bool) -> (r: Option<Option<HtmlToken>>)
        ensures
            match tk_dispatch(old(self)@, c, eof) {
                TkStep::Cont(s2) => r is None && final(self)@ == s2,
                TkStep::Emit(s2, t) => {
                    &&& r is Some
                    &&& final(self)@ == s2
                    &&& tok_opt_view(r->0) == t
                },
            },
    {
        let ghost pre = self@;
        match self.state {
        State::Data => {
            if c == '<' {
                self.state = State::TagOpen;
            } else if eof {
                return Some(Some(HtmlToken::Eof));
            } else {
                return Some(Some(HtmlToken::Char(c)));
            }
        },
        State::TagOpen => {
            if c == '/' {
                self.state = State::EndTagOpen;
            } else if alpha_char(c) {
                self.create_tag(true);
                self.append_tag_name(to_lower(c));
                self.state = State::TagName;
            } else if eof {
                return Some(Some(HtmlToken::Eof));
            } else if c == '<' {
                self.state = State::TagOpen;
            } else {
                self.state = State::Data;
                return Some(Some(HtmlToken::Char(c)));
            }
        },
        State::EndTagOpen => {
            if eof {
                return Some(Some(HtmlToken::Eof));
            } else if alpha_char(c) {
                self.create_tag(false);
                self.append_tag_name(to_lower(c));
                self.state = State::TagName;
            }
        },
        State::TagName => {
            if c == ' ' {
                self.state = State::BeforeAttributeName;
            } else if c == '/' {
                self.state = State::SelfClosingStartTag;
            } else if c == '>' {
                self.state = State::Data;
                return Some(self.take_latest_token());
            } else if eof {
                return Some(Some(HtmlToken::Eof));
            } else {
                self.append_tag_name(to_lower(c));
            }
        },
        State::BeforeAttributeName => {
            if c == '/' {
                self.state = State::SelfClosingStartTag;
            } else if c == '>' {
                self.state = State::Data;
                return Some(self.take_latest_token());
            } else if eof {
                return Some(Some(HtmlToken::Eof));
            } else if c == ' ' {
                self.start_new_attribute();
                self.state = State::AfterAttributeName;
            } else if c == '=' {
                self.start_new_attribute();
                self.state = State::BeforeAttributeValue;
            } else {
                self.start_new_attribute();
                self.append_attribute(to_lower(c), true);
                self.state = State::AttributeName;
            }
        },
        State::AttributeName => {
            if c == ' ' {
                self.state = State::AfterAttributeName;
            } else if c == '/' {
                self.state = State::SelfClosingStartTag;
            } else if c == '>' {
                self.state = State::Data;
                return Some(self.take_latest_token());
            } else if eof {
                return Some(Some(HtmlToken::Eof));
            } else if c == '=' {
                self.state = State::BeforeAttributeValue;
            } else {
                self.append_attribute(to_lower(c), true);
            }
        },
        State::AfterAttributeName => {
            if c == ' ' {
                // skipped
            } else if c == '/' {
                self.state = State::SelfClosingStartTag;
            } else if c == '=' {
                self.state = State::BeforeAttributeValue;
            } else if c == '>' {
                self.state = State::Data;
                return Some(self.take_latest_token());
            } else if eof {
                return Some(Some(HtmlToken::Eof));
            } else {
                self.start_new_attribute();
                self.append_attribute(to_lower(c), true);
                self.state = State::AttributeName;
            }
        },
        State::BeforeAttributeValue => {
            if c == ' ' {
                // skipped
            } else if c == '"' {
                self.state = State::AttributeValueDoubleQuoted;
            } else if c == '\'' {
                self.state = State::AttributeValueSingleQuoted;
            } else if c == '>' {
                self.state = State::Data;
                return Some(self.take_latest_token());
            } else if eof {
                return Some(Some(HtmlToken::Eof));
            } else {
                self.append_attribute(c, false);
                self.state = State::AttributeValueUnquoted;
            }
        },
        State::AttributeValueDoubleQuoted => {
            if c == '"' {
                self.state = State::AfterAttributeValueQuoted;
            } else if eof {
                return Some(Some(HtmlToken::Eof));
            } else {
                self.append_attribute(c, false);
            }
        },
        State::AttributeValueSingleQuoted => {
            if c == '\'' {
                self.state = State::AfterAttributeValueQuoted;
            } else if eof {
                return Some(Some(HtmlToken::Eof));
            } else {
                self.append_attribute(c, false);
            }
        },
        State::AttributeValueUnquoted => {
            if c == ' ' {
                self.state = State::BeforeAttributeName;
            } else if c == '>' {
                self.state = State::Data;
                return Some(self.take_latest_token());
            } else if eof {
                return Some(Some(HtmlToken::Eof));
            } else {
                self.append_attribute(c, false);
            }
        },
        State::AfterAttributeValueQuoted => {
            if c == ' ' {
                self.state = State::BeforeAttributeName;
            } else if c == '/' {
                self.state = State::SelfClosingStartTag;
            } else if c == '>' {
                self.state = State::Data;
                return Some(self.take_latest_token());
            } else if eof {
                return Some(Some(HtmlToken::Eof));
            } else if c == '"' {
                self.state = State::AttributeValueDoubleQuoted;
            } else if c == '\'' {
                self.state = State::AttributeValueSingleQuoted;
            } else {
                self.append_attribute(c, false);
                self.state = State::AttributeValueUnquoted;
            }
        },
        State::SelfClosingStartTag => {
            if c == '>' {
                self.set_self_closing_flag();
                self.state = State::Data;
                return Some(self.take_latest_token());
            } else if eof {
                return Some(Some(HtmlToken::Eof));
            }
        },
        State::ScriptData => {
            if c == '<' {
                self.state = State::ScriptDataLessThanSign;
            } else if eof {
                return Some(Some(HtmlToken::Eof));
            } else {
                return Some(Some(HtmlToken::Char(c)));
            }
        },
        State::ScriptDataLessThanSign => {
            if c == '/' {
                self.buf = Vec::new();
                self.state = State::ScriptDataEndTagOpen;
            } else {
                self.pending = Some(c);
                self.state = State::ScriptData;
                return Some(Some(HtmlToken::Char('<')));
            }
        },
        State::ScriptDataEndTagOpen => {
            if alpha_char(c) {
                self.create_tag(false);
                self.append_tag_name(to_lower(c));
                self.buf.push(c);
                self.state = State::ScriptDataEndTagName;
            } else {
                self.pending = Some(c);
                self.state = State::ScriptData;
                return Some(Some(HtmlToken::Char('<')));
            }
        },
        State::ScriptDataEndTagName => {
            if c == '>' {
                self.state = State::Data;
                return Some(self.take_latest_token());
            } else if alpha_char(c) {
                self.buf.push(c);
                self.append_tag_name(to_lower(c));
            } else if eof {
                return Some(Some(HtmlToken::Eof));
            } else {
                self.buf = Vec::new();
                self.buf.push('<');
                self.buf.push('/');
                self.buf.push(c);
                proof {
                    assert(self.buf@ =~= seq!['<', '/', c]);
                }
                self.state = State::TemporaryBuffer;
            }
        },
        State::TemporaryBuffer => {
            if self.buf.len() == 0 {
                if c == '<' {
                    self.state = State::ScriptDataLessThanSign;
                } else if eof {
                    self.state = State::ScriptData;
                    return Some(Some(HtmlToken::Eof));
                } else {
                    self.state = State::ScriptData;
                    return Some(Some(HtmlToken::Char(c)));
                }
            } else {
                let emit = self.buf.remove(0);
                proof {
                    assert(self.buf@ =~= pre.buf.subrange(1, pre.buf.len() as int));
                }
                self.pending = Some(c);
                return Some(Some(HtmlToken::Char(emit)));
            }
        },
    }
        None
    }

    /// The next token of the markup text, or nothing once the cursor has
    /// reached the end: exactly what `tk_next` says.
    pub fn next(&mut self) -> (r: Option<HtmlToken>)
        ensures
            ({
                let (s2, t) = tk_next(old(self)@);
                &&& final(self)@ == s2
                &&& tok_opt_view(r) == t
                &&& r is Some ==> tk_fuel(final(self)@) < tk_fuel(old(self)@)
            }),
    {
        if self.pos >= self.input.len() {
            return None;
        }
        let ghost st0 = self@;
        loop
            invariant
                st0 == old(self)@,
                st0.pos < st0.input.len(),
                self@.input == st0.input,
                0 <= self@.pos <= self@.input.len(),
                tk_run(self@) == tk_run(st0),
                tk_measure(self@) <= tk_measure(st0),
            decreases tk_measure(self@),
        {
            let ghost pre = self@;
            proof {
                lemma_tk_dispatch_measure(pre);
            }
            let (c, eof) = self.consume_next_input();
            match self.dispatch(c, eof) {
                None => {},
                Some(out) => {
                    return out;
                },
            }
        }
    }
}

} // verus!
