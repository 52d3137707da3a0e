//! Tree construction: an insertion-mode state machine folds the token
//! stream into the DOM arena.
//!
//! The builder tolerates malformed input: missing `<html>`, `<head>` or
//! `<body>` elements are supplied, unknown tags are skipped, stray end tags
//! are ignored, and a truncated stream yields the tree built so far. The
//! stack and insertion primitives each carry an exact contract; the whole
//! construction keeps the tree well-formed (`window_wf`).

use vstd::prelude::*;

use crate::dom::node::Element;
use crate::dom::node::ElementKind;
use crate::dom::node::Node;
use crate::dom::node::NodeKind;
use crate::dom::node::NodeKindV;
use crate::dom::node::NodeV;
use crate::dom::node::ElementV;
use crate::dom::node::Window;
use crate::dom::node::append_spec;
use crate::dom::node::kind_from_tag;
use crate::dom::node::nv_element_kind;
use crate::dom::node::window_wf;
use crate::dom::node::doc_one_child;
use crate::html::attribute::Attribute;
use crate::html::attribute::AttrV;
use crate::html::attribute::attrs_view;
use crate::html::token::HtmlLexState;
use crate::html::token::HtmlTok;
use crate::html::token::HtmlToken;
use crate::html::token::HtmlTokenizer;
use crate::html::token::tk_fuel;
use crate::html::token::tk_next;
use crate::html::token::token_stream;
use crate::html::token::tok_opt_view;
use crate::text::str_eq;
use crate::text::push_char;

verus! {

#[derive(Debug, Copy, Clone, PartialEq, Eq)]
pub enum InsertionMode {
    Initial,
    BeforeHtml,
    BeforeHead,
    InHead,
    AfterHead,
    InBody,
    Text,
    AfterBody,
    AfterAfterBody,
}

/// Builder state: the tree, the modes, the open-element stack (as arena
/// indices) and the tokenizer.
pub struct ParserV {
    pub window: Seq<NodeV>,
    pub mode: InsertionMode,
    pub original_insertion_mode: InsertionMode,
    pub stack: Seq<int>,
    pub tk: HtmlLexState,
}

pub open spec fn stack_view(v: Seq<usize>) -> Seq<int> {
    v.map_values(|x: usize| x as int)
}

/// Every open element lies inside the arena.
pub open spec fn stack_ok(w: Seq<NodeV>, st: Seq<int>) -> bool {
    forall|i: int| 0 <= i < st.len() ==> 0 <= #[trigger] st[i] < w.len()
}

/// The insertion point: the innermost open element, or the document.
pub open spec fn current_of(st: Seq<int>) -> int {
    if st.len() > 0 {
        st.last()
    } else {
        0
    }
}

/// An element inserted as the last child of the current node and opened on
/// the stack.
pub open spec fn insert_element_spec(
    w: Seq<NodeV>,
    st: Seq<int>,
    k: ElementKind,
    attrs: Seq<AttrV>,
) -> (Seq<NodeV>, Seq<int>) {
    let w2 = append_spec(w, current_of(st), NodeKindV::Element(ElementV { kind: k, attributes: attrs }));
    (w2, st.push(w.len() as int))
}

/// The top popped when it is an element of the wanted kind.
pub open spec fn pop_current_spec(w: Seq<NodeV>, st: Seq<int>, k: ElementKind) -> (bool, Seq<int>) {
    if st.len() > 0 && nv_element_kind(w[st.last()]) == Some(k) {
        (true, st.drop_last())
    } else {
        (false, st)
    }
}

/// Entries popped until one of the wanted kind has come off; an absent kind
/// empties the stack.
pub open spec fn pop_until_spec(w: Seq<NodeV>, st: Seq<int>, k: ElementKind) -> Seq<int>
    decreases st.len(),
{
    if st.len() == 0 {
        st
    } else if nv_element_kind(w[st.last()]) == Some(k) {
        st.drop_last()
    } else {
        pop_until_spec(w, st.drop_last(), k)
    }
}

/// An element of the wanted kind is somewhere on the stack.
pub open spec fn contains_spec(w: Seq<NodeV>, st: Seq<int>, k: ElementKind) -> bool {
    exists|i: int| 0 <= i < st.len() && nv_element_kind(w[#[trigger] st[i]]) == Some(k)
}

/// A character folded into the tree: appended to the current text node,
/// dropped when it is boundary whitespace, and otherwise opened as a fresh
/// text node on the stack. With no open element nothing happens.
pub open spec fn insert_char_spec(w: Seq<NodeV>, st: Seq<int>, c: char) -> (Seq<NodeV>, Seq<int>) {
    if st.len() == 0 {
        (w, st)
    } else {
        let cur = st.last();
        if w[cur].kind is Text {
            (
                w.update(cur, NodeV { kind: NodeKindV::Text(w[cur].kind->Text_0.push(c)), ..w[cur] }),
                st,
            )
        } else if c == ' ' || c == '\n' {
            (w, st)
        } else {
            (
                append_spec(w, cur, NodeKindV::Text(Seq::<char>::empty().push(c))),
                st.push(w.len() as int),
            )
        }
    }
}

/// How far a mode can fall through while holding on to the same token:
/// every transition that keeps the token strictly lowers this rank, so the
/// construction loop always makes progress.
pub open spec fn mode_rank(m: InsertionMode, t: Option<HtmlTok>) -> int {
    match m {
        InsertionMode::Text => 11,
        InsertionMode::Initial => 10,
        InsertionMode::BeforeHtml => 9,
        InsertionMode::BeforeHead => 8,
        InsertionMode::InHead => 6,
        InsertionMode::AfterHead => 5,
        InsertionMode::AfterAfterBody => 4,
        InsertionMode::InBody => if t matches Some(HtmlTok::EndTag { tag }) && tag == "html"@ {
            3int
        } else {
            1int
        },
        InsertionMode::AfterBody => 2,
    }
}

fn tok_is_char_ws(t: &Option<HtmlToken>) -> (r: bool)
    ensures
        r == (tok_opt_view(*t) matches Some(HtmlTok::Char(c)) && (c == ' ' || c == '\n')),
{
    match t {
        Some(HtmlToken::Char(c)) => *c == ' ' || *c == '\n',
        _ => false,
    }
}

fn tok_char_value(t: &Option<HtmlToken>) -> (r: Option<char>)
    ensures
        match tok_opt_view(*t) {
            Some(HtmlTok::Char(c)) => r == Some(c),
            _ => r is None,
        },
{
    match t {
        Some(HtmlToken::Char(c)) => Some(*c),
        _ => None,
    }
}

fn tok_is_eof(t: &Option<HtmlToken>) -> (r: bool)
    ensures
        r == (tok_opt_view(*t) matches Some(HtmlTok::Eof)),
{
    match t {
        Some(HtmlToken::Eof) => true,
        _ => false,
    }
}

fn tok_is_start(t: &Option<HtmlToken>) -> (r: bool)
    ensures
        r == (tok_opt_view(*t) matches Some(HtmlTok::StartTag { tag, self_closing, attributes })),
{
    match t {
        Some(HtmlToken::StartTag { .. }) => true,
        _ => false,
    }
}

fn tok_is_end(t: &Option<HtmlToken>) -> (r: bool)
    ensures
        r == (tok_opt_view(*t) matches Some(HtmlTok::EndTag { tag })),
{
    match t {
        Some(HtmlToken::EndTag { .. }) => true,
        _ => false,
    }
}

fn tok_start_named(t: &Option<HtmlToken>, name: &str) -> (r: bool)
    ensures
        r == (tok_opt_view(*t) matches Some(HtmlTok::StartTag { tag, self_closing, attributes })
            && tag == name@),
{
    match t {
        Some(HtmlToken::StartTag { tag, .. }) => str_eq(tag.as_str(), name),
        _ => false,
    }
}

fn tok_end_named(t: &Option<HtmlToken>, name: &str) -> (r: bool)
    ensures
        r == (tok_opt_view(*t) matches Some(HtmlTok::EndTag { tag }) && tag == name@),
{
    match t {
        Some(HtmlToken::EndTag { tag }) => str_eq(tag.as_str(), name),
        _ => false,
    }
}

fn tok_start_kind(t: &Option<HtmlToken>) -> (r: Option<ElementKind>)
    ensures
        match tok_opt_view(*t) {
            Some(HtmlTok::StartTag { tag, self_closing, attributes }) => r == kind_from_tag(tag),
            _ => r is None,
        },
{
    match t {
        Some(HtmlToken::StartTag { tag, .. }) => crate::dom::node::element_kind_of(tag.as_str()),
        _ => None,
    }
}

fn tok_end_kind(t: &Option<HtmlToken>) -> (r: Option<ElementKind>)
    ensures
        match tok_opt_view(*t) {
            Some(HtmlTok::EndTag { tag }) => r == kind_from_tag(tag),
            _ => r is None,
        },
{
    match t {
        Some(HtmlToken::EndTag { tag }) => crate::dom::node::element_kind_of(tag.as_str()),
        _ => None,
    }
}

/// Token shapes the state machine dispatches on.
pub open spec fn t_is_ws_char(t: HtmlTok) -> bool {
    t matches HtmlTok::Char(c) && (c == ' ' || c == '\n')
}

pub open spec fn t_start_named(t: HtmlTok, name: Seq<char>) -> bool {
    t matches HtmlTok::StartTag { tag, self_closing, attributes } && tag == name
}

pub open spec fn t_end_named(t: HtmlTok, name: Seq<char>) -> bool {
    t matches HtmlTok::EndTag { tag } && tag == name
}

pub open spec fn t_start_tag_name(t: HtmlTok) -> Seq<char> {
    t->StartTag_tag
}

pub open spec fn t_start_attrs(t: HtmlTok) -> Seq<AttrV> {
    t->StartTag_attributes
}

/// The mode a text run returns to. Text itself can never be the saved
/// mode, so the guard only rules out a state the builder cannot reach.
pub open spec fn restore_mode(m: InsertionMode) -> InsertionMode {
    if m is Text {
        InsertionMode::Initial
    } else {
        m
    }
}

/// The guarded pop the builder uses for stray end tags: only when an
/// element of the kind is open at all.
pub open spec fn guarded_pop(w: Seq<NodeV>, st: Seq<int>, k: ElementKind) -> Seq<int> {
    if contains_spec(w, st, k) {
        pop_until_spec(w, st, k)
    } else {
        st
    }
}

/// The state after inserting the element a start tag names.
pub open spec fn tb_insert(p: ParserV, tag: Seq<char>, attrs: Seq<AttrV>) -> ParserV {
    let (w2, st2) = insert_element_spec(p.window, p.stack, kind_from_tag(tag)->0, attrs);
    ParserV { window: w2, stack: st2, ..p }
}

/// The whole tree construction, token by token: exactly the insertion-mode
/// machine of `construct_tree`. The result is the finished tree.
pub open spec fn tb_run(p: ParserV, token: Option<HtmlTok>) -> Seq<NodeV>
    decreases (if token is Some {
        1int
    } else {
        0int
    }), tk_fuel(p.tk), mode_rank(p.mode, token),
    via tb_run_dec
{
    match token {
        None => p.window,
        Some(tok) => {
            let (tk2, t2) = tk_next(p.tk);
            match p.mode {
                InsertionMode::Initial => {
                    if tok is Char {
                        tb_run(ParserV { tk: tk2, ..p }, t2)
                    } else {
                        tb_run(ParserV { mode: InsertionMode::BeforeHtml, ..p }, token)
                    }
                },
                InsertionMode::BeforeHtml => {
                    if t_is_ws_char(tok) {
                        tb_run(ParserV { tk: tk2, ..p }, t2)
                    } else if t_start_named(tok, "html"@) {
                        let p2 = tb_insert(p, t_start_tag_name(tok), t_start_attrs(tok));
                        tb_run(ParserV { mode: InsertionMode::BeforeHead, tk: tk2, ..p2 }, t2)
                    } else if tok is Eof {
                        p.window
                    } else {
                        let p2 = tb_insert(p, "html"@, Seq::<AttrV>::empty());
                        tb_run(ParserV { mode: InsertionMode::BeforeHead, ..p2 }, token)
                    }
                },
                InsertionMode::BeforeHead => {
                    if t_is_ws_char(tok) {
                        tb_run(ParserV { tk: tk2, ..p }, t2)
                    } else if t_start_named(tok, "head"@) {
                        let p2 = tb_insert(p, t_start_tag_name(tok), t_start_attrs(tok));
                        tb_run(ParserV { mode: InsertionMode::InHead, tk: tk2, ..p2 }, t2)
                    } else if tok is Eof {
                        p.window
                    } else {
                        let p2 = tb_insert(p, "head"@, Seq::<AttrV>::empty());
                        tb_run(ParserV { mode: InsertionMode::InHead, ..p2 }, token)
                    }
                },
                InsertionMode::InHead => {
                    if t_is_ws_char(tok) {
                        let (w2, st2) = insert_char_spec(p.window, p.stack, tok->Char_0);
                        tb_run(ParserV { window: w2, stack: st2, tk: tk2, ..p }, t2)
                    } else if t_start_named(tok, "style"@) || t_start_named(tok, "script"@) {
                        let p2 = tb_insert(p, t_start_tag_name(tok), t_start_attrs(tok));
                        tb_run(
                            ParserV {
                                original_insertion_mode: InsertionMode::InHead,
                                mode: InsertionMode::Text,
                                tk: tk2,
                                ..p2
                            },
                            t2,
                        )
                    } else if t_start_named(tok, "body"@) {
                        let st2 = guarded_pop(p.window, p.stack, ElementKind::Head);
                        tb_run(
                            ParserV { stack: st2, mode: InsertionMode::AfterHead, ..p },
                            token,
                        )
                    } else if tok is StartTag && kind_from_tag(t_start_tag_name(tok)) is Some {
                        let st2 = guarded_pop(p.window, p.stack, ElementKind::Head);
                        tb_run(
                            ParserV { stack: st2, mode: InsertionMode::AfterHead, ..p },
                            token,
                        )
                    } else if t_end_named(tok, "head"@) {
                        let st2 = guarded_pop(p.window, p.stack, ElementKind::Head);
                        tb_run(
                            ParserV { stack: st2, mode: InsertionMode::AfterHead, tk: tk2, ..p },
                            t2,
                        )
                    } else if tok is Eof {
                        p.window
                    } else {
                        tb_run(ParserV { tk: tk2, ..p }, t2)
                    }
                },
                InsertionMode::AfterHead => {
                    if t_is_ws_char(tok) {
                        let (w2, st2) = insert_char_spec(p.window, p.stack, tok->Char_0);
                        tb_run(ParserV { window: w2, stack: st2, tk: tk2, ..p }, t2)
                    } else if t_start_named(tok, "body"@) {
                        let p2 = tb_insert(p, t_start_tag_name(tok), t_start_attrs(tok));
                        tb_run(ParserV { mode: InsertionMode::InBody, tk: tk2, ..p2 }, t2)
                    } else if tok is Eof {
                        p.window
                    } else {
                        let p2 = tb_insert(p, "body"@, Seq::<AttrV>::empty());
                        tb_run(ParserV { mode: InsertionMode::InBody, ..p2 }, token)
                    }
                },
                InsertionMode::InBody => {
                    if tok is StartTag {
                        if t_start_named(tok, "p"@) || t_start_named(tok, "h1"@) || t_start_named(
                            tok,
                            "h2"@,
                        ) || t_start_named(tok, "a"@) {
                            let p2 = tb_insert(p, t_start_tag_name(tok), t_start_attrs(tok));
                            tb_run(ParserV { tk: tk2, ..p2 }, t2)
                        } else {
                            tb_run(ParserV { tk: tk2, ..p }, t2)
                        }
                    } else if tok is EndTag {
                        if t_end_named(tok, "body"@) {
                            let st2 = guarded_pop(p.window, p.stack, ElementKind::Body);
                            tb_run(
                                ParserV { stack: st2, mode: InsertionMode::AfterBody, tk: tk2, ..p },
                                t2,
                            )
                        } else if t_end_named(tok, "html"@) {
                            let (popped, st2) = pop_current_spec(p.window, p.stack, ElementKind::Body);
                            if popped {
                                let (p2, st3) = pop_current_spec(p.window, st2, ElementKind::Html);
                                tb_run(
                                    ParserV { stack: st3, mode: InsertionMode::AfterBody, ..p },
                                    token,
                                )
                            } else {
                                tb_run(ParserV { tk: tk2, ..p }, t2)
                            }
                        } else if t_end_named(tok, "p"@) || t_end_named(tok, "h1"@)
                            || t_end_named(tok, "h2"@) || t_end_named(tok, "a"@) {
                            let st2 = guarded_pop(
                                p.window,
                                p.stack,
                                kind_from_tag(tok->EndTag_tag)->0,
                            );
                            tb_run(ParserV { stack: st2, tk: tk2, ..p }, t2)
                        } else {
                            tb_run(ParserV { tk: tk2, ..p }, t2)
                        }
                    } else if tok is Eof {
                        p.window
                    } else {
                        let (w2, st2) = insert_char_spec(p.window, p.stack, tok->Char_0);
                        tb_run(ParserV { window: w2, stack: st2, tk: tk2, ..p }, t2)
                    }
                },
                InsertionMode::Text => {
                    if tok is Eof {
                        p.window
                    } else if t_end_named(tok, "style"@) {
                        let st2 = guarded_pop(p.window, p.stack, ElementKind::Style);
                        tb_run(
                            ParserV {
                                stack: st2,
                                mode: restore_mode(p.original_insertion_mode),
                                tk: tk2,
                                ..p
                            },
                            t2,
                        )
                    } else if t_end_named(tok, "script"@) {
                        let st2 = guarded_pop(p.window, p.stack, ElementKind::Script);
                        tb_run(
                            ParserV {
                                stack: st2,
                                mode: restore_mode(p.original_insertion_mode),
                                tk: tk2,
                                ..p
                            },
                            t2,
                        )
                    } else if tok is Char {
                        let (w2, st2) = insert_char_spec(p.window, p.stack, tok->Char_0);
                        tb_run(ParserV { window: w2, stack: st2, tk: tk2, ..p }, t2)
                    } else {
                        tb_run(ParserV { mode: restore_mode(p.original_insertion_mode), ..p }, token)
                    }
                },
                InsertionMode::AfterBody => {
                    if tok is Char {
                        tb_run(ParserV { tk: tk2, ..p }, t2)
                    } else if t_end_named(tok, "html"@) {
                        tb_run(ParserV { mode: InsertionMode::AfterAfterBody, tk: tk2, ..p }, t2)
                    } else if tok is Eof {
                        p.window
                    } else {
                        tb_run(ParserV { mode: InsertionMode::InBody, ..p }, token)
                    }
                },
                InsertionMode::AfterAfterBody => {
                    if tok is Char {
                        tb_run(ParserV { tk: tk2, ..p }, t2)
                    } else if tok is Eof {
                        p.window
                    } else {
                        tb_run(ParserV { mode: InsertionMode::InBody, ..p }, token)
                    }
                },
            }
        },
    }
}

#[via_fn]
proof fn tb_run_dec(p: ParserV, token: Option<HtmlTok>) {
    crate::html::token::lemma_tk_next_fuel(p.tk);
}

/// No end tag named `html` is anywhere in the stream ahead.
pub open spec fn no_html_end_tag(st: HtmlLexState) -> bool {
    forall|i: int|
        0 <= i < token_stream(st).len() ==> !t_end_named(#[trigger] token_stream(st)[i], "html"@)
}

/// Taking one token off an `html`-end-free stream yields no such end tag
/// and leaves the rest free of them too.
proof fn lemma_no_html_step(st: HtmlLexState)
    requires
        no_html_end_tag(st),
    ensures
        match tk_next(st) {
            (s2, Some(t)) => !t_end_named(t, "html"@) && no_html_end_tag(s2),
            (s2, None) => true,
        },
{
    let (s2, t) = tk_next(st);
    match t {
        Some(t0) => {
            assert(token_stream(st) == seq![t0] + token_stream(s2));
            assert(token_stream(st)[0] == t0);
            assert forall|i: int|
                0 <= i < token_stream(s2).len() implies !t_end_named(
                #[trigger] token_stream(s2)[i],
                "html"@,
            ) by {
                assert(token_stream(st)[i + 1] == token_stream(s2)[i]);
            }
        },
        None => {},
    }
}

/// A builder that has not started: nothing open, nothing under the
/// document, and a mode from before the first insertion.
pub open spec fn builder_pristine(p: ParserV) -> bool {
    &&& p.stack.len() == 0
    &&& p.window[0].first_child is None
    &&& (p.mode == InsertionMode::Initial || p.mode == InsertionMode::BeforeHtml)
}

/// What every reachable builder state satisfies: a well-formed tree whose
/// document has at most one child, a stack of element indices whose bottom
/// is the html element, and modes consistent with an empty stack.
pub open spec fn builder_inv(p: ParserV) -> bool {
    &&& window_wf(p.window)
    &&& stack_ok(p.window, p.stack)
    &&& doc_one_child(p.window)
    &&& (p.stack.len() == 0 ==> p.window[0].first_child is None)
    &&& (p.stack.len() == 0 ==> (p.mode == InsertionMode::Initial || p.mode
        == InsertionMode::BeforeHtml))
    &&& (p.stack.len() > 0 ==> nv_element_kind(p.window[p.stack[0]]) == Some(ElementKind::Html))
    &&& (forall|i: int| 0 <= i < p.stack.len() ==> #[trigger] p.stack[i] >= 1)
}

/// Popping for any kind but the html element keeps the stack's bottom.
proof fn lemma_pop_until_prefix(w: Seq<NodeV>, st: Seq<int>, k: ElementKind)
    requires
        contains_spec(w, st, k),
        nv_element_kind(w[st[0]]) != Some(k),
    ensures
        ({
            let r = pop_until_spec(w, st, k);
            &&& 1 <= r.len() <= st.len()
            &&& forall|i: int| 0 <= i < r.len() ==> #[trigger] r[i] == st[i]
        }),
    decreases st.len(),
{
    let wit = choose|i: int|
        0 <= i < st.len() && nv_element_kind(w[#[trigger] st[i]]) == Some(k);
    assert(0 <= wit < st.len() && nv_element_kind(w[st[wit]]) == Some(k));
    if nv_element_kind(w[st.last()]) == Some(k) {
        if st.len() == 1 {
            assert(st.last() == st[0]);
        }
        assert(st.len() >= 2);
    } else {
        let r0 = st.drop_last();
        assert(wit < st.len() - 1);
        assert(r0[wit] == st[wit]);
        assert(contains_spec(w, r0, k));
        assert(r0[0] == st[0]);
        lemma_pop_until_prefix(w, r0, k);
        let r = pop_until_spec(w, st, k);
        assert(st.len() > 0);
        assert(r == pop_until_spec(w, r0, k));
        assert(r.len() >= 1);
        assert forall|i: int| 0 <= i < r.len() implies #[trigger] r[i] == st[i] by {
            assert(pop_until_spec(w, r0, k)[i] == r0[i]);
            assert(r0[i] == st[i]);
        }
    }
}

proof fn lemma_guarded_pop_keeps(w: Seq<NodeV>, st: Seq<int>, k: ElementKind)
    requires
        st.len() > 0,
        nv_element_kind(w[st[0]]) == Some(ElementKind::Html),
        k != ElementKind::Html,
    ensures
        ({
            let r = guarded_pop(w, st, k);
            &&& 1 <= r.len() <= st.len()
            &&& forall|i: int| 0 <= i < r.len() ==> #[trigger] r[i] == st[i]
        }),
{
    if contains_spec(w, st, k) {
        lemma_pop_until_prefix(w, st, k);
    }
}

/// Inserting an element keeps the builder invariant; at the root it must be
/// the html element, which only the mode before the first insertion sends.
proof fn lemma_insert_inv(p: ParserV, tag: Seq<char>, attrs: Seq<AttrV>)
    requires
        builder_inv(p),
        kind_from_tag(tag) is Some,
        p.stack.len() == 0 ==> kind_from_tag(tag) == Some(ElementKind::Html),
    ensures
        builder_inv(tb_insert(p, tag, attrs)),
        tb_insert(p, tag, attrs).stack.len() > 0,
        tb_insert(p, tag, attrs).mode == p.mode,
        tb_insert(p, tag, attrs).original_insertion_mode == p.original_insertion_mode,
        tb_insert(p, tag, attrs).tk == p.tk,
{
    let cur = current_of(p.stack);
    let kv = NodeKindV::Element(ElementV { kind: kind_from_tag(tag)->0, attributes: attrs });
    let nid = p.window.len() as int;
    let p2 = tb_insert(p, tag, attrs);
    if p.stack.len() > 0 {
        assert(cur == p.stack[p.stack.len() - 1]);
        assert(0 <= p.stack[p.stack.len() - 1] < p.window.len());
        assert(p.stack[p.stack.len() - 1] >= 1);
    }
    assert(0 <= cur < p.window.len());
    if p.window[cur].first_child is Some {
        assert(crate::dom::node::node_links_ok(p.window, cur));
        crate::dom::node::lemma_last_sibling_bounds(p.window, p.window[cur].first_child->0);
    }
    crate::dom::node::lemma_append_wf(p.window, cur, kv);
    assert(p2.window.len() == p.window.len() + 1);
    assert(p2.stack == p.stack.push(nid));
    assert(nid >= 1);
    assert forall|i: int| 0 <= i < p2.stack.len() implies #[trigger] p2.stack[i] >= 1 by {
        if i < p.stack.len() {
            assert(p2.stack[i] == p.stack[i]);
            assert(p.stack[i] >= 1);
        } else {
            assert(p2.stack[i] == nid);
        }
    }
    assert forall|i: int|
        0 <= i < p2.stack.len() implies 0 <= #[trigger] p2.stack[i] < p2.window.len() by {
        if i < p.stack.len() {
            assert(p2.stack[i] == p.stack[i]);
            assert(0 <= p.stack[i] < p.window.len());
        } else {
            assert(p2.stack[i] == nid);
        }
    }
    if p.stack.len() == 0 {
        assert(p2.window[nid].next_sibling is None);
        assert(p2.stack[0] == nid);
        assert(nv_element_kind(p2.window[nid]) == Some(ElementKind::Html));
        assert(p2.window[0].first_child == Some(nid));
    } else {
        crate::dom::node::lemma_append_keeps_one_child(p.window, cur, kv);
        assert(p2.stack[0] == p.stack[0]);
        assert(p2.window[p.stack[0]].kind == p.window[p.stack[0]].kind);
    }
}

/// Folding a character in keeps the builder invariant.
proof fn lemma_insert_char_inv(p: ParserV, c: char)
    requires
        builder_inv(p),
    ensures
        ({
            let (w2, st2) = insert_char_spec(p.window, p.stack, c);
            builder_inv(ParserV { window: w2, stack: st2, ..p })
        }),
{
    if p.stack.len() > 0 {
        let cur = p.stack.last();
        assert(p.stack[p.stack.len() - 1] >= 1);
        if p.window[cur].kind is Text {
            crate::dom::node::lemma_text_update_wf(p.window, cur, c);
            assert(p.stack[0] != cur || !(nv_element_kind(p.window[p.stack[0]]) == Some(
                ElementKind::Html,
            )) || !(p.window[cur].kind is Text));
        } else if c == ' ' || c == '\n' {
        } else {
            let kv = NodeKindV::Text(Seq::<char>::empty().push(c));
            assert(cur == p.stack[p.stack.len() - 1]);
            assert(0 <= p.stack[p.stack.len() - 1] < p.window.len());
            if p.window[cur].first_child is Some {
                assert(crate::dom::node::node_links_ok(p.window, cur));
                crate::dom::node::lemma_last_sibling_bounds(
                    p.window,
                    p.window[cur].first_child->0,
                );
            }
            crate::dom::node::lemma_append_wf(p.window, cur, kv);
            crate::dom::node::lemma_append_keeps_one_child(p.window, cur, kv);
            let (w2, st2) = insert_char_spec(p.window, p.stack, c);
            assert(w2.len() == p.window.len() + 1);
            let nid = p.window.len() as int;
            assert(st2 == p.stack.push(nid));
            assert(st2[0] == p.stack[0]);
            assert(w2[p.stack[0]].kind == p.window[p.stack[0]].kind);
            assert forall|i: int| 0 <= i < st2.len() implies #[trigger] st2[i] >= 1 by {
                if i < p.stack.len() {
                    assert(st2[i] == p.stack[i]);
                    assert(p.stack[i] >= 1);
                } else {
                    assert(st2[i] == nid);
                }
            }
            assert forall|i: int|
                0 <= i < st2.len() implies 0 <= #[trigger] st2[i] < w2.len() by {
                if i < p.stack.len() {
                    assert(st2[i] == p.stack[i]);
                    assert(0 <= p.stack[i] < p.window.len());
                } else {
                    assert(st2[i] == nid);
                }
            }
        }
    }
}

/// The document never gains a second root child as long as no `</html>` end
/// tag arrives: insertions then always happen under an open element, and
/// the open-element stack never empties once the html element is open.
#[verifier::rlimit(100)]
pub proof fn lemma_single_root_child(p: ParserV, token: Option<HtmlTok>)
    requires
        builder_inv(p),
        match token {
            Some(t) => !t_end_named(t, "html"@) && no_html_end_tag(p.tk),
            None => true,
        },
    ensures
        doc_one_child(tb_run(p, token)),
    decreases (if token is Some {
        1int
    } else {
        0int
    }), tk_fuel(p.tk), mode_rank(p.mode, token),
{
    match token {
        None => {},
        Some(tok) => {
            let (tk2, t2) = tk_next(p.tk);
            lemma_no_html_step(p.tk);
            crate::html::token::lemma_tk_next_fuel(p.tk);
            match p.mode {
                InsertionMode::Initial => {
                    if tok is Char {
                        lemma_single_root_child(ParserV { tk: tk2, ..p }, t2);
                    } else {
                        lemma_single_root_child(
                            ParserV { mode: InsertionMode::BeforeHtml, ..p },
                            token,
                        );
                    }
                },
                InsertionMode::BeforeHtml => {
                    if t_is_ws_char(tok) {
                        lemma_single_root_child(ParserV { tk: tk2, ..p }, t2);
                    } else if t_start_named(tok, "html"@) {
                        lemma_insert_inv(p, t_start_tag_name(tok), t_start_attrs(tok));
                        let p2 = tb_insert(p, t_start_tag_name(tok), t_start_attrs(tok));
                        lemma_single_root_child(
                            ParserV { mode: InsertionMode::BeforeHead, tk: tk2, ..p2 },
                            t2,
                        );
                    } else if tok is Eof {
                    } else {
                        lemma_insert_inv(p, "html"@, Seq::<AttrV>::empty());
                        let p2 = tb_insert(p, "html"@, Seq::<AttrV>::empty());
                        lemma_single_root_child(
                            ParserV { mode: InsertionMode::BeforeHead, ..p2 },
                            token,
                        );
                    }
                },
                InsertionMode::BeforeHead => {
                    assert(p.stack.len() > 0);
                    if t_is_ws_char(tok) {
                        lemma_single_root_child(ParserV { tk: tk2, ..p }, t2);
                    } else if t_start_named(tok, "head"@) {
                        lemma_insert_inv(p, t_start_tag_name(tok), t_start_attrs(tok));
                        let p2 = tb_insert(p, t_start_tag_name(tok), t_start_attrs(tok));
                        lemma_single_root_child(
                            ParserV { mode: InsertionMode::InHead, tk: tk2, ..p2 },
                            t2,
                        );
                    } else if tok is Eof {
                    } else {
                        lemma_insert_inv(p, "head"@, Seq::<AttrV>::empty());
                        let p2 = tb_insert(p, "head"@, Seq::<AttrV>::empty());
                        lemma_single_root_child(ParserV { mode: InsertionMode::InHead, ..p2 }, token);
                    }
                },
                InsertionMode::InHead => {
                    assert(p.stack.len() > 0);
                    if t_is_ws_char(tok) {
                        lemma_insert_char_inv(p, tok->Char_0);
                        let (w2, st2) = insert_char_spec(p.window, p.stack, tok->Char_0);
                        lemma_single_root_child(
                            ParserV { window: w2, stack: st2, tk: tk2, ..p },
                            t2,
                        );
                    } else if t_start_named(tok, "style"@) || t_start_named(tok, "script"@) {
                        lemma_insert_inv(p, t_start_tag_name(tok), t_start_attrs(tok));
                        let p2 = tb_insert(p, t_start_tag_name(tok), t_start_attrs(tok));
                        lemma_single_root_child(
                            ParserV {
                                original_insertion_mode: InsertionMode::InHead,
                                mode: InsertionMode::Text,
                                tk: tk2,
                                ..p2
                            },
                            t2,
                        );
                    } else if t_start_named(tok, "body"@) {
                        lemma_guarded_pop_keeps(p.window, p.stack, ElementKind::Head);
                        let st2 = guarded_pop(p.window, p.stack, ElementKind::Head);
                        lemma_single_root_child(
                            ParserV { stack: st2, mode: InsertionMode::AfterHead, ..p },
                            token,
                        );
                    } else if tok is StartTag && kind_from_tag(t_start_tag_name(tok)) is Some {
                        lemma_guarded_pop_keeps(p.window, p.stack, ElementKind::Head);
                        let st2 = guarded_pop(p.window, p.stack, ElementKind::Head);
                        lemma_single_root_child(
                            ParserV { stack: st2, mode: InsertionMode::AfterHead, ..p },
                            token,
                        );
                    } else if t_end_named(tok, "head"@) {
                        lemma_guarded_pop_keeps(p.window, p.stack, ElementKind::Head);
                        let st2 = guarded_pop(p.window, p.stack, ElementKind::Head);
                        lemma_single_root_child(
                            ParserV { stack: st2, mode: InsertionMode::AfterHead, tk: tk2, ..p },
                            t2,
                        );
                    } else if tok is Eof {
                    } else {
                        lemma_single_root_child(ParserV { tk: tk2, ..p }, t2);
                    }
                },
                InsertionMode::AfterHead => {
                    assert(p.stack.len() > 0);
                    if t_is_ws_char(tok) {
                        lemma_insert_char_inv(p, tok->Char_0);
                        let (w2, st2) = insert_char_spec(p.window, p.stack, tok->Char_0);
                        lemma_single_root_child(
                            ParserV { window: w2, stack: st2, tk: tk2, ..p },
                            t2,
                        );
                    } else if t_start_named(tok, "body"@) {
                        lemma_insert_inv(p, t_start_tag_name(tok), t_start_attrs(tok));
                        let p2 = tb_insert(p, t_start_tag_name(tok), t_start_attrs(tok));
                        lemma_single_root_child(
                            ParserV { mode: InsertionMode::InBody, tk: tk2, ..p2 },
                            t2,
                        );
                    } else if tok is Eof {
                    } else {
                        lemma_insert_inv(p, "body"@, Seq::<AttrV>::empty());
                        let p2 = tb_insert(p, "body"@, Seq::<AttrV>::empty());
                        lemma_single_root_child(ParserV { mode: InsertionMode::InBody, ..p2 }, token);
                    }
                },
                InsertionMode::InBody => {
                    assert(p.stack.len() > 0);
                    if tok is StartTag {
                        if t_start_named(tok, "p"@) || t_start_named(tok, "h1"@) || t_start_named(
                            tok,
                            "h2"@,
                        ) || t_start_named(tok, "a"@) {
                            lemma_insert_inv(p, t_start_tag_name(tok), t_start_attrs(tok));
                            let p2 = tb_insert(p, t_start_tag_name(tok), t_start_attrs(tok));
                            lemma_single_root_child(ParserV { tk: tk2, ..p2 }, t2);
                        } else {
                            lemma_single_root_child(ParserV { tk: tk2, ..p }, t2);
                        }
                    } else if tok is EndTag {
                        if t_end_named(tok, "body"@) {
                            lemma_guarded_pop_keeps(p.window, p.stack, ElementKind::Body);
                            let st2 = guarded_pop(p.window, p.stack, ElementKind::Body);
                            lemma_single_root_child(
                                ParserV { stack: st2, mode: InsertionMode::AfterBody, tk: tk2, ..p },
                                t2,
                            );
                        } else if t_end_named(tok, "html"@) {
                            // ruled out: no such end tag is in the stream
                        } else if t_end_named(tok, "p"@) || t_end_named(tok, "h1"@)
                            || t_end_named(tok, "h2"@) || t_end_named(tok, "a"@) {
                            let k = kind_from_tag(tok->EndTag_tag)->0;
                            assert(k != ElementKind::Html);
                            lemma_guarded_pop_keeps(p.window, p.stack, k);
                            let st2 = guarded_pop(p.window, p.stack, k);
                            lemma_single_root_child(ParserV { stack: st2, tk: tk2, ..p }, t2);
                        } else {
                            lemma_single_root_child(ParserV { tk: tk2, ..p }, t2);
                        }
                    } else if tok is Eof {
                    } else {
                        lemma_insert_char_inv(p, tok->Char_0);
                        let (w2, st2) = insert_char_spec(p.window, p.stack, tok->Char_0);
                        lemma_single_root_child(
                            ParserV { window: w2, stack: st2, tk: tk2, ..p },
                            t2,
                        );
                    }
                },
                InsertionMode::Text => {
                    assert(p.stack.len() > 0);
                    if tok is Eof {
                    } else if t_end_named(tok, "style"@) {
                        lemma_guarded_pop_keeps(p.window, p.stack, ElementKind::Style);
                        let st2 = guarded_pop(p.window, p.stack, ElementKind::Style);
                        lemma_single_root_child(
                            ParserV {
                                stack: st2,
                                mode: restore_mode(p.original_insertion_mode),
                                tk: tk2,
                                ..p
                            },
                            t2,
                        );
                    } else if t_end_named(tok, "script"@) {
                        lemma_guarded_pop_keeps(p.window, p.stack, ElementKind::Script);
                        let st2 = guarded_pop(p.window, p.stack, ElementKind::Script);
                        lemma_single_root_child(
                            ParserV {
                                stack: st2,
                                mode: restore_mode(p.original_insertion_mode),
                                tk: tk2,
                                ..p
                            },
                            t2,
                        );
                    } else if tok is Char {
                        lemma_insert_char_inv(p, tok->Char_0);
                        let (w2, st2) = insert_char_spec(p.window, p.stack, tok->Char_0);
                        lemma_single_root_child(
                            ParserV { window: w2, stack: st2, tk: tk2, ..p },
                            t2,
                        );
                    } else {
                        lemma_single_root_child(
                            ParserV { mode: restore_mode(p.original_insertion_mode), ..p },
                            token,
                        );
                    }
                },
                InsertionMode::AfterBody => {
                    assert(p.stack.len() > 0);
                    if tok is Char {
                        lemma_single_root_child(ParserV { tk: tk2, ..p }, t2);
                    } else if t_end_named(tok, "html"@) {
                        // ruled out: no such end tag is in the stream
                    } else if tok is Eof {
                    } else {
                        lemma_single_root_child(ParserV { mode: InsertionMode::InBody, ..p }, token);
                    }
                },
                InsertionMode::AfterAfterBody => {
                    assert(p.stack.len() > 0);
                    if tok is Char {
                        lemma_single_root_child(ParserV { tk: tk2, ..p }, t2);
                    } else if tok is Eof {
                    } else {
                        lemma_single_root_child(ParserV { mode: InsertionMode::InBody, ..p }, token);
                    }
                },
            }
        },
    }
}

#[derive(Debug)]
pub struct HtmlParser {
    window: Window,
    mode: InsertionMode,
    original_insertion_mode: InsertionMode,
    stack_of_open_elements: Vec<usize>,
    t: HtmlTokenizer,
}

impl View for HtmlParser {
    type V = ParserV;

    closed spec fn view(&self) -> ParserV {
        ParserV {
            window: self.window@,
            mode: self.mode,
            original_insertion_mode: self.original_insertion_mode,
            stack: stack_view(self.stack_of_open_elements@),
            tk: self.t@,
        }
    }
}

impl HtmlParser {
    pub fn new(t: HtmlTokenizer) -> (r: Self)
        ensures
            r@.window == seq![
                NodeV {
                    kind: NodeKindV::Document,
                    parent: None,
                    first_child: None,
                    last_child: None,
                    previous_sibling: None,
                    next_sibling: None,
                },
            ],
            r@.mode == InsertionMode::Initial,
            r@.original_insertion_mode == InsertionMode::Initial,
            r@.stack == Seq::<int>::empty(),
            r@.tk == t@,
            window_wf(r@.window),
    {
        let r = Self {
            window: Window::new(),
            mode: InsertionMode::Initial,
            original_insertion_mode: InsertionMode::Initial,
            stack_of_open_elements: Vec::new(),
            t,
        };
        proof {
            assert(stack_view(Seq::<usize>::empty()) =~= Seq::<int>::empty());
        }
        r
    }

    /// A fresh element node for a recognized tag.
    fn create_element(&self, tag: &str, attributes: Vec<Attribute>) -> (r: Node)
        requires
            kind_from_tag(tag@) is Some,
        ensures
            r@ == (NodeV {
                kind: NodeKindV::Element(
                    ElementV {
                        kind: kind_from_tag(tag@)->0,
                        attributes: attrs_view(attributes@),
                    },
                ),
                parent: None,
                first_child: None,
                last_child: None,
                previous_sibling: None,
                next_sibling: None,
            }),
    {
        Node::new(NodeKind::Element(Element::new(tag, attributes)))
    }

    /// Inserts an element under the current node and opens it, exactly as
    /// `insert_element_spec` says.
    fn insert_element(&mut self, tag: &str, attributes: Vec<Attribute>)
        requires
            kind_from_tag(tag@) is Some,
            window_wf(old(self)@.window),
            stack_ok(old(self)@.window, old(self)@.stack),
        ensures
            ({
                let (w2, st2) = insert_element_spec(
                    old(self)@.window,
                    old(self)@.stack,
                    kind_from_tag(tag@)->0,
                    attrs_view(attributes@),
                );
                &&& final(self)@ == (ParserV { window: w2, stack: st2, ..old(self)@ })
                &&& window_wf(final(self)@.window)
                &&& stack_ok(final(self)@.window, final(self)@.stack)
            }),
    {
        let ghost st0 = stack_view(self.stack_of_open_elements@);
        let current: usize = if self.stack_of_open_elements.len() > 0 {
            self.stack_of_open_elements[self.stack_of_open_elements.len() - 1]
        } else {
            self.window.document()
        };
        let kind = NodeKind::Element(Element::new(tag, attributes));
        let id = self.window.append_node(current, kind);
        self.stack_of_open_elements.push(id);
        proof {
            assert(stack_view(self.stack_of_open_elements@) =~= st0.push(id as int));
            assert forall|i: int|
                0 <= i < stack_view(self.stack_of_open_elements@).len() implies 0 <= #[trigger] stack_view(
                self.stack_of_open_elements@,
            )[i] < self@.window.len() by {
                if i < st0.len() {
                    assert(0 <= st0[i] < old(self)@.window.len());
                }
            }
        }
    }

    /// Pops the current node when it is an element of the wanted kind, as
    /// `pop_current_spec` says.
    fn pop_current_node(&mut self, element_kind: ElementKind) -> (r: bool)
        requires
            stack_ok(old(self)@.window, old(self)@.stack),
        ensures
            ({
                let (b, st2) = pop_current_spec(old(self)@.window, old(self)@.stack, element_kind);
                &&& r == b
                &&& final(self)@ == (ParserV { stack: st2, ..old(self)@ })
            }),
    {
        let n = self.stack_of_open_elements.len();
        if n == 0 {
            return false;
        }
        let top = self.stack_of_open_elements[n - 1];
        let matches_kind = match self.window.element_kind(top) {
            Some(k) => k == element_kind,
            None => false,
        };
        if matches_kind {
            let ghost st0 = stack_view(self.stack_of_open_elements@);
            self.stack_of_open_elements.pop();
            proof {
                assert(stack_view(self.stack_of_open_elements@) =~= st0.drop_last());
            }
            return true;
        }
        false
    }

    /// Pops until an element of the wanted kind has come off, as
    /// `pop_until_spec` says; an absent kind drains the stack.
    fn pop_until(&mut self, element_kind: ElementKind)
        requires
            stack_ok(old(self)@.window, old(self)@.stack),
        ensures
            final(self)@ == (ParserV {
                stack: pop_until_spec(old(self)@.window, old(self)@.stack, element_kind),
                ..old(self)@
            }),
            stack_ok(final(self)@.window, final(self)@.stack),
    {
        loop
            invariant
                stack_ok(self@.window, self@.stack),
                self@.window == old(self)@.window,
                self@.mode == old(self)@.mode,
                self@.original_insertion_mode == old(self)@.original_insertion_mode,
                self@.tk == old(self)@.tk,
                pop_until_spec(old(self)@.window, old(self)@.stack, element_kind)
                    == pop_until_spec(self@.window, self@.stack, element_kind),
            decreases self@.stack.len(),
        {
            let n = self.stack_of_open_elements.len();
            if n == 0 {
                return ;
            }
            let ghost st0 = stack_view(self.stack_of_open_elements@);
            let top = match self.stack_of_open_elements.pop() {
                Some(x) => x,
                None => {
                    return ;
                },
            };
            proof {
                assert(stack_view(self.stack_of_open_elements@) =~= st0.drop_last());
            }
            let matches_kind = match self.window.element_kind(top) {
                Some(k) => k == element_kind,
                None => false,
            };
            if matches_kind {
                return ;
            }
        }
    }

    /// Whether an element of the wanted kind is open, as `contains_spec`
    /// says.
    fn contain_in_stack(&mut self, element_kind: ElementKind) -> (r: bool)
        requires
            stack_ok(old(self)@.window, old(self)@.stack),
        ensures
            *final(self) == *old(self),
            r == contains_spec(old(self)@.window, old(self)@.stack, element_kind),
    {
        let n = self.stack_of_open_elements.len();
        let mut i: usize = 0;
        while i < n
            invariant
                *self == *old(self),
                n == self@.stack.len(),
                i <= n,
                stack_ok(self@.window, self@.stack),
                forall|j: int|
                    0 <= j < i ==> nv_element_kind(self@.window[#[trigger] self@.stack[j]])
                        != Some(element_kind),
            decreases n - i,
        {
            let id = self.stack_of_open_elements[i];
            proof {
                assert(self@.stack[i as int] == id as int);
                assert(0 <= self@.stack[i as int] < self@.window.len());
            }
            let found = match self.window.element_kind(id) {
                Some(k) => k == element_kind,
                None => false,
            };
            if found {
                proof {
                    assert(nv_element_kind(self@.window[self@.stack[i as int]]) == Some(
                        element_kind,
                    ));
                }
                return true;
            }
            i = i + 1;
        }
        false
    }

    /// A fresh text node holding one character.
    fn create_char(&self, c: char) -> (r: Node)
        ensures
            r@ == (NodeV {
                kind: NodeKindV::Text(Seq::<char>::empty().push(c)),
                parent: None,
                first_child: None,
                last_child: None,
                previous_sibling: None,
                next_sibling: None,
            }),
    {
        let mut s = String::new();
        push_char(&mut s, c);
        Node::new(NodeKind::Text(s))
    }

    /// Folds one character into the tree, as `insert_char_spec` says.
    fn insert_char(&mut self, c: char)
        requires
            window_wf(old(self)@.window),
            stack_ok(old(self)@.window, old(self)@.stack),
        ensures
            ({
                let (w2, st2) = insert_char_spec(old(self)@.window, old(self)@.stack, c);
                &&& final(self)@ == (ParserV { window: w2, stack: st2, ..old(self)@ })
                &&& window_wf(final(self)@.window)
                &&& stack_ok(final(self)@.window, final(self)@.stack)
            }),
    {
        let n = self.stack_of_open_elements.len();
        if n == 0 {
            return ;
        }
        let current = self.stack_of_open_elements[n - 1];
        let ghost w0 = self@.window;
        let ghost st0 = self@.stack;
        let is_text = match self.window.node(current) {
            Some(node) => match &node.kind {
                NodeKind::Text(_) => true,
                _ => false,
            },
            None => false,
        };
        if is_text {
            self.window.append_text_char(current, c);
            return ;
        }
        if c == ' ' || c == '\n' {
            return ;
        }
        let mut s = String::new();
        push_char(&mut s, c);
        let id = self.window.append_node(current, NodeKind::Text(s));
        self.stack_of_open_elements.push(id);
        proof {
            assert(stack_view(self.stack_of_open_elements@) =~= st0.push(id as int));
            assert forall|i: int|
                0 <= i < self@.stack.len() implies 0 <= #[trigger] self@.stack[i]
                < self@.window.len() by {
                if i < st0.len() {
                    assert(0 <= st0[i] < w0.len());
                }
            }
        }
    }

    /// Folds the whole token stream into a DOM tree and hands the tree
    /// back: exactly the tree `tb_run` names, which is well-formed however
    /// malformed the markup was. A stream that is over before it starts
    /// leaves the tree untouched.
    #[verifier::rlimit(100)]
    pub fn construct_tree(&mut self) -> (r: Window)
        requires
            window_wf(old(self)@.window),
            stack_ok(old(self)@.window, old(self)@.stack),
            old(self)@.original_insertion_mode == InsertionMode::Initial || old(
                self,
            )@.original_insertion_mode == InsertionMode::InHead,
        ensures
            window_wf(r@),
            r@[0].kind is Document,
            tk_next(old(self)@.tk).1 is None ==> r@ == old(self)@.window,
            ({
                let (tk1, t1) = tk_next(old(self)@.tk);
                r@ == tb_run((ParserV { tk: tk1, ..old(self)@ }), t1)
            }),
            (builder_pristine(old(self)@) && no_html_end_tag(old(self)@.tk)) ==> doc_one_child(
                r@,
            ),
    {
        proof {
            if builder_pristine(old(self)@) && no_html_end_tag(old(self)@.tk) {
                lemma_no_html_step(old(self)@.tk);
                let (tk1, t1) = tk_next(old(self)@.tk);
                lemma_single_root_child(ParserV { tk: tk1, ..old(self)@ }, t1);
            }
        }
        let mut token = self.t.next();
        loop
            invariant
                window_wf(self@.window),
                stack_ok(self@.window, self@.stack),
                self@.original_insertion_mode == InsertionMode::Initial
                    || self@.original_insertion_mode == InsertionMode::InHead,
                tk_next(old(self)@.tk).1 is None ==> (self@.window == old(self)@.window
                    && token is None),
                ({
                    let (tk1, t1) = tk_next(old(self)@.tk);
                    tb_run(self@, tok_opt_view(token)) == tb_run(
                        (ParserV { tk: tk1, ..old(self)@ }),
                        t1,
                    )
                }),
                ({
                    let (tk1, t1) = tk_next(old(self)@.tk);
                    (builder_pristine(old(self)@) && no_html_end_tag(old(self)@.tk))
                        ==> doc_one_child(tb_run((ParserV { tk: tk1, ..old(self)@ }), t1))
                }),
            decreases (if token is Some {
                1int
            } else {
                0int
            }), tk_fuel(self@.tk), mode_rank(self@.mode, tok_opt_view(token)),
        {
            if token.is_none() {
                return self.window.clone();
            }
            match self.mode {
                InsertionMode::Initial => {
                    if tok_char_value(&token).is_some() {
                        token = self.t.next();
                    } else {
                        self.mode = InsertionMode::BeforeHtml;
                    }
                },
                InsertionMode::BeforeHtml => {
                    if tok_is_char_ws(&token) {
                        token = self.t.next();
                    } else if tok_start_named(&token, "html") {
                        match token.take() {
                            Some(HtmlToken::StartTag { tag, self_closing: _, attributes }) => {
                                self.insert_element(tag.as_str(), attributes);
                            },
                            _ => {},
                        }
                        self.mode = InsertionMode::BeforeHead;
                        token = self.t.next();
                    } else if tok_is_eof(&token) {
                        return self.window.clone();
                    } else {
                        proof {
                            crate::html::attribute::lemma_attrs_view_empty();
                        }
                        self.insert_element("html", Vec::new());
                        self.mode = InsertionMode::BeforeHead;
                    }
                },
                InsertionMode::BeforeHead => {
                    if tok_is_char_ws(&token) {
                        token = self.t.next();
                    } else if tok_start_named(&token, "head") {
                        match token.take() {
                            Some(HtmlToken::StartTag { tag, self_closing: _, attributes }) => {
                                self.insert_element(tag.as_str(), attributes);
                            },
                            _ => {},
                        }
                        self.mode = InsertionMode::InHead;
                        token = self.t.next();
                    } else if tok_is_eof(&token) {
                        return self.window.clone();
                    } else {
                        proof {
                            crate::html::attribute::lemma_attrs_view_empty();
                        }
                        self.insert_element("head", Vec::new());
                        self.mode = InsertionMode::InHead;
                    }
                },
                InsertionMode::InHead => {
                    if tok_is_char_ws(&token) {
                        match tok_char_value(&token) {
                            Some(c) => self.insert_char(c),
                            None => {},
                        }
                        token = self.t.next();
                    } else if tok_start_named(&token, "style") || tok_start_named(
                        &token,
                        "script",
                    ) {
                        match token.take() {
                            Some(HtmlToken::StartTag { tag, self_closing: _, attributes }) => {
                                self.insert_element(tag.as_str(), attributes);
                            },
                            _ => {},
                        }
                        self.original_insertion_mode = self.mode;
                        self.mode = InsertionMode::Text;
                        token = self.t.next();
                    } else if tok_start_named(&token, "body") {
                        if self.contain_in_stack(ElementKind::Head) {
                            self.pop_until(ElementKind::Head);
                        }
                        self.mode = InsertionMode::AfterHead;
                    } else if tok_is_start(&token) && tok_start_kind(&token).is_some() {
                        if self.contain_in_stack(ElementKind::Head) {
                            self.pop_until(ElementKind::Head);
                        }
                        self.mode = InsertionMode::AfterHead;
                    } else if tok_end_named(&token, "head") {
                        self.mode = InsertionMode::AfterHead;
                        token = self.t.next();
                        if self.contain_in_stack(ElementKind::Head) {
                            self.pop_until(ElementKind::Head);
                        }
                    } else if tok_is_eof(&token) {
                        return self.window.clone();
                    } else {
                        token = self.t.next();
                    }
                },
                InsertionMode::AfterHead => {
                    if tok_is_char_ws(&token) {
                        match tok_char_value(&token) {
                            Some(c) => self.insert_char(c),
                            None => {},
                        }
                        token = self.t.next();
                    } else if tok_start_named(&token, "body") {
                        match token.take() {
                            Some(HtmlToken::StartTag { tag, self_closing: _, attributes }) => {
                                self.insert_element(tag.as_str(), attributes);
                            },
                            _ => {},
                        }
                        self.mode = InsertionMode::InBody;
                        token = self.t.next();
                    } else if tok_is_eof(&token) {
                        return self.window.clone();
                    } else {
                        proof {
                            crate::html::attribute::lemma_attrs_view_empty();
                        }
                        self.insert_element("body", Vec::new());
                        self.mode = InsertionMode::InBody;
                    }
                },
                InsertionMode::InBody => {
                    if tok_is_start(&token) {
                        if tok_start_named(&token, "p") || tok_start_named(&token, "h1")
                            || tok_start_named(&token, "h2") || tok_start_named(&token, "a") {
                            match token.take() {
                                Some(
                                    HtmlToken::StartTag { tag, self_closing: _, attributes },
                                ) => {
                                    self.insert_element(tag.as_str(), attributes);
                                },
                                _ => {},
                            }
                            token = self.t.next();
                        } else {
                            token = self.t.next();
                        }
                    } else if tok_is_end(&token) {
                        if tok_end_named(&token, "body") {
                            self.mode = InsertionMode::AfterBody;
                            token = self.t.next();
                            if self.contain_in_stack(ElementKind::Body) {
                                self.pop_until(ElementKind::Body);
                            }
                        } else if tok_end_named(&token, "html") {
                            if self.pop_current_node(ElementKind::Body) {
                                self.mode = InsertionMode::AfterBody;
                                self.pop_current_node(ElementKind::Html);
                            } else {
                                token = self.t.next();
                            }
                        } else if tok_end_named(&token, "p") || tok_end_named(&token, "h1")
                            || tok_end_named(&token, "h2") || tok_end_named(&token, "a") {
                            let kind = match tok_end_kind(&token) {
                                Some(k) => k,
                                None => ElementKind::P,
                            };
                            token = self.t.next();
                            if self.contain_in_stack(kind) {
                                self.pop_until(kind);
                            }
                        } else {
                            token = self.t.next();
                        }
                    } else if tok_is_eof(&token) {
                        return self.window.clone();
                    } else {
                        match tok_char_value(&token) {
                            Some(c) => self.insert_char(c),
                            None => {},
                        }
                        token = self.t.next();
                    }
                },
                InsertionMode::Text => {
                    if tok_is_eof(&token) {
                        return self.window.clone();
                    } else if tok_end_named(&token, "style") {
                        if self.contain_in_stack(ElementKind::Style) {
                            self.pop_until(ElementKind::Style);
                        }
                        self.mode = self.original_insertion_mode;
                        token = self.t.next();
                    } else if tok_end_named(&token, "script") {
                        if self.contain_in_stack(ElementKind::Script) {
                            self.pop_until(ElementKind::Script);
                        }
                        self.mode = self.original_insertion_mode;
                        token = self.t.next();
                    } else {
                        match tok_char_value(&token) {
                            Some(c) => {
                                self.insert_char(c);
                                token = self.t.next();
                            },
                            None => {
                                self.mode = self.original_insertion_mode;
                            },
                        }
                    }
                },
                InsertionMode::AfterBody => {
                    if tok_char_value(&token).is_some() {
                        token = self.t.next();
                    } else if tok_end_named(&token, "html") {
                        self.mode = InsertionMode::AfterAfterBody;
                        token = self.t.next();
                    } else if tok_is_eof(&token) {
                        return self.window.clone();
                    } else {
                        self.mode = InsertionMode::InBody;
                    }
                },
                InsertionMode::AfterAfterBody => {
                    if tok_char_value(&token).is_some() {
                        token = self.t.next();
                    } else if tok_is_eof(&token) {
                        return self.window.clone();
                    } else {
                        self.mode = InsertionMode::InBody;
                    }
                },
            }
        }
    }
}

} // verus!
