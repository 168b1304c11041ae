//! The `rsx` markup language: element trees written as HTML-like markup
//! inside Rust source, with Rust expressions in braces.
//!
//! Grammar, over the tokens of the source:
//!
//! ```text
//! node      := '<' ident attribute* ( '/' '>' | '>' node* '<' '/' ident '>' )
//!            | '{' expression '}'
//!            | string-literal
//! attribute := name '=' ( '{' expression '}' | string-literal )
//! name      := 'bind_attr' ':' ident | ident
//! ```
//!
//! The closing tag must repeat the opening tag, and the whole input must be
//! one node.

use vstd::prelude::*;
use crate::tokens::{Tok, TokView, RawTokView, classify_views, lexed_from, raw_idents_nonempty, tok_view, tok_views, tokenize};
use crate::text::{chars_of, has_prefix, push_char, starts_with};
use crate::vdom::attr_html;

verus! {

/// The value of an attribute: a string literal (source text and value) or a
/// Rust expression (its source text).
#[derive(Debug)]
pub enum AttrValue {
    Literal { raw: String, value: String },
    Expression(String),
}

/// `key=value` inside an opening tag.
#[derive(Debug)]
pub struct HtmlAttribute {
    pub key: String,
    pub value: AttrValue,
}

/// An element: its tag, attributes and children, and whether it was written
/// self-closing (`<tag ... />`).
#[derive(Debug)]
pub struct HtmlElement {
    pub tag: String,
    pub attributes: Vec<HtmlAttribute>,
    pub children: Vec<HtmlNode>,
    pub self_closing: bool,
}

/// A node of markup.
#[derive(Debug)]
pub enum HtmlNode {
    Element(HtmlElement),
    /// A string literal: its source text and its value.
    Text { raw: String, value: String },
    /// A Rust expression in braces: its source text.
    Expression(String),
}

/// Why markup was refused.
#[derive(Debug)]
pub enum RsxError {
    /// The source does not split into tokens.
    Lex,
    /// The tokens ended where more was required.
    UnexpectedEnd,
    /// The token at this position is not what the grammar requires there.
    Unexpected(usize),
    /// The braces at this position do not hold one Rust expression.
    InvalidExpression(usize),
    /// The closing tag at this position (its name's token) does not repeat
    /// the opening tag.
    MismatchedTag { expected: String, found: String, at: usize },
    /// Tokens remain after the node, from this position on.
    TrailingTokens(usize),
    /// The markup holds parts whose HTML depends on Rust values.
    NotStatic,
}

pub enum AttrValueView {
    Literal(Seq<char>, Seq<char>),
    Expression(Seq<char>),
}

pub struct AttrView {
    pub key: Seq<char>,
    pub value: AttrValueView,
}

pub enum NodeView {
    Element { tag: Seq<char>, attrs: Seq<AttrView>, children: Seq<NodeView>, self_closing: bool },
    Text(Seq<char>, Seq<char>),
    Expression(Seq<char>),
}

pub enum ErrorView {
    Lex,
    UnexpectedEnd,
    Unexpected(int),
    InvalidExpression(int),
    MismatchedTag(Seq<char>, Seq<char>, int),
    TrailingTokens(int),
    NotStatic,
}

pub open spec fn attr_value_view(v: AttrValue) -> AttrValueView {
    match v {
        AttrValue::Literal { raw, value } => AttrValueView::Literal(raw@, value@),
        AttrValue::Expression(e) => AttrValueView::Expression(e@),
    }
}

pub open spec fn attr_view(a: HtmlAttribute) -> AttrView {
    AttrView { key: a.key@, value: attr_value_view(a.value) }
}

pub open spec fn attrs_view(s: Seq<HtmlAttribute>) -> Seq<AttrView> {
    s.map_values(|a: HtmlAttribute| attr_view(a))
}

pub open spec fn node_view(n: HtmlNode) -> NodeView
    decreases n,
{
    match n {
        HtmlNode::Element(e) => NodeView::Element {
            tag: e.tag@,
            attrs: attrs_view(e.attributes@),
            children: nodes_view(e.children@),
            self_closing: e.self_closing,
        },
        HtmlNode::Text { raw, value } => NodeView::Text(raw@, value@),
        HtmlNode::Expression(e) => NodeView::Expression(e@),
    }
}

pub open spec fn nodes_view(s: Seq<HtmlNode>) -> Seq<NodeView>
    decreases s,
{
    if s.len() == 0 {
        Seq::<NodeView>::empty()
    } else {
        nodes_view(s.drop_last()).push(node_view(s.last()))
    }
}

pub open spec fn err_view(e: RsxError) -> ErrorView {
    match e {
        RsxError::Lex => ErrorView::Lex,
        RsxError::UnexpectedEnd => ErrorView::UnexpectedEnd,
        RsxError::Unexpected(p) => ErrorView::Unexpected(p as int),
        RsxError::InvalidExpression(p) => ErrorView::InvalidExpression(p as int),
        RsxError::MismatchedTag { expected, found, at } => ErrorView::MismatchedTag(expected@, found@, at as int),
        RsxError::TrailingTokens(p) => ErrorView::TrailingTokens(p as int),
        RsxError::NotStatic => ErrorView::NotStatic,
    }
}

/// The token at `p` is the punctuation character `c`.
pub open spec fn is_punct(t: Seq<TokView>, p: int, c: char) -> bool {
    0 <= p < t.len() && t[p] == TokView::Punct(c)
}

/// The token at `p` is an identifier.
pub open spec fn is_ident(t: Seq<TokView>, p: int) -> bool {
    0 <= p < t.len() && t[p] is Ident
}

/// The error for a token that the grammar does not allow at `p`.
pub open spec fn error_at(t: Seq<TokView>, p: int) -> ErrorView {
    if p >= t.len() {
        ErrorView::UnexpectedEnd
    } else {
        ErrorView::Unexpected(p)
    }
}

/// The token at `p` joins two parts of an attribute name
/// (`bind_attr:class`).
pub open spec fn is_key_sep(t: Seq<TokView>, p: int) -> bool {
    is_punct(t, p, ':')
}

/// The rest of an attribute name from `p`, its part so far reading `acc`:
/// after `bind_attr`, a `:` with the identifier after it extends the name
/// (`bind_attr:class`); any other name ends where it is. Gives the
/// name and the position after it.
pub open spec fn spec_parse_key_rest(t: Seq<TokView>, p: int, acc: Seq<char>) -> Result<(Seq<char>, int), ErrorView>
    decreases t.len() - p,
{
    if is_key_sep(t, p) && acc == "bind_attr"@ {
        if !is_ident(t, p + 1) {
            Err(error_at(t, p + 1))
        } else {
            spec_parse_key_rest(t, p + 2, acc + seq![t[p]->Punct_0] + t[p + 1]->Ident_0)
        }
    } else {
        Ok((acc, p))
    }
}

/// The attribute `name=value` at `p`, and the position after it.
pub open spec fn spec_parse_attr(t: Seq<TokView>, p: int) -> Result<(AttrView, int), ErrorView> {
    if !is_ident(t, p) {
        Err(error_at(t, p))
    } else {
        match spec_parse_key_rest(t, p + 1, t[p]->Ident_0) {
            Err(e) => Err(e),
            Ok((key, k)) => if !is_punct(t, k, '=') {
                Err(error_at(t, k))
            } else if k + 1 >= t.len() {
                Err(ErrorView::UnexpectedEnd)
            } else {
                match t[k + 1] {
                    TokView::Brace(text, is_expr) => if is_expr {
                        Ok((AttrView { key, value: AttrValueView::Expression(text) }, k + 2))
                    } else {
                        Err(ErrorView::InvalidExpression(k + 1))
                    },
                    TokView::Str(raw, value) => Ok((AttrView { key, value: AttrValueView::Literal(raw, value) }, k + 2)),
                    _ => Err(ErrorView::Unexpected(k + 1)),
                }
            },
        }
    }
}

/// The attributes from `p` up to the `>` or `/` that ends the opening tag,
/// and the position of that token.
pub open spec fn spec_parse_attrs(t: Seq<TokView>, p: int) -> Result<(Seq<AttrView>, int), ErrorView>
    decreases t.len() - p,
{
    if is_punct(t, p, '>') || is_punct(t, p, '/') {
        Ok((Seq::<AttrView>::empty(), p))
    } else {
        match spec_parse_attr(t, p) {
            Err(e) => Err(e),
            Ok((a, q)) => if p < q <= t.len() {
                match spec_parse_attrs(t, q) {
                    Ok((rest, r)) => Ok((seq![a] + rest, r)),
                    Err(e) => Err(e),
                }
            } else {
                Err(error_at(t, p))
            },
        }
    }
}

/// Parsing attributes never moves backwards.
pub proof fn lemma_parse_attrs_pos(t: Seq<TokView>, p: int)
    ensures
        spec_parse_attrs(t, p) matches Ok((_, q)) ==> p <= q,
    decreases t.len() - p,
{
    if !(is_punct(t, p, '>') || is_punct(t, p, '/')) {
        match spec_parse_attr(t, p) {
            Ok((a, q)) => if p < q <= t.len() {
                lemma_parse_attrs_pos(t, q);
            },
            Err(_) => {},
        }
    }
}

/// The closing tag at `r` of an element with tag `tag`.
pub open spec fn spec_close(
    t: Seq<TokView>,
    r: int,
    tag: Seq<char>,
    attrs: Seq<AttrView>,
    children: Seq<NodeView>,
) -> Result<(NodeView, int), ErrorView> {
    if !is_punct(t, r, '<') {
        Err(error_at(t, r))
    } else if !is_punct(t, r + 1, '/') {
        Err(error_at(t, r + 1))
    } else if !is_ident(t, r + 2) {
        Err(error_at(t, r + 2))
    } else if !is_punct(t, r + 3, '>') {
        Err(error_at(t, r + 3))
    } else if t[r + 2]->Ident_0 != tag {
        Err(ErrorView::MismatchedTag(tag, t[r + 2]->Ident_0, r + 2))
    } else {
        Ok((NodeView::Element { tag, attrs, children, self_closing: false }, r + 4))
    }
}

/// The node at `p` and the position after it.
pub open spec fn spec_parse_node(t: Seq<TokView>, p: int) -> Result<(NodeView, int), ErrorView>
    decreases t.len() - p, 0int,
{
    if is_punct(t, p, '<') {
        if !is_ident(t, p + 1) {
            Err(error_at(t, p + 1))
        } else {
            let tag = t[p + 1]->Ident_0;
            match spec_parse_attrs(t, p + 2) {
                Err(e) => Err(e),
                Ok((attrs, q)) => {
                    proof {
                        lemma_parse_attrs_pos(t, p + 2);
                    }
                    if is_punct(t, q, '/') {
                        if is_punct(t, q + 1, '>') {
                            Ok((
                                NodeView::Element { tag, attrs, children: Seq::<NodeView>::empty(), self_closing: true },
                                q + 2,
                            ))
                        } else {
                            Err(error_at(t, q + 1))
                        }
                    } else if is_punct(t, q, '>') {
                        match spec_parse_children(t, q + 1) {
                            Err(e) => Err(e),
                            Ok((children, r)) => spec_close(t, r, tag, attrs, children),
                        }
                    } else {
                        Err(error_at(t, q))
                    }
                },
            }
        }
    } else if 0 <= p < t.len() && t[p] is Brace {
        if t[p]->Brace_1 {
            Ok((NodeView::Expression(t[p]->Brace_0), p + 1))
        } else {
            Err(ErrorView::InvalidExpression(p))
        }
    } else if 0 <= p < t.len() && t[p] is Str {
        Ok((NodeView::Text(t[p]->Str_0, t[p]->Str_1), p + 1))
    } else {
        Err(error_at(t, p))
    }
}

/// The children from `p` up to the `<` `/` of the closing tag.
pub open spec fn spec_parse_children(t: Seq<TokView>, p: int) -> Result<(Seq<NodeView>, int), ErrorView>
    decreases t.len() - p, 1int,
{
    if is_punct(t, p, '<') && is_punct(t, p + 1, '/') {
        Ok((Seq::<NodeView>::empty(), p))
    } else {
        match spec_parse_node(t, p) {
            Err(e) => Err(e),
            Ok((c, q)) => if p < q <= t.len() {
                match spec_parse_children(t, q) {
                    Ok((cs, r)) => Ok((seq![c] + cs, r)),
                    Err(e) => Err(e),
                }
            } else {
                Err(error_at(t, p))
            },
        }
    }
}

/// The whole token sequence as one node.
pub open spec fn spec_parse(t: Seq<TokView>) -> Result<NodeView, ErrorView> {
    match spec_parse_node(t, 0) {
        Ok((n, q)) => if q == t.len() {
            Ok(n)
        } else {
            Err(ErrorView::TrailingTokens(q))
        },
        Err(e) => Err(e),
    }
}

/// `pre` in front of the attributes of a successful parse.
pub open spec fn prepend_attrs(
    pre: Seq<AttrView>,
    r: Result<(Seq<AttrView>, int), ErrorView>,
) -> Result<(Seq<AttrView>, int), ErrorView> {
    match r {
        Ok((s, q)) => Ok((pre + s, q)),
        Err(e) => Err(e),
    }
}

/// `pre` in front of the children of a successful parse.
pub open spec fn prepend_nodes(
    pre: Seq<NodeView>,
    r: Result<(Seq<NodeView>, int), ErrorView>,
) -> Result<(Seq<NodeView>, int), ErrorView> {
    match r {
        Ok((s, q)) => Ok((pre + s, q)),
        Err(e) => Err(e),
    }
}

fn punct_at(toks: &Vec<Tok>, p: usize, c: char) -> (r: bool)
    ensures
        r == is_punct(tok_views(toks@), p as int, c),
{
    if p < toks.len() {
        match &toks[p] {
            Tok::Punct(d) => *d == c,
            _ => false,
        }
    } else {
        false
    }
}

fn ident_at(toks: &Vec<Tok>, p: usize) -> (r: Option<String>)
    ensures
        r is Some <==> is_ident(tok_views(toks@), p as int),
        r matches Some(s) ==> s@ == tok_views(toks@)[p as int]->Ident_0,
{
    if p < toks.len() {
        match &toks[p] {
            Tok::Ident(s) => Some(s.clone()),
            _ => None,
        }
    } else {
        None
    }
}

fn error_at_exec(toks: &Vec<Tok>, p: usize) -> (r: RsxError)
    ensures
        err_view(r) == error_at(tok_views(toks@), p as int),
{
    if p >= toks.len() {
        RsxError::UnexpectedEnd
    } else {
        RsxError::Unexpected(p)
    }
}

impl HtmlAttribute {
    /// Parses the attribute `name=value` at position `p`, returning it with
    /// the position after it.
    pub fn parse(toks: &Vec<Tok>, p: usize) -> (r: Result<(HtmlAttribute, usize), RsxError>)
        ensures
            match spec_parse_attr(tok_views(toks@), p as int) {
                Ok((a, q)) => r matches Ok((x, q2)) && attr_view(x) == a && q2 == q,
                Err(e) => r matches Err(x) && err_view(x) == e,
            },
            r matches Ok((_, q)) ==> p < q <= toks.len(),
    {
        let ghost t = tok_views(toks@);
        let mut key = match ident_at(toks, p) {
            Some(k) => k,
            None => return Err(error_at_exec(toks, p)),
        };
        assert(is_ident(t, p as int));
        assert(p < toks.len());
        let mut k = p + 1;
        while punct_at(toks, k, ':') && key == String::from_str("bind_attr")
            invariant
                t == tok_views(toks@),
                is_ident(t, p as int),
                p < k <= toks.len(),
                spec_parse_key_rest(t, p + 1, t[p as int]->Ident_0) == spec_parse_key_rest(t, k as int, key@),
            decreases toks.len() - k,
        {
            let part = match ident_at(toks, k + 1) {
                Some(s) => s,
                None => return Err(error_at_exec(toks, k + 1)),
            };
            let sep = ':';
            let ghost before = key@;
            push_char(&mut key, sep);
            key.append(part.as_str());
            assert(t[k as int]->Punct_0 == sep);
            assert(key@ =~= before + seq![sep] + part@);
            k = k + 2;
        }
        if !punct_at(toks, k, '=') {
            return Err(error_at_exec(toks, k));
        }
        if k + 1 >= toks.len() {
            return Err(RsxError::UnexpectedEnd);
        }
        match &toks[k + 1] {
            Tok::Brace { text, is_expr } => if *is_expr {
                Ok((HtmlAttribute { key, value: AttrValue::Expression(text.clone()) }, k + 2))
            } else {
                Err(RsxError::InvalidExpression(k + 1))
            },
            Tok::Str { raw, value } => Ok(
                (HtmlAttribute { key, value: AttrValue::Literal { raw: raw.clone(), value: value.clone() } }, k + 2),
            ),
            _ => Err(RsxError::Unexpected(k + 1)),
        }
    }
}

impl HtmlNode {
    /// Parses the node at position `p`, returning it with the position after it.
    pub fn parse(toks: &Vec<Tok>, p: usize) -> (r: Result<(HtmlNode, usize), RsxError>)
        requires
            p <= toks.len(),
        ensures
            match spec_parse_node(tok_views(toks@), p as int) {
                Ok((n, q)) => r matches Ok((x, q2)) && node_view(x) == n && q2 == q,
                Err(e) => r matches Err(x) && err_view(x) == e,
            },
            r matches Ok((_, q)) ==> p < q <= toks.len(),
        decreases toks.len() - p,
    {
        let ghost t = tok_views(toks@);
        if punct_at(toks, p, '<') {
            let tag = match ident_at(toks, p + 1) {
                Some(s) => s,
                None => return Err(error_at_exec(toks, p + 1)),
            };
            let mut attributes: Vec<HtmlAttribute> = Vec::new();
            let mut q = p + 2;
            assert(attrs_view(attributes@) =~= Seq::<AttrView>::empty());
            assert(prepend_attrs(Seq::<AttrView>::empty(), spec_parse_attrs(t, q as int)) =~= spec_parse_attrs(t, q as int))
                by {
                match spec_parse_attrs(t, q as int) {
                    Ok((s, x)) => {
                        assert(Seq::<AttrView>::empty() + s =~= s);
                    },
                    Err(_) => {},
                }
            }
            while !(punct_at(toks, q, '>') || punct_at(toks, q, '/'))
                invariant
                    t == tok_views(toks@),
                    p <= toks.len(),
                    is_punct(t, p as int, '<'),
                    is_ident(t, p + 1),
                    tag@ == t[p + 1]->Ident_0,
                    p + 2 <= q <= toks.len(),
                    spec_parse_attrs(t, p + 2) == prepend_attrs(attrs_view(attributes@), spec_parse_attrs(t, q as int)),
                decreases toks.len() - q,
            {
                match HtmlAttribute::parse(toks, q) {
                    Ok((a, q2)) => {
                        let ghost prev = attrs_view(attributes@);
                        attributes.push(a);
                        proof {
                            assert(attrs_view(attributes@) =~= prev.push(attr_view(a)));
                            let rest = spec_parse_attrs(t, q2 as int);
                            assert(spec_parse_attrs(t, q as int) == prepend_attrs(seq![attr_view(a)], rest));
                            match rest {
                                Ok((s, x)) => {
                                    assert(prev + (seq![attr_view(a)] + s) =~= prev.push(attr_view(a)) + s);
                                },
                                Err(_) => {},
                            }
                        }
                        q = q2;
                    },
                    Err(e) => {
                        return Err(e);
                    },
                }
            }
            assert(spec_parse_attrs(t, q as int) == Ok::<(Seq<AttrView>, int), ErrorView>((Seq::<AttrView>::empty(), q as int)));
            assert(attrs_view(attributes@) + Seq::<AttrView>::empty() =~= attrs_view(attributes@));
            if punct_at(toks, q, '/') {
                if punct_at(toks, q + 1, '>') {
                    let el = HtmlElement { tag, attributes, children: Vec::new(), self_closing: true };
                    assert(nodes_view(el.children@) =~= Seq::<NodeView>::empty());
                    return Ok((HtmlNode::Element(el), q + 2));
                } else {
                    return Err(error_at_exec(toks, q + 1));
                }
            }
            let mut children: Vec<HtmlNode> = Vec::new();
            let mut r = q + 1;
            assert(nodes_view(children@) =~= Seq::<NodeView>::empty());
            assert(prepend_nodes(Seq::<NodeView>::empty(), spec_parse_children(t, r as int))
                =~= spec_parse_children(t, r as int)) by {
                match spec_parse_children(t, r as int) {
                    Ok((s, x)) => {
                        assert(Seq::<NodeView>::empty() + s =~= s);
                    },
                    Err(_) => {},
                }
            }
            while !(punct_at(toks, r, '<') && punct_at(toks, r + 1, '/'))
                invariant
                    t == tok_views(toks@),
                    is_punct(t, p as int, '<'),
                    is_ident(t, p + 1),
                    tag@ == t[p + 1]->Ident_0,
                    spec_parse_attrs(t, p + 2) == Ok::<(Seq<AttrView>, int), ErrorView>((attrs_view(attributes@), q as int)),
                    p + 2 <= q,
                    is_punct(t, q as int, '>'),
                    q + 1 <= r <= toks.len(),
                    spec_parse_children(t, q + 1) == prepend_nodes(nodes_view(children@), spec_parse_children(t, r as int)),
                decreases toks.len() - r,
            {
                match HtmlNode::parse(toks, r) {
                    Ok((c, r2)) => {
                        let ghost prev = nodes_view(children@);
                        let ghost old_children = children@;
                        children.push(c);
                        proof {
                            assert(children@.drop_last() =~= old_children);
                            assert(children@.last() == c);
                            assert(nodes_view(children@) == prev.push(node_view(c)));
                            let rest = spec_parse_children(t, r2 as int);
                            assert(spec_parse_children(t, r as int) == prepend_nodes(seq![node_view(c)], rest));
                            match rest {
                                Ok((s, x)) => {
                                    assert(prev + (seq![node_view(c)] + s) =~= prev.push(node_view(c)) + s);
                                },
                                Err(_) => {},
                            }
                        }
                        r = r2;
                    },
                    Err(e) => {
                        return Err(e);
                    },
                }
            }
            assert(nodes_view(children@) + Seq::<NodeView>::empty() =~= nodes_view(children@));
            let close = match ident_at(toks, r + 2) {
                Some(s) => s,
                None => return Err(error_at_exec(toks, r + 2)),
            };
            if !punct_at(toks, r + 3, '>') {
                return Err(error_at_exec(toks, r + 3));
            }
            if tag != close {
                return Err(RsxError::MismatchedTag { expected: tag, found: close, at: r + 2 });
            }
            let el = HtmlElement { tag, attributes, children, self_closing: false };
            Ok((HtmlNode::Element(el), r + 4))
        } else if p < toks.len() {
            match &toks[p] {
                Tok::Brace { text, is_expr } => if *is_expr {
                    Ok((HtmlNode::Expression(text.clone()), p + 1))
                } else {
                    Err(RsxError::InvalidExpression(p))
                },
                Tok::Str { raw, value } => Ok((HtmlNode::Text { raw: raw.clone(), value: value.clone() }, p + 1)),
                _ => Err(RsxError::Unexpected(p)),
            }
        } else {
            Err(RsxError::UnexpectedEnd)
        }
    }

    /// Parses a whole token sequence as one node.
    pub fn parse_tokens(toks: &Vec<Tok>) -> (r: Result<HtmlNode, RsxError>)
        ensures
            match spec_parse(tok_views(toks@)) {
                Ok(n) => r matches Ok(x) && node_view(x) == n,
                Err(e) => r matches Err(x) && err_view(x) == e,
            },
    {
        match HtmlNode::parse(toks, 0) {
            Ok((n, q)) => if q == toks.len() {
                Ok(n)
            } else {
                Err(RsxError::TrailingTokens(q))
            },
            Err(e) => Err(e),
        }
    }
}

/// A tag names a component (a Rust function) when it begins with an ASCII
/// capital letter.
pub open spec fn is_component(tag: Seq<char>) -> bool {
    tag.len() > 0 && 'A' <= tag[0] <= 'Z'
}

/// The attribute names an event handler (`on_click`, ...).
pub open spec fn is_event(key: Seq<char>) -> bool {
    has_prefix(key, "on_"@)
}

/// `s` with every occurrence of `pat` removed, scanning from the left
/// (std's `str::replace(s, pat, "")`).
pub open spec fn remove_all(s: Seq<char>, pat: Seq<char>) -> Seq<char>
    decreases s.len(),
{
    if pat.len() > 0 && has_prefix(s, pat) {
        remove_all(s.skip(pat.len() as int), pat)
    } else if s.len() == 0 {
        Seq::<char>::empty()
    } else {
        seq![s[0]] + remove_all(s.drop_first(), pat)
    }
}

/// The attribute binds an element attribute to a signal
/// (`bind_attr:class`, ...).
pub open spec fn is_bound_attr(key: Seq<char>) -> bool {
    has_prefix(key, "bind_attr:"@)
}

/// A component property initializer for an attribute.
pub open spec fn prop_field(a: AttrView) -> Seq<char> {
    match a.value {
        AttrValueView::Literal(raw, _) => a.key + ": String::from("@ + raw + ")"@,
        AttrValueView::Expression(e) => a.key + ": "@ + e,
    }
}

/// The property initializers, separated by `, `.
pub open spec fn prop_fields(s: Seq<AttrView>) -> Seq<char>
    decreases s.len(),
{
    if s.len() == 0 {
        Seq::<char>::empty()
    } else if s.len() == 1 {
        prop_field(s[0])
    } else {
        prop_fields(s.drop_last()) + ", "@ + prop_field(s.last())
    }
}

/// The builder call that sets an attribute on an element: a literal sets a
/// static attribute; an expression under `bind_text` binds the text; under
/// `bind_attr:<name>` it binds the attribute `<name>`; under `on_<event>`
/// it registers a handler for `<event>`; under any other name it sets the
/// attribute to the expression's `to_string()`.
pub open spec fn attr_call(a: AttrView) -> Seq<char> {
    match a.value {
        AttrValueView::Literal(raw, _) => ".attr(\""@ + a.key + "\", "@ + raw + ")"@,
        AttrValueView::Expression(e) => if a.key == "bind_text"@ {
            ".bind_text("@ + e + ")"@
        } else if is_bound_attr(a.key) {
            ".bind_attr(\""@ + remove_all(a.key, "bind_attr:"@) + "\", "@ + e + ")"@
        } else if is_event(a.key) {
            ".on(\""@ + remove_all(a.key, "on_"@) + "\", std::rc::Rc::new(std::cell::RefCell::new(Box::new("@ + e
                + "))))"@
        } else {
            ".attr(\""@ + a.key + "\", &("@ + e + ").to_string())"@
        },
    }
}

/// The attribute builder calls, in order.
pub open spec fn attr_calls(s: Seq<AttrView>) -> Seq<char>
    decreases s.len(),
{
    if s.len() == 0 {
        Seq::<char>::empty()
    } else {
        attr_calls(s.drop_last()) + attr_call(s.last())
    }
}

/// The Rust code that builds a node: a text node from a literal or from an
/// expression's `to_string()`; a component as a call of the function of
/// that name (with a `<Name>Props` struct when it has attributes); an
/// element through the builder calls of its attributes and children.
pub open spec fn generate(n: NodeView) -> Seq<char>
    decreases n,
{
    match n {
        NodeView::Text(raw, _) => "oxirast_core::VNode::text("@ + raw + ")"@,
        NodeView::Expression(e) => "oxirast_core::VNode::text(&("@ + e + ").to_string())"@,
        NodeView::Element { tag, attrs, children, self_closing } => if is_component(tag) {
            if attrs.len() == 0 {
                tag + "()"@
            } else {
                tag + "("@ + tag + "Props { "@ + prop_fields(attrs) + " })"@
            }
        } else {
            "oxirast_core::VNode::element(\""@ + tag + "\")"@ + attr_calls(attrs) + child_calls(children)
                + ".build()"@
        },
    }
}

/// `.child(..)` for each child, in order.
pub open spec fn child_calls(cs: Seq<NodeView>) -> Seq<char>
    decreases cs,
{
    if cs.len() == 0 {
        Seq::<char>::empty()
    } else {
        child_calls(cs.drop_last()) + ".child("@ + generate(cs.last()) + ")"@
    }
}

fn prefix_at(cs: &Vec<char>, i: usize, ps: &Vec<char>) -> (r: bool)
    requires
        i <= cs.len(),
    ensures
        r == has_prefix(cs@.skip(i as int), ps@),
{
    if ps.len() > cs.len() - i {
        return false;
    }
    let mut j: usize = 0;
    while j < ps.len()
        invariant
            i <= cs.len(),
            ps.len() <= cs.len() - i,
            j <= ps.len(),
            cs@.skip(i as int).subrange(0, j as int) == ps@.subrange(0, j as int),
        decreases ps.len() - j,
    {
        if cs[i + j] != ps[j] {
            assert(cs@.skip(i as int).subrange(0, ps.len() as int)[j as int] != ps@[j as int]);
            return false;
        }
        j = j + 1;
        assert(cs@.skip(i as int).subrange(0, j as int) =~= ps@.subrange(0, j as int));
    }
    assert(ps@.subrange(0, j as int) =~= ps@);
    true
}

fn remove_all_exec(key: &String, pat: &str) -> (r: String)
    requires
        pat@.len() > 0,
    ensures
        r@ == remove_all(key@, pat@),
{
    let cs = chars_of(key.as_str());
    let ps = chars_of(pat);
    let mut out = String::new();
    let mut i: usize = 0;
    assert(cs@.skip(0) =~= cs@);
    assert(out@ + remove_all(cs@, pat@) =~= remove_all(cs@, pat@));
    while i < cs.len()
        invariant
            i <= cs.len(),
            ps@ == pat@,
            pat@.len() > 0,
            out@ + remove_all(cs@.skip(i as int), pat@) == remove_all(cs@, pat@),
        decreases cs.len() - i,
    {
        let ghost rest = cs@.skip(i as int);
        if prefix_at(&cs, i, &ps) {
            assert(rest.skip(ps@.len() as int) =~= cs@.skip(i + ps@.len()));
            i = i + ps.len();
        } else {
            assert(rest.drop_first() =~= cs@.skip(i + 1));
            let ghost before = out@;
            push_char(&mut out, cs[i]);
            assert(out@ + remove_all(cs@.skip(i + 1), pat@) =~= before + (seq![cs@[i as int]] + remove_all(
                rest.drop_first(),
                pat@,
            )));
            i = i + 1;
        }
    }
    assert(cs@.skip(i as int) =~= Seq::<char>::empty());
    assert(out@ + Seq::<char>::empty() =~= out@);
    out
}

fn is_component_exec(tag: &String) -> (r: bool)
    ensures
        r == is_component(tag@),
{
    let cs = chars_of(tag.as_str());
    cs.len() > 0 && 'A' <= cs[0] && cs[0] <= 'Z'
}

fn attr_call_exec(out: &mut String, a: &HtmlAttribute)
    ensures
        final(out)@ == old(out)@ + attr_call(attr_view(*a)),
{
    proof {
        reveal_strlit("bind_attr:");
        reveal_strlit("on_");
    }
    match &a.value {
        AttrValue::Literal { raw, .. } => {
            out.append(".attr(\"");
            out.append(a.key.as_str());
            out.append("\", ");
            out.append(raw.as_str());
            out.append(")");
        },
        AttrValue::Expression(e) => {
            let kcs = chars_of(a.key.as_str());
            if a.key == String::from_str("bind_text") {
                out.append(".bind_text(");
                out.append(e.as_str());
                out.append(")");
            } else if starts_with(&kcs, "bind_attr:") {
                let name = remove_all_exec(&a.key, "bind_attr:");
                out.append(".bind_attr(\"");
                out.append(name.as_str());
                out.append("\", ");
                out.append(e.as_str());
                out.append(")");
            } else if starts_with(&kcs, "on_") {
                let name = remove_all_exec(&a.key, "on_");
                out.append(".on(\"");
                out.append(name.as_str());
                out.append("\", std::rc::Rc::new(std::cell::RefCell::new(Box::new(");
                out.append(e.as_str());
                out.append("))))");
            } else {
                out.append(".attr(\"");
                out.append(a.key.as_str());
                out.append("\", &(");
                out.append(e.as_str());
                out.append(").to_string())");
            }
        },
    }
    assert(final(out)@ =~= old(out)@ + attr_call(attr_view(*a)));
}

fn prop_field_exec(out: &mut String, a: &HtmlAttribute)
    ensures
        final(out)@ == old(out)@ + prop_field(attr_view(*a)),
{
    out.append(a.key.as_str());
    match &a.value {
        AttrValue::Literal { raw, .. } => {
            out.append(": String::from(");
            out.append(raw.as_str());
            out.append(")");
        },
        AttrValue::Expression(e) => {
            out.append(": ");
            out.append(e.as_str());
        },
    }
    assert(final(out)@ =~= old(out)@ + prop_field(attr_view(*a)));
}

/// The Rust code that builds `node` (what the `rsx!` macro expands to).
pub fn generate_node(node: &HtmlNode) -> (r: String)
    ensures
        r@ == generate(node_view(*node)),
    decreases node,
{
    match node {
        HtmlNode::Text { raw, .. } => {
            let mut out = String::from_str("oxirast_core::VNode::text(");
            out.append(raw.as_str());
            out.append(")");
            out
        },
        HtmlNode::Expression(e) => {
            let mut out = String::from_str("oxirast_core::VNode::text(&(");
            out.append(e.as_str());
            out.append(").to_string())");
            out
        },
        HtmlNode::Element(el) => {
            let ghost av = attrs_view(el.attributes@);
            if is_component_exec(&el.tag) {
                let mut out = el.tag.clone();
                if el.attributes.len() == 0 {
                    out.append("()");
                    return out;
                }
                out.append("(");
                out.append(el.tag.as_str());
                out.append("Props { ");
                let ghost head = out@;
                let mut i: usize = 0;
                while i < el.attributes.len()
                    invariant
                        i <= el.attributes.len(),
                        av == attrs_view(el.attributes@),
                        out@ == head + prop_fields(av.take(i as int)),
                    decreases el.attributes.len() - i,
                {
                    assert(av.take(i + 1).drop_last() =~= av.take(i as int));
                    assert(av.take(i + 1).last() == attr_view(el.attributes@[i as int]));
                    if i > 0 {
                        out.append(", ");
                    } else {
                        assert(av.take(1) =~= seq![av[0]]);
                        assert(prop_fields(av.take(0)) == Seq::<char>::empty());
                    }
                    prop_field_exec(&mut out, &el.attributes[i]);
                    i = i + 1;
                }
                assert(av.take(i as int) =~= av);
                out.append(" })");
                return out;
            }
            let mut out = String::from_str("oxirast_core::VNode::element(\"");
            out.append(el.tag.as_str());
            out.append("\")");
            let ghost head = out@;
            let mut i: usize = 0;
            while i < el.attributes.len()
                invariant
                    i <= el.attributes.len(),
                    av == attrs_view(el.attributes@),
                    out@ == head + attr_calls(av.take(i as int)),
                decreases el.attributes.len() - i,
            {
                assert(av.take(i + 1).drop_last() =~= av.take(i as int));
                assert(av.take(i + 1).last() == attr_view(el.attributes@[i as int]));
                attr_call_exec(&mut out, &el.attributes[i]);
                i = i + 1;
            }
            assert(av.take(i as int) =~= av);
            let ghost head2 = out@;
            let ghost cv = nodes_view(el.children@);
            let mut k: usize = 0;
            while k < el.children.len()
                invariant
                    k <= el.children.len(),
                    *node == HtmlNode::Element(*el),
                    out@ == head2 + child_calls(nodes_view(el.children@.take(k as int))),
                decreases el.children.len() - k,
            {
                proof {
                    assert(decreases_to!(*node => (*node)->Element_0));
                    assert(decreases_to!(*el => el.children));
                    assert(decreases_to!(el.children => el.children@));
                    assert(decreases_to!(el.children@ => el.children@[k as int]));
                }
                let code = generate_node(&el.children[k]);
                out.append(".child(");
                out.append(code.as_str());
                out.append(")");
                proof {
                    let pre = el.children@.take(k as int);
                    let nxt = el.children@.take(k + 1);
                    assert(nxt.drop_last() =~= pre);
                    assert(nxt.last() == el.children@[k as int]);
                    assert(nodes_view(nxt) == nodes_view(pre).push(node_view(el.children@[k as int])));
                    assert(nodes_view(nxt).drop_last() =~= nodes_view(pre));
                }
                k = k + 1;
            }
            assert(el.children@.take(k as int) =~= el.children@);
            out.append(".build()");
            assert(out@ =~= generate(node_view(*node)));
            out
        },
    }
}

/// Appending a child to a plain element's markup appends exactly one
/// `.child(..)` call, holding the child's code, just before `.build()`; the
/// code before it stays as it was.
pub proof fn law_generate_push_child(
    tag: Seq<char>,
    attrs: Seq<AttrView>,
    cs: Seq<NodeView>,
    c: NodeView,
    self_closing: bool,
)
    requires
        !is_component(tag),
    ensures
        ({
            let g0 = generate(NodeView::Element { tag, attrs, children: cs, self_closing });
            let g1 = generate(NodeView::Element { tag, attrs, children: cs.push(c), self_closing });
            &&& g0.len() >= 8
            &&& g0.skip(g0.len() - 8) == ".build()"@
            &&& g1 == g0.take(g0.len() - 8) + ".child("@ + generate(c) + ")"@ + ".build()"@
        }),
{
    reveal_strlit(".build()");
    let head = "oxirast_core::VNode::element(\""@ + tag + "\")"@ + attr_calls(attrs);
    let g0 = generate(NodeView::Element { tag, attrs, children: cs, self_closing });
    let g1 = generate(NodeView::Element { tag, attrs, children: cs.push(c), self_closing });
    assert(cs.push(c).drop_last() =~= cs);
    assert(cs.push(c).last() == c);
    assert(child_calls(cs.push(c)) == child_calls(cs) + ".child("@ + generate(c) + ")"@);
    assert(g0 == head + child_calls(cs) + ".build()"@);
    assert(g0.take(g0.len() - 8) =~= head + child_calls(cs));
    assert(g0.skip(g0.len() - 8) =~= ".build()"@);
    assert(g1 =~= g0.take(g0.len() - 8) + ".child("@ + generate(c) + ")"@ + ".build()"@);
}

/// Appending an attribute to a plain element's markup appends exactly its
/// one builder call after those of the earlier attributes, before the
/// children's calls.
pub proof fn law_generate_push_attr(
    tag: Seq<char>,
    attrs: Seq<AttrView>,
    a: AttrView,
    cs: Seq<NodeView>,
    self_closing: bool,
)
    requires
        !is_component(tag),
    ensures
        generate(NodeView::Element { tag, attrs: attrs.push(a), children: cs, self_closing })
            == "oxirast_core::VNode::element(\""@ + tag + "\")"@ + attr_calls(attrs) + attr_call(a) + child_calls(cs)
            + ".build()"@,
{
    assert(attrs.push(a).drop_last() =~= attrs);
    assert(attrs.push(a).last() == a);
}

/// Appending a child to markup appends its static HTML after that of the
/// earlier children, when all of them have one.
pub proof fn law_static_children_push(cs: Seq<NodeView>, c: NodeView)
    ensures
        static_children(cs.push(c)) == (match (static_children(cs), static_html(c)) {
            (Some(x), Some(y)) => Some(x + y),
            _ => None::<Seq<char>>,
        }),
{
    assert(cs.push(c).drop_last() =~= cs);
    assert(cs.push(c).last() == c);
}

/// The HTML of an attribute when markup is rendered without running Rust:
/// a literal renders as ` key="value"`; an event handler renders nothing;
/// any other expression has no static HTML.
pub open spec fn static_attr(a: AttrView) -> Option<Seq<char>> {
    match a.value {
        AttrValueView::Literal(_, v) => Some(attr_html(a.key, v)),
        AttrValueView::Expression(_) => if a.key != "bind_text"@ && is_event(a.key) {
            Some(Seq::<char>::empty())
        } else {
            None
        },
    }
}

/// The attributes' static HTML, in order.
pub open spec fn static_attrs(s: Seq<AttrView>) -> Option<Seq<char>>
    decreases s.len(),
{
    if s.len() == 0 {
        Some(Seq::<char>::empty())
    } else {
        match (static_attrs(s.drop_last()), static_attr(s.last())) {
            (Some(x), Some(y)) => Some(x + y),
            _ => None,
        }
    }
}

/// The HTML of markup when it needs no Rust value: text literals render as
/// their values, elements with their attributes in the order written, a
/// self-closing element as `<tag .../>`. Expressions and components have
/// none.
pub open spec fn static_html(n: NodeView) -> Option<Seq<char>>
    decreases n,
{
    match n {
        NodeView::Text(_, v) => Some(v),
        NodeView::Expression(_) => None,
        NodeView::Element { tag, attrs, children, self_closing } => if is_component(tag) {
            None
        } else {
            match static_attrs(attrs) {
                None => None,
                Some(a) => if self_closing {
                    Some(seq!['<'] + tag + a + seq!['/', '>'])
                } else {
                    match static_children(children) {
                        None => None,
                        Some(c) => Some(seq!['<'] + tag + a + seq!['>'] + c + seq!['<', '/'] + tag + seq!['>']),
                    }
                },
            }
        },
    }
}

/// The children's static HTML, one after the other.
pub open spec fn static_children(cs: Seq<NodeView>) -> Option<Seq<char>>
    decreases cs,
{
    if cs.len() == 0 {
        Some(Seq::<char>::empty())
    } else {
        match (static_children(cs.drop_last()), static_html(cs.last())) {
            (Some(x), Some(y)) => Some(x + y),
            _ => None,
        }
    }
}

fn static_attr_exec(out: &mut String, a: &HtmlAttribute) -> (ok: bool)
    ensures
        ok == static_attr(attr_view(*a)) is Some,
        ok ==> final(out)@ == old(out)@ + static_attr(attr_view(*a))->0,
{
    match &a.value {
        AttrValue::Literal { value, .. } => {
            push_char(out, ' ');
            out.append(a.key.as_str());
            push_char(out, '=');
            push_char(out, '"');
            out.append(value.as_str());
            push_char(out, '"');
            assert(final(out)@ =~= old(out)@ + static_attr(attr_view(*a))->0);
            true
        },
        AttrValue::Expression(_) => {
            let kcs = chars_of(a.key.as_str());
            let bind = a.key == String::from_str("bind_text");
            if !bind && starts_with(&kcs, "on_") {
                assert(final(out)@ =~= old(out)@ + Seq::<char>::empty());
                true
            } else {
                false
            }
        },
    }
}

/// The HTML of markup that needs no Rust value, or `None`.
pub fn render_static(node: &HtmlNode) -> (r: Option<String>)
    ensures
        r is Some <==> static_html(node_view(*node)) is Some,
        r matches Some(h) ==> h@ == static_html(node_view(*node))->0,
    decreases node,
{
    match node {
        HtmlNode::Text { value, .. } => Some(value.clone()),
        HtmlNode::Expression(_) => None,
        HtmlNode::Element(el) => {
            if is_component_exec(&el.tag) {
                return None;
            }
            let ghost av = attrs_view(el.attributes@);
            let mut out = String::new();
            push_char(&mut out, '<');
            out.append(el.tag.as_str());
            let ghost head = out@;
            let mut i: usize = 0;
            assert(static_attrs(av.take(0)) == Some(Seq::<char>::empty()));
            while i < el.attributes.len()
                invariant
                    i <= el.attributes.len(),
                    *node == HtmlNode::Element(*el),
                    !is_component(el.tag@),
                    av == attrs_view(el.attributes@),
                    static_attrs(av.take(i as int)) is Some,
                    out@ == head + static_attrs(av.take(i as int))->0,
                decreases el.attributes.len() - i,
            {
                assert(av.take(i + 1).drop_last() =~= av.take(i as int));
                assert(av.take(i + 1).last() == attr_view(el.attributes@[i as int]));
                if !static_attr_exec(&mut out, &el.attributes[i]) {
                    proof {
                        lemma_static_attrs_none(av, i as int);
                    }
                    return None;
                }
                i = i + 1;
            }
            assert(av.take(i as int) =~= av);
            if el.self_closing {
                push_char(&mut out, '/');
                push_char(&mut out, '>');
                assert(out@ =~= static_html(node_view(*node))->0);
                return Some(out);
            }
            push_char(&mut out, '>');
            let ghost head2 = out@;
            let mut k: usize = 0;
            assert(static_children(nodes_view(el.children@.take(0))) == Some(Seq::<char>::empty())) by {
                assert(el.children@.take(0) =~= Seq::<HtmlNode>::empty());
            }
            while k < el.children.len()
                invariant
                    k <= el.children.len(),
                    *node == HtmlNode::Element(*el),
                    !is_component(el.tag@),
                    !el.self_closing,
                    static_attrs(attrs_view(el.attributes@)) is Some,
                    static_children(nodes_view(el.children@.take(k as int))) is Some,
                    out@ == head2 + static_children(nodes_view(el.children@.take(k as int)))->0,
                decreases el.children.len() - k,
            {
                proof {
                    assert(decreases_to!(*node => (*node)->Element_0));
                    assert(decreases_to!(*el => el.children));
                    assert(decreases_to!(el.children => el.children@));
                    assert(decreases_to!(el.children@ => el.children@[k as int]));
                }
                let ghost pre = el.children@.take(k as int);
                let ghost nxt = el.children@.take(k + 1);
                proof {
                    assert(nxt.drop_last() =~= pre);
                    assert(nxt.last() == el.children@[k as int]);
                    assert(nodes_view(nxt) == nodes_view(pre).push(node_view(el.children@[k as int])));
                    assert(nodes_view(nxt).drop_last() =~= nodes_view(pre));
                }
                match render_static(&el.children[k]) {
                    Some(h) => {
                        out.append(h.as_str());
                    },
                    None => {
                        proof {
                            lemma_static_children_none(el.children@, k as int);
                        }
                        return None;
                    },
                }
                k = k + 1;
            }
            assert(el.children@.take(k as int) =~= el.children@);
            push_char(&mut out, '<');
            push_char(&mut out, '/');
            out.append(el.tag.as_str());
            push_char(&mut out, '>');
            assert(out@ =~= static_html(node_view(*node))->0);
            Some(out)
        },
    }
}

proof fn lemma_static_attrs_none(av: Seq<AttrView>, i: int)
    requires
        0 <= i < av.len(),
        static_attr(av[i]) is None,
    ensures
        static_attrs(av) is None,
    decreases av.len(),
{
    if i < av.len() - 1 {
        lemma_static_attrs_none(av.drop_last(), i);
    }
}

proof fn lemma_static_children_none(cs: Seq<HtmlNode>, k: int)
    requires
        0 <= k < cs.len(),
        static_html(node_view(cs[k])) is None,
    ensures
        static_children(nodes_view(cs)) is None,
    decreases cs.len(),
{
    assert(cs.drop_last().push(cs.last()) =~= cs);
    assert(nodes_view(cs).drop_last() =~= nodes_view(cs.drop_last()));
    assert(nodes_view(cs).last() == node_view(cs.last()));
    if k < cs.len() - 1 {
        lemma_static_children_none(cs.drop_last(), k);
    }
}

/// What `rsx_tokens` gives for a token sequence: its static HTML.
pub open spec fn spec_rsx_tokens(t: Seq<TokView>) -> Result<Seq<char>, ErrorView> {
    match spec_parse(t) {
        Err(e) => Err(e),
        Ok(n) => match static_html(n) {
            Some(h) => Ok(h),
            None => Err(ErrorView::NotStatic),
        },
    }
}

/// What `expand_tokens` gives for a token sequence: the code of its node.
pub open spec fn spec_expand_tokens(t: Seq<TokView>) -> Result<Seq<char>, ErrorView> {
    match spec_parse(t) {
        Err(e) => Err(e),
        Ok(n) => Ok(generate(n)),
    }
}

/// A returned result is the one a spec gives.
pub open spec fn result_is(spec: Result<Seq<char>, ErrorView>, r: Result<String, RsxError>) -> bool {
    match spec {
        Ok(h) => r matches Ok(s) && s@ == h,
        Err(e) => r matches Err(x) && err_view(x) == e,
    }
}

/// Renders markup tokens to HTML.
pub fn rsx_tokens(toks: &Vec<Tok>) -> (r: Result<String, RsxError>)
    ensures
        result_is(spec_rsx_tokens(tok_views(toks@)), r),
{
    let node = match HtmlNode::parse_tokens(toks) {
        Ok(n) => n,
        Err(e) => return Err(e),
    };
    match render_static(&node) {
        Some(h) => Ok(h),
        None => Err(RsxError::NotStatic),
    }
}

/// The Rust code that builds the node written by markup tokens.
pub fn expand_tokens(toks: &Vec<Tok>) -> (r: Result<String, RsxError>)
    ensures
        result_is(spec_expand_tokens(tok_views(toks@)), r),
{
    match HtmlNode::parse_tokens(toks) {
        Ok(n) => Ok(generate_node(&n)),
        Err(e) => Err(e),
    }
}

/// Renders markup to HTML: `rsx("<p class=\"x\">\"hi\"</p>")` is
/// `<p class="x">hi</p>`. The source is split into tokens by proc_macro2;
/// the result is what `rsx_tokens` gives for a lexing of `input`, or `Lex`
/// when the source does not lex.
pub fn rsx(input: &str) -> (r: Result<String, RsxError>)
    ensures
        r matches Err(RsxError::Lex) || exists|raw: Seq<RawTokView>|
            #[trigger] lexed_from(input@, raw) && raw_idents_nonempty(raw) && result_is(
                spec_rsx_tokens(classify_views(raw)),
                r,
            ),
{
    match tokenize(input) {
        Some(t) => rsx_tokens(&t),
        None => Err(RsxError::Lex),
    }
}

/// The Rust code that builds the markup's node tree: what the `rsx!` macro
/// expands to: what `expand_tokens` gives for a lexing of `input` by
/// proc_macro2, or `Lex` when the source does not lex.
pub fn expand(input: &str) -> (r: Result<String, RsxError>)
    ensures
        r matches Err(RsxError::Lex) || exists|raw: Seq<RawTokView>|
            #[trigger] lexed_from(input@, raw) && raw_idents_nonempty(raw) && result_is(
                spec_expand_tokens(classify_views(raw)),
                r,
            ),
{
    match tokenize(input) {
        Some(t) => expand_tokens(&t),
        None => Err(RsxError::Lex),
    }
}

/// The message of an error; a mismatched tag reads as
/// ``Mismatched tag. Expected `div`, found `span` ``.
pub open spec fn error_message(e: ErrorView) -> Seq<char> {
    match e {
        ErrorView::Lex => "cannot split the markup into tokens"@,
        ErrorView::UnexpectedEnd => "unexpected end of input"@,
        ErrorView::Unexpected(_) => "unexpected token"@,
        ErrorView::InvalidExpression(_) => "expected an expression"@,
        ErrorView::MismatchedTag(x, y, _) => "Mismatched tag. Expected `"@ + x + "`, found `"@ + y + "`"@,
        ErrorView::TrailingTokens(_) => "unexpected token after the node"@,
        ErrorView::NotStatic => "the markup depends on Rust values"@,
    }
}

/// The token position an error points at, where it has one.
pub open spec fn error_position(e: ErrorView) -> Option<int> {
    match e {
        ErrorView::Unexpected(p) => Some(p),
        ErrorView::InvalidExpression(p) => Some(p),
        ErrorView::MismatchedTag(_, _, p) => Some(p),
        ErrorView::TrailingTokens(p) => Some(p),
        _ => None,
    }
}

impl RsxError {
    /// The error's message.
    pub fn message(&self) -> (r: String)
        ensures
            r@ == error_message(err_view(*self)),
    {
        match self {
            RsxError::Lex => String::from_str("cannot split the markup into tokens"),
            RsxError::UnexpectedEnd => String::from_str("unexpected end of input"),
            RsxError::Unexpected(_) => String::from_str("unexpected token"),
            RsxError::InvalidExpression(_) => String::from_str("expected an expression"),
            RsxError::MismatchedTag { expected, found, .. } => {
                let mut out = String::from_str("Mismatched tag. Expected `");
                out.append(expected.as_str());
                out.append("`, found `");
                out.append(found.as_str());
                out.append("`");
                out
            },
            RsxError::TrailingTokens(_) => String::from_str("unexpected token after the node"),
            RsxError::NotStatic => String::from_str("the markup depends on Rust values"),
        }
    }

    /// The token position the error points at, where it has one.
    pub fn position(&self) -> (r: Option<usize>)
        ensures
            match error_position(err_view(*self)) {
                Some(p) => r == Some(p as usize),
                None => r is None,
            },
    {
        match self {
            RsxError::Unexpected(p) => Some(*p),
            RsxError::InvalidExpression(p) => Some(*p),
            RsxError::MismatchedTag { at, .. } => Some(*at),
            RsxError::TrailingTokens(p) => Some(*p),
            _ => None,
        }
    }
}

/// The character that joins two parts of an attribute name.
pub open spec fn is_sep_char(c: char) -> bool {
    c == ':'
}

/// The length of the first part of an attribute name: the index of its
/// first `:`, or its length when it has none.
pub open spec fn first_sep(s: Seq<char>) -> int
    decreases s.len(),
{
    if s.len() == 0 {
        0
    } else if is_sep_char(s[0]) {
        0
    } else {
        1 + first_sep(s.drop_first())
    }
}

/// The tokens of an attribute name: its parts as identifiers, with the `:`
/// between them as punctuation.
pub open spec fn key_toks(key: Seq<char>) -> Seq<TokView>
    decreases key.len(),
{
    let i = first_sep(key);
    if 0 <= i < key.len() {
        seq![TokView::Ident(key.take(i)), TokView::Punct(key[i])] + key_toks(key.skip(i + 1))
    } else {
        seq![TokView::Ident(key)]
    }
}

/// An attribute name can be written as tokens: a non-empty name without
/// `:`, or `bind_attr:` followed by one.
pub open spec fn key_printable(key: Seq<char>) -> bool {
    let i = first_sep(key);
    &&& i > 0
    &&& i < key.len() ==> key.take(i) == "bind_attr"@ && key.skip(i + 1).len() > 0 && first_sep(key.skip(i + 1))
        == key.skip(i + 1).len()
}

/// The tokens of an attribute written out: `key = value`.
pub open spec fn print_attr(a: AttrView) -> Seq<TokView> {
    key_toks(a.key) + seq![TokView::Punct('=')] + match a.value {
        AttrValueView::Literal(raw, v) => seq![TokView::Str(raw, v)],
        AttrValueView::Expression(e) => seq![TokView::Brace(e, true)],
    }
}

/// The tokens of attributes written out one after the other.
pub open spec fn print_attrs(s: Seq<AttrView>) -> Seq<TokView>
    decreases s.len(),
{
    if s.len() == 0 {
        Seq::<TokView>::empty()
    } else {
        print_attr(s[0]) + print_attrs(s.drop_first())
    }
}

/// The tokens of a node written out as markup.
pub open spec fn print_node(n: NodeView) -> Seq<TokView>
    decreases n,
{
    match n {
        NodeView::Text(raw, v) => seq![TokView::Str(raw, v)],
        NodeView::Expression(e) => seq![TokView::Brace(e, true)],
        NodeView::Element { tag, attrs, children, self_closing } => seq![TokView::Punct('<'), TokView::Ident(tag)]
            + print_attrs(attrs) + if self_closing {
            seq![TokView::Punct('/'), TokView::Punct('>')]
        } else {
            seq![TokView::Punct('>')] + print_nodes(children) + seq![
                TokView::Punct('<'),
                TokView::Punct('/'),
                TokView::Ident(tag),
                TokView::Punct('>'),
            ]
        },
    }
}

/// The tokens of nodes written out one after the other.
pub open spec fn print_nodes(cs: Seq<NodeView>) -> Seq<TokView>
    decreases cs,
{
    if cs.len() == 0 {
        Seq::<TokView>::empty()
    } else {
        print_node(cs[0]) + print_nodes(cs.subrange(1, cs.len() as int))
    }
}

/// A node can be written as markup: a self-closing element has no
/// children, and no part of an attribute name is empty.
pub open spec fn printable(n: NodeView) -> bool
    decreases n,
{
    match n {
        NodeView::Element { attrs, children, self_closing, .. } => (self_closing ==> children.len() == 0) && (forall|j: int|
            0 <= j < attrs.len() ==> key_printable(#[trigger] attrs[j].key)) && forall|i: int|
            0 <= i < children.len() ==> printable(#[trigger] children[i]),
        _ => true,
    }
}

proof fn lemma_print_node_start(n: NodeView)
    ensures
        print_node(n).len() >= 1,
        n is Element ==> print_node(n).len() >= 2 && print_node(n)[0] == TokView::Punct('<')
            && print_node(n)[1] is Ident,
        !(n is Element) ==> !(print_node(n)[0] is Punct),
{
}

proof fn lemma_first_sep(s: Seq<char>)
    ensures
        0 <= first_sep(s) <= s.len(),
        first_sep(s) < s.len() ==> is_sep_char(s[first_sep(s)]),
    decreases s.len(),
{
    if s.len() > 0 && !is_sep_char(s[0]) {
        lemma_first_sep(s.drop_first());
        assert(first_sep(s) < s.len() ==> s[first_sep(s)] == s.drop_first()[first_sep(s) - 1]);
    }
}

proof fn lemma_key_toks_start(key: Seq<char>)
    ensures
        key_toks(key).len() >= 1,
        key_toks(key)[0] is Ident,
{
    lemma_first_sep(key);
}

proof fn lemma_parse_key_rest(t: Seq<TokView>, p: int, acc: Seq<char>, c: char, r: Seq<char>)
    requires
        acc == "bind_attr"@,
        is_sep_char(c),
        0 <= p,
        p + 2 <= t.len(),
        t[p] == TokView::Punct(c),
        t[p + 1] == TokView::Ident(r),
        !is_key_sep(t, p + 2),
    ensures
        spec_parse_key_rest(t, p, acc) == Ok::<(Seq<char>, int), ErrorView>((acc + seq![c] + r, p + 2)),
{
    assert((acc + seq![c] + r).len() != acc.len());
    assert(spec_parse_key_rest(t, p + 2, acc + seq![c] + r) == Ok::<(Seq<char>, int), ErrorView>(
        (acc + seq![c] + r, p + 2),
    ));
}

proof fn lemma_parse_key(t: Seq<TokView>, p: int, key: Seq<char>)
    requires
        key_printable(key),
        0 <= p,
        p + key_toks(key).len() <= t.len(),
        t.subrange(p, p + key_toks(key).len()) == key_toks(key),
        !is_key_sep(t, p + key_toks(key).len()),
    ensures
        is_ident(t, p),
        spec_parse_key_rest(t, p + 1, t[p]->Ident_0) == Ok::<(Seq<char>, int), ErrorView>(
            (key, p + key_toks(key).len()),
        ),
{
    lemma_first_sep(key);
    let i = first_sep(key);
    let kt = key_toks(key);
    assert(t[p] == kt[0]) by {
        assert(t.subrange(p, p + kt.len())[0] == t[p]);
    }
    if i < key.len() {
        let k2 = key.skip(i + 1);
        let kt2 = key_toks(k2);
        assert(kt2 == seq![TokView::Ident(k2)]);
        assert(kt == seq![TokView::Ident(key.take(i)), TokView::Punct(key[i])] + kt2);
        assert(t[p + 1] == kt[1]) by {
            assert(t.subrange(p, p + kt.len())[1] == t[p + 1]);
        }
        assert(t[p + 2] == kt[2]) by {
            assert(t.subrange(p, p + kt.len())[2] == t[p + 2]);
        }
        lemma_parse_key_rest(t, p + 1, key.take(i), key[i], k2);
        assert(key.take(i) + seq![key[i]] + k2 =~= key);
    } else {
        assert(!is_key_sep(t, p + 1));
    }
}

proof fn lemma_parse_printed_attrs(t: Seq<TokView>, p: int, attrs: Seq<AttrView>)
    requires
        forall|j: int| 0 <= j < attrs.len() ==> key_printable(#[trigger] attrs[j].key),
        0 <= p,
        p + print_attrs(attrs).len() < t.len(),
        t.subrange(p, p + print_attrs(attrs).len()) == print_attrs(attrs),
        is_punct(t, p + print_attrs(attrs).len(), '>') || is_punct(t, p + print_attrs(attrs).len(), '/'),
    ensures
        spec_parse_attrs(t, p) == Ok::<(Seq<AttrView>, int), ErrorView>((attrs, p + print_attrs(attrs).len())),
    decreases attrs.len(),
{
    let all = print_attrs(attrs);
    if attrs.len() == 0 {
        assert(attrs =~= Seq::<AttrView>::empty());
    } else {
        let a = attrs[0];
        let rest = attrs.drop_first();
        let pa = print_attr(a);
        let pr = print_attrs(rest);
        let kt = key_toks(a.key);
        assert(all == pa + pr);
        assert(key_printable(a.key));
        lemma_key_toks_start(a.key);
        assert(t[p] == pa[0]) by {
            assert(t.subrange(p, p + all.len())[0] == t[p]);
        }
        assert(!is_punct(t, p, '>') && !is_punct(t, p, '/'));
        assert(t.subrange(p, p + kt.len()) =~= kt) by {
            assert forall|k: int| 0 <= k < kt.len() implies t.subrange(p, p + kt.len())[k] == kt[k] by {
                assert(t.subrange(p, p + all.len())[k] == t[p + k]);
                assert(pa[k] == kt[k]);
            }
        }
        let k = p + kt.len();
        assert(t[k] == pa[kt.len() as int]) by {
            assert(t.subrange(p, p + all.len())[kt.len() as int] == t[k]);
        }
        assert(t[k + 1] == pa[kt.len() + 1int]) by {
            assert(t.subrange(p, p + all.len())[kt.len() + 1int] == t[k + 1]);
        }
        lemma_parse_key(t, p, a.key);
        match a.value {
            AttrValueView::Literal(raw, v) => {
                assert(spec_parse_attr(t, p) == Ok::<(AttrView, int), ErrorView>((a, p + pa.len())));
            },
            AttrValueView::Expression(e) => {
                assert(spec_parse_attr(t, p) == Ok::<(AttrView, int), ErrorView>((a, p + pa.len())));
            },
        }
        assert(t.subrange(p + pa.len(), p + all.len()) =~= pr) by {
            assert forall|k2: int| 0 <= k2 < pr.len() implies t.subrange(p + pa.len(), p + all.len())[k2] == pr[k2] by {
                assert(t.subrange(p, p + all.len())[pa.len() + k2] == t[p + pa.len() + k2]);
            }
        }
        assert forall|j: int| 0 <= j < rest.len() implies key_printable(#[trigger] rest[j].key) by {
            assert(rest[j] == attrs[j + 1]);
        }
        lemma_parse_printed_attrs(t, p + pa.len(), rest);
        assert(seq![a] + rest =~= attrs);
    }
}

proof fn lemma_parse_printed_node(t: Seq<TokView>, p: int, n: NodeView)
    requires
        printable(n),
        0 <= p,
        p + print_node(n).len() <= t.len(),
        t.subrange(p, p + print_node(n).len()) == print_node(n),
    ensures
        spec_parse_node(t, p) == Ok::<(NodeView, int), ErrorView>((n, p + print_node(n).len())),
    decreases n,
{
    let pn = print_node(n);
    assert(t.subrange(p, p + pn.len())[0] == t[p]);
    assert(t[p] == pn[0]);
    match n {
        NodeView::Text(raw, v) => {},
        NodeView::Expression(e) => {},
        NodeView::Element { tag, attrs, children, self_closing } => {
            let pa = print_attrs(attrs);
            let q = p + 2 + pa.len();
            assert(t[p + 1] == pn[1]);
            assert(t.subrange(p + 2, q) =~= pa) by {
                assert forall|k: int| 0 <= k < pa.len() implies t.subrange(p + 2, q)[k] == pa[k] by {
                    assert(t.subrange(p, p + pn.len())[k + 2] == t[p + 2 + k]);
                    assert(pn[k + 2] == pa[k]);
                }
            }
            assert(t[q] == pn[q - p]);
            if self_closing {
                assert(t[q + 1] == pn[q + 1 - p]);
                lemma_parse_printed_attrs(t, p + 2, attrs);
                assert(children =~= Seq::<NodeView>::empty());
            } else {
                let pc = print_nodes(children);
                let r = q + 1 + pc.len();
                lemma_parse_printed_attrs(t, p + 2, attrs);
                assert(t.subrange(q + 1, r) =~= pc) by {
                    assert forall|k: int| 0 <= k < pc.len() implies t.subrange(q + 1, r)[k] == pc[k] by {
                        assert(t.subrange(p, p + pn.len())[q + 1 - p + k] == t[q + 1 + k]);
                        assert(pn[q + 1 - p + k] == pc[k]);
                    }
                }
                assert(t[r] == pn[r - p]);
                assert(t[r + 1] == pn[r + 1 - p]);
                assert(t[r + 2] == pn[r + 2 - p]);
                assert(t[r + 3] == pn[r + 3 - p]);
                assert forall|i: int| 0 <= i < children.len() implies printable(#[trigger] children[i]) by {}
                lemma_parse_printed_children(t, q + 1, children);
            }
        },
    }
}

proof fn lemma_parse_printed_children(t: Seq<TokView>, p: int, cs: Seq<NodeView>)
    requires
        forall|i: int| 0 <= i < cs.len() ==> printable(#[trigger] cs[i]),
        0 <= p,
        p + print_nodes(cs).len() + 1 < t.len(),
        t.subrange(p, p + print_nodes(cs).len()) == print_nodes(cs),
        is_punct(t, p + print_nodes(cs).len(), '<'),
        is_punct(t, p + print_nodes(cs).len() + 1, '/'),
    ensures
        spec_parse_children(t, p) == Ok::<(Seq<NodeView>, int), ErrorView>((cs, p + print_nodes(cs).len())),
    decreases cs,
{
    if cs.len() == 0 {
        assert(cs =~= Seq::<NodeView>::empty());
    } else {
        let c = cs[0];
        let rest = cs.subrange(1, cs.len() as int);
        let pc = print_node(c);
        let pr = print_nodes(rest);
        let all = print_nodes(cs);
        assert(all == pc + pr);
        lemma_print_node_start(c);
        assert(t.subrange(p, p + pc.len()) =~= pc) by {
            assert forall|k: int| 0 <= k < pc.len() implies t.subrange(p, p + pc.len())[k] == pc[k] by {
                assert(t.subrange(p, p + all.len())[k] == t[p + k]);
            }
        }
        assert(t[p] == pc[0]);
        if c is Element {
            assert(t[p + 1] == pc[1]);
        }
        assert(!(is_punct(t, p, '<') && is_punct(t, p + 1, '/')));
        lemma_parse_printed_node(t, p, c);
        assert(t.subrange(p + pc.len(), p + all.len()) =~= pr) by {
            assert forall|k: int| 0 <= k < pr.len() implies t.subrange(p + pc.len(), p + all.len())[k] == pr[k] by {
                assert(t.subrange(p, p + all.len())[pc.len() + k] == t[p + pc.len() + k]);
            }
        }
        assert forall|i: int| 0 <= i < rest.len() implies printable(#[trigger] rest[i]) by {
            assert(rest[i] == cs[i + 1]);
        }
        lemma_parse_printed_children(t, p + pc.len(), rest);
        assert(seq![c] + rest =~= cs);
    }
}

/// The parser reads back every node tree from the tokens that write it out:
/// for each node whose self-closing elements have no children, parsing its
/// token form gives the node.
pub proof fn law_parse_print(n: NodeView)
    requires
        printable(n),
    ensures
        spec_parse(print_node(n)) == Ok::<NodeView, ErrorView>(n),
{
    let t = print_node(n);
    assert(t.subrange(0, t.len() as int) =~= t);
    lemma_parse_printed_node(t, 0, n);
}

/// Markup written with a closing tag renders with one, also when the
/// element has no children: the tokens `<tag attrs> children </tag>` render
/// as `<tag` + attributes + `>` + children + `</tag>`; only markup written
/// `<tag attrs />` renders as `<tag` + attributes + `/>`.
pub proof fn law_static_closing_tag(tag: Seq<char>, attrs: Seq<AttrView>, cs: Seq<NodeView>, a: Seq<char>, c: Seq<char>)
    requires
        !is_component(tag),
        printable(NodeView::Element { tag, attrs, children: cs, self_closing: false }),
        static_attrs(attrs) == Some(a),
        static_children(cs) == Some(c),
    ensures
        spec_rsx_tokens(print_node(NodeView::Element { tag, attrs, children: cs, self_closing: false }))
            == Ok::<Seq<char>, ErrorView>(seq!['<'] + tag + a + seq!['>'] + c + seq!['<', '/'] + tag + seq!['>']),
        printable(NodeView::Element { tag, attrs, children: Seq::<NodeView>::empty(), self_closing: true })
            ==> spec_rsx_tokens(
            print_node(NodeView::Element { tag, attrs, children: Seq::<NodeView>::empty(), self_closing: true }),
        ) == Ok::<Seq<char>, ErrorView>(seq!['<'] + tag + a + seq!['/', '>']),
{
    law_parse_print(NodeView::Element { tag, attrs, children: cs, self_closing: false });
    let sc = NodeView::Element { tag, attrs, children: Seq::<NodeView>::empty(), self_closing: true };
    if printable(sc) {
        law_parse_print(sc);
    }
}

} // verus!
