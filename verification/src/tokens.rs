//! Tokens of markup source. The source text is split into token trees by
//! `proc_macro2`'s lexer; `syn` says which literals are string literals (and
//! their values) and which brace groups hold one Rust expression.

use vstd::prelude::*;
use proc_macro2::{Delimiter, TokenTree};

verus! {

/// The delimiter of a token group.
#[derive(Debug, PartialEq, Eq, Structural)]
pub enum Delim {
    Paren,
    Brace,
    Bracket,
    Invisible,
}

/// A token tree as the lexer gives it: a group keeps its inner source text.
#[derive(Debug)]
pub enum RawTok {
    Group(Delim, String),
    Ident(String),
    Punct(char),
    Literal(String),
}

/// A token tree over plain values.
pub enum RawTokView {
    Group(Delim, Seq<char>),
    Ident(Seq<char>),
    Punct(char),
    Literal(Seq<char>),
}

pub open spec fn raw_view(t: RawTok) -> RawTokView {
    match t {
        RawTok::Group(d, s) => RawTokView::Group(d, s@),
        RawTok::Ident(s) => RawTokView::Ident(s@),
        RawTok::Punct(c) => RawTokView::Punct(c),
        RawTok::Literal(s) => RawTokView::Literal(s@),
    }
}

pub open spec fn raw_views(s: Seq<RawTok>) -> Seq<RawTokView> {
    s.map_values(|t: RawTok| raw_view(t))
}

/// Every identifier token tree is non-empty.
pub open spec fn raw_idents_nonempty(s: Seq<RawTokView>) -> bool {
    forall|i: int| 0 <= i < s.len() ==> (#[trigger] s[i] matches RawTokView::Ident(n) ==> n.len() > 0)
}

/// Whether `toks` is a lexing of the source text `src` by proc_macro2: its
/// top-level token trees, each group with its delimiter and the text of its
/// inner stream, each identifier, punctuation character and literal with
/// its text. A relation, not a function: proc_macro2 lexes with its own
/// lexer outside the compiler's macro expansion and with the compiler's
/// inside it, and the two print group text differently.
pub uninterp spec fn lexed_from(src: Seq<char>, toks: Seq<RawTokView>) -> bool;

/// `<proc_macro2::TokenStream as FromStr>::from_str`, then its top-level
/// token trees. Stated: the trees are a lexing of `src` (`lexed_from`), and
/// no identifier is empty (both lexers read an identifier from a starting
/// character). Left open: which lexing, and when the text fails to lex.
/// The documentation of `from_str` reserves that some malformed text may
/// panic rather than fail; no such case shows in the lexer's source.
#[verifier::external_body]
fn token_trees(src: &str) -> (r: Option<Vec<RawTok>>)
    ensures
        r matches Some(v) ==> lexed_from(src@, raw_views(v@)) && raw_idents_nonempty(raw_views(v@)),
{
    let stream: proc_macro2::TokenStream = match src.parse() {
        Ok(s) => s,
        Err(_) => return None,
    };
    let mut out = Vec::new();
    for tree in stream {
        out.push(match tree {
            TokenTree::Group(g) => RawTok::Group(match g.delimiter() { Delimiter::Parenthesis => Delim::Paren, Delimiter::Brace => Delim::Brace, Delimiter::Bracket => Delim::Bracket, Delimiter::None => Delim::Invisible }, g.stream().to_string()),
            TokenTree::Ident(i) => RawTok::Ident(i.to_string()),
            TokenTree::Punct(p) => RawTok::Punct(p.as_char()),
            TokenTree::Literal(l) => RawTok::Literal(l.to_string()),
        });
    }
    Some(out)
}

/// The value of a literal's source text when it is a string literal.
pub uninterp spec fn spec_str_literal(lit: Seq<char>) -> Option<Seq<char>>;

/// `syn::parse_str::<syn::LitStr>` followed by `LitStr::value`: the
/// unescaped value of a string literal, or `None` when the text is not one.
#[verifier::external_body]
fn str_literal_value(lit: &str) -> (r: Option<String>)
    ensures
        r is Some <==> spec_str_literal(lit@) is Some,
        r matches Some(v) ==> v@ == spec_str_literal(lit@)->0,
{
    match syn::parse_str::<syn::LitStr>(lit) {
        Ok(l) => Some(l.value()),
        Err(_) => None,
    }
}

/// Whether a source text is exactly one Rust expression.
pub uninterp spec fn spec_is_expression(src: Seq<char>) -> bool;

/// `syn::parse_str::<syn::Expr>(src).is_ok()`.
#[verifier::external_body]
fn is_expression(src: &str) -> (r: bool)
    ensures
        r == spec_is_expression(src@),
{
    syn::parse_str::<syn::Expr>(src).is_ok()
}

/// A token as the markup parser reads it.
#[derive(Debug)]
pub enum Tok {
    Punct(char),
    Ident(String),
    /// A string literal: its source text and its value.
    Str { raw: String, value: String },
    /// Any other literal.
    Lit(String),
    /// A brace group: its inner text and whether that is one expression.
    Brace { text: String, is_expr: bool },
    /// A group with another delimiter.
    Group(Delim, String),
}

/// A markup token over plain values.
pub enum TokView {
    Punct(char),
    Ident(Seq<char>),
    Str(Seq<char>, Seq<char>),
    Lit(Seq<char>),
    Brace(Seq<char>, bool),
    Group(Delim, Seq<char>),
}

pub open spec fn tok_view(t: Tok) -> TokView {
    match t {
        Tok::Punct(c) => TokView::Punct(c),
        Tok::Ident(s) => TokView::Ident(s@),
        Tok::Str { raw, value } => TokView::Str(raw@, value@),
        Tok::Lit(s) => TokView::Lit(s@),
        Tok::Brace { text, is_expr } => TokView::Brace(text@, is_expr),
        Tok::Group(d, s) => TokView::Group(d, s@),
    }
}

pub open spec fn tok_views(s: Seq<Tok>) -> Seq<TokView> {
    s.map_values(|t: Tok| tok_view(t))
}

/// How a token tree reads as a markup token.
pub open spec fn classify_view(t: RawTokView) -> TokView {
    match t {
        RawTokView::Group(Delim::Brace, s) => TokView::Brace(s, spec_is_expression(s)),
        RawTokView::Group(d, s) => TokView::Group(d, s),
        RawTokView::Ident(s) => TokView::Ident(s),
        RawTokView::Punct(c) => TokView::Punct(c),
        RawTokView::Literal(s) => match spec_str_literal(s) {
            Some(v) => TokView::Str(s, v),
            None => TokView::Lit(s),
        },
    }
}

/// The markup tokens read from token trees.
pub open spec fn classify_views(ts: Seq<RawTokView>) -> Seq<TokView> {
    ts.map_values(|t: RawTokView| classify_view(t))
}

/// Every identifier token is non-empty.
pub open spec fn idents_nonempty(s: Seq<TokView>) -> bool {
    forall|i: int| 0 <= i < s.len() ==> (#[trigger] s[i] matches TokView::Ident(n) ==> n.len() > 0)
}

fn copy_delim(d: &Delim) -> (r: Delim)
    ensures
        r == *d,
{
    match d {
        Delim::Paren => Delim::Paren,
        Delim::Brace => Delim::Brace,
        Delim::Bracket => Delim::Bracket,
        Delim::Invisible => Delim::Invisible,
    }
}

/// Reads one token tree as a markup token.
fn classify_one(t: &RawTok) -> (r: Tok)
    ensures
        tok_view(r) == classify_view(raw_view(*t)),
{
    match t {
        RawTok::Group(Delim::Brace, s) => {
            let e = is_expression(s.as_str());
            Tok::Brace { text: s.clone(), is_expr: e }
        },
        RawTok::Group(d, s) => Tok::Group(copy_delim(d), s.clone()),
        RawTok::Ident(s) => Tok::Ident(s.clone()),
        RawTok::Punct(c) => Tok::Punct(*c),
        RawTok::Literal(s) => match str_literal_value(s.as_str()) {
            Some(v) => Tok::Str { raw: s.clone(), value: v },
            None => Tok::Lit(s.clone()),
        },
    }
}

/// Reads token trees as markup tokens.
pub fn classify(raw: &Vec<RawTok>) -> (r: Vec<Tok>)
    ensures
        tok_views(r@) == raw_views(raw@).map_values(|t: RawTokView| classify_view(t)),
{
    let mut out: Vec<Tok> = Vec::new();
    let mut i: usize = 0;
    while i < raw.len()
        invariant
            i <= raw.len(),
            tok_views(out@) == raw_views(raw@).take(i as int).map_values(|t: RawTokView| classify_view(t)),
        decreases raw.len() - i,
    {
        let c = classify_one(&raw[i]);
        let ghost prev = out@;
        out.push(c);
        proof {
            assert(out@ =~= prev.push(c));
            assert(tok_views(out@) =~= tok_views(prev).push(tok_view(c)));
            assert(raw_views(raw@)[i as int] == raw_view(raw@[i as int]));
            assert(raw_views(raw@).take(i + 1) =~= raw_views(raw@).take(i as int).push(raw_view(raw@[i as int])));
        }
        i = i + 1;
        assert(tok_views(out@) =~= raw_views(raw@).take(i as int).map_values(|t: RawTokView| classify_view(t)));
    }
    assert(raw_views(raw@).take(i as int) =~= raw_views(raw@));
    out
}

/// The markup tokens of a source text, or `None` when it does not lex.
/// The tokens are a lexing of `src` (which one is up to proc_macro2), each
/// read as `classify_view` says, and no identifier is empty.
pub fn tokenize(src: &str) -> (r: Option<Vec<Tok>>)
    ensures
        r matches Some(v) ==> idents_nonempty(tok_views(v@)) && exists|raw: Seq<RawTokView>|
            #[trigger] lexed_from(src@, raw) && raw_idents_nonempty(raw) && tok_views(v@) == classify_views(raw),
{
    match token_trees(src) {
        Some(raw) => {
            let toks = classify(&raw);
            assert(tok_views(toks@).len() == toks@.len());
            assert(raw_views(raw@).len() == raw@.len());
            assert(toks@.len() == raw@.len());
            assert(idents_nonempty(tok_views(toks@))) by {
                assert forall|i: int| 0 <= i < toks@.len() implies (#[trigger] tok_views(toks@)[i] matches TokView::Ident(n)
                    ==> n.len() > 0) by {
                    assert(tok_views(toks@)[i] == classify_view(raw_views(raw@)[i]));
                    assert(raw_idents_nonempty(raw_views(raw@)));
                    let rv = raw_views(raw@)[i];
                }
            }
            assert(tok_views(toks@) == classify_views(raw_views(raw@)));
            Some(toks)
        },
        None => None,
    }
}

} // verus!
