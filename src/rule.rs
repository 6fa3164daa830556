//! The fixed table of token patterns and their nightly replacements, most
//! specific first.
use vstd::prelude::*;

use crate::token::{tokens_view, Delimiter, Spacing, Token, TokenView};

verus! {

pub open spec fn marker_word() -> Seq<char> {
    seq!['c', '0', 'n', 's', 't']
}

pub open spec fn const_word() -> Seq<char> {
    seq!['c', 'o', 'n', 's', 't']
}

pub open spec fn destruct_word() -> Seq<char> {
    seq!['D', 'e', 's', 't', 'r', 'u', 'c', 't']
}

pub open spec fn core_word() -> Seq<char> {
    seq!['c', 'o', 'r', 'e']
}

pub open spec fn module_word() -> Seq<char> {
    seq!['m', 'a', 'r', 'k', 'e', 'r']
}

/// `c0nst`
pub open spec fn marker_ident() -> TokenView {
    TokenView::Ident(marker_word())
}

/// `[c0nst]`
pub open spec fn marker_group() -> TokenView {
    TokenView::Group(Delimiter::Bracket, seq![marker_ident()])
}

/// `const`
pub open spec fn const_ident() -> TokenView {
    TokenView::Ident(const_word())
}

/// `[const]`
pub open spec fn const_group() -> TokenView {
    TokenView::Group(Delimiter::Bracket, seq![const_ident()])
}

pub open spec fn destruct_ident() -> TokenView {
    TokenView::Ident(destruct_word())
}

pub open spec fn plus() -> TokenView {
    TokenView::Punct('+', Spacing::Alone)
}

pub open spec fn colon() -> TokenView {
    TokenView::Punct(':', Spacing::Alone)
}

pub open spec fn joint_colon() -> TokenView {
    TokenView::Punct(':', Spacing::Joint)
}

/// `core::marker::Destruct`
pub open spec fn qualified_destruct() -> Seq<TokenView> {
    seq![
        TokenView::Ident(core_word()),
        joint_colon(),
        colon(),
        TokenView::Ident(module_word()),
        joint_colon(),
        colon(),
        destruct_ident(),
    ]
}

/// One substitution of the token engine.
#[derive(Clone, Copy, Debug, PartialEq, Eq, Structural)]
pub enum Rule {
    /// `[c0nst] Destruct +` becomes `[const] core::marker::Destruct +`.
    ConditionalDestructFirst,
    /// `+ [c0nst] Destruct` becomes `+ [const] core::marker::Destruct`.
    ConditionalDestructLast,
    /// `: [c0nst] Destruct` becomes `: [const] core::marker::Destruct`.
    ConditionalDestructBound,
    /// `c0nst Destruct +` becomes `const core::marker::Destruct +`.
    DestructFirst,
    /// `+ c0nst Destruct` becomes `+ const core::marker::Destruct`.
    DestructLast,
    /// `: c0nst Destruct` becomes `: const core::marker::Destruct`.
    DestructBound,
    /// `[c0nst]` becomes `[const]`.
    ConditionalMarker,
    /// `c0nst` becomes `const`.
    Marker,
}

/// The tokens that a rule matches.
pub open spec fn pattern_view(rule: Rule) -> Seq<TokenView> {
    match rule {
        Rule::ConditionalDestructFirst => seq![marker_group(), destruct_ident(), plus()],
        Rule::ConditionalDestructLast => seq![plus(), marker_group(), destruct_ident()],
        Rule::ConditionalDestructBound => seq![colon(), marker_group(), destruct_ident()],
        Rule::DestructFirst => seq![marker_ident(), destruct_ident(), plus()],
        Rule::DestructLast => seq![plus(), marker_ident(), destruct_ident()],
        Rule::DestructBound => seq![colon(), marker_ident(), destruct_ident()],
        Rule::ConditionalMarker => seq![marker_group()],
        Rule::Marker => seq![marker_ident()],
    }
}

/// The tokens that replace a match on nightly.
pub open spec fn nightly_view(rule: Rule) -> Seq<TokenView> {
    match rule {
        Rule::ConditionalDestructFirst => seq![const_group()] + qualified_destruct() + seq![plus()],
        Rule::ConditionalDestructLast => seq![plus(), const_group()] + qualified_destruct(),
        Rule::ConditionalDestructBound => seq![colon(), const_group()] + qualified_destruct(),
        Rule::DestructFirst => seq![const_ident()] + qualified_destruct() + seq![plus()],
        Rule::DestructLast => seq![plus(), const_ident()] + qualified_destruct(),
        Rule::DestructBound => seq![colon(), const_ident()] + qualified_destruct(),
        Rule::ConditionalMarker => seq![const_group()],
        Rule::Marker => seq![const_ident()],
    }
}

/// The rules in the order in which they are applied.
pub open spec fn table_view() -> Seq<Rule> {
    seq![
        Rule::ConditionalDestructFirst,
        Rule::ConditionalDestructLast,
        Rule::ConditionalDestructBound,
        Rule::DestructFirst,
        Rule::DestructLast,
        Rule::DestructBound,
        Rule::ConditionalMarker,
        Rule::Marker,
    ]
}

pub(crate) fn push(v: &mut Vec<Token>, t: Token)
    ensures
        tokens_view(final(v)@) == tokens_view(old(v)@).push(t@),
{
    let ghost before = v@;
    v.push(t);
    assert(v@.drop_last() == before);
}

pub(crate) fn ident(s: &str) -> (r: Token)
    ensures
        r@ == TokenView::Ident(s@),
{
    Token::Ident(s.to_owned())
}

pub(crate) fn marker() -> (r: Token)
    ensures
        r@ == marker_ident(),
{
    proof {
        reveal_strlit("c0nst");
    }
    assert("c0nst"@ =~= marker_word());
    ident("c0nst")
}

pub(crate) fn keyword() -> (r: Token)
    ensures
        r@ == const_ident(),
{
    proof {
        reveal_strlit("const");
    }
    assert("const"@ =~= const_word());
    ident("const")
}

fn destruct() -> (r: Token)
    ensures
        r@ == destruct_ident(),
{
    proof {
        reveal_strlit("Destruct");
    }
    assert("Destruct"@ =~= destruct_word());
    ident("Destruct")
}

pub(crate) fn bracketed(t: Token) -> (r: Token)
    ensures
        r@ == TokenView::Group(Delimiter::Bracket, seq![t@]),
{
    let mut v: Vec<Token> = Vec::new();
    push(&mut v, t);
    assert(tokens_view(Seq::<Token>::empty()) == Seq::<TokenView>::empty());
    Token::Group(Delimiter::Bracket, v)
}

pub(crate) fn push_qualified_destruct(v: &mut Vec<Token>)
    ensures
        tokens_view(final(v)@) == tokens_view(old(v)@) + qualified_destruct(),
{
    let ghost start = tokens_view(v@);
    proof {
        reveal_strlit("core");
        reveal_strlit("marker");
    }
    assert("core"@ =~= core_word());
    assert("marker"@ =~= module_word());
    push(v, ident("core"));
    push(v, Token::Punct(':', Spacing::Joint));
    push(v, Token::Punct(':', Spacing::Alone));
    push(v, ident("marker"));
    push(v, Token::Punct(':', Spacing::Joint));
    push(v, Token::Punct(':', Spacing::Alone));
    push(v, destruct());
    assert(tokens_view(v@) =~= start + qualified_destruct());
}

impl Rule {
    /// The rules in the order in which they are applied.
    pub fn table() -> (r: Vec<Rule>)
        ensures
            r@ == table_view(),
    {
        let r = vec![
            Rule::ConditionalDestructFirst,
            Rule::ConditionalDestructLast,
            Rule::ConditionalDestructBound,
            Rule::DestructFirst,
            Rule::DestructLast,
            Rule::DestructBound,
            Rule::ConditionalMarker,
            Rule::Marker,
        ];
        assert(r@ =~= table_view());
        r
    }

    /// The tokens that this rule matches.
    pub fn pattern(&self) -> (r: Vec<Token>)
        ensures
            tokens_view(r@) == pattern_view(*self),
    {
        let mut v: Vec<Token> = Vec::new();
        assert(tokens_view(v@) == Seq::<TokenView>::empty());
        match self {
            Rule::ConditionalDestructFirst => {
                push(&mut v, bracketed(marker()));
                push(&mut v, destruct());
                push(&mut v, Token::Punct('+', Spacing::Alone));
            },
            Rule::ConditionalDestructLast => {
                push(&mut v, Token::Punct('+', Spacing::Alone));
                push(&mut v, bracketed(marker()));
                push(&mut v, destruct());
            },
            Rule::ConditionalDestructBound => {
                push(&mut v, Token::Punct(':', Spacing::Alone));
                push(&mut v, bracketed(marker()));
                push(&mut v, destruct());
            },
            Rule::DestructFirst => {
                push(&mut v, marker());
                push(&mut v, destruct());
                push(&mut v, Token::Punct('+', Spacing::Alone));
            },
            Rule::DestructLast => {
                push(&mut v, Token::Punct('+', Spacing::Alone));
                push(&mut v, marker());
                push(&mut v, destruct());
            },
            Rule::DestructBound => {
                push(&mut v, Token::Punct(':', Spacing::Alone));
                push(&mut v, marker());
                push(&mut v, destruct());
            },
            Rule::ConditionalMarker => {
                push(&mut v, bracketed(marker()));
            },
            Rule::Marker => {
                push(&mut v, marker());
            },
        }
        assert(tokens_view(v@) =~= pattern_view(*self));
        v
    }

    /// The tokens that replace a match of this rule on nightly.
    pub fn nightly(&self) -> (r: Vec<Token>)
        ensures
            tokens_view(r@) == nightly_view(*self),
    {
        let mut v: Vec<Token> = Vec::new();
        assert(tokens_view(v@) == Seq::<TokenView>::empty());
        match self {
            Rule::ConditionalDestructFirst => {
                push(&mut v, bracketed(keyword()));
                push_qualified_destruct(&mut v);
                push(&mut v, Token::Punct('+', Spacing::Alone));
            },
            Rule::ConditionalDestructLast => {
                push(&mut v, Token::Punct('+', Spacing::Alone));
                push(&mut v, bracketed(keyword()));
                push_qualified_destruct(&mut v);
            },
            Rule::ConditionalDestructBound => {
                push(&mut v, Token::Punct(':', Spacing::Alone));
                push(&mut v, bracketed(keyword()));
                push_qualified_destruct(&mut v);
            },
            Rule::DestructFirst => {
                push(&mut v, keyword());
                push_qualified_destruct(&mut v);
                push(&mut v, Token::Punct('+', Spacing::Alone));
            },
            Rule::DestructLast => {
                push(&mut v, Token::Punct('+', Spacing::Alone));
                push(&mut v, keyword());
                push_qualified_destruct(&mut v);
            },
            Rule::DestructBound => {
                push(&mut v, Token::Punct(':', Spacing::Alone));
                push(&mut v, keyword());
                push_qualified_destruct(&mut v);
            },
            Rule::ConditionalMarker => {
                push(&mut v, bracketed(keyword()));
            },
            Rule::Marker => {
                push(&mut v, keyword());
            },
        }
        assert(tokens_view(v@) =~= nightly_view(*self));
        v
    }
}

} // verus!
