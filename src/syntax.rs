//! Declarations as plain values: what the structural engine reads is held
//! as fields, everything it passes through unchanged as tokens.
use vstd::prelude::*;

use crate::rule::ident;
use crate::token::{
    append_tokens, copy_tokens, push_token, tokens_view, Delimiter, Spacing,
    Token, TokenView,
};

verus! {

/// A path such as `core::marker::Destruct` or `From<u64>`.
pub struct Path {
    /// Whether the path starts with `::`.
    pub leading_colon: bool,
    pub segments: Vec<PathSegment>,
}

pub struct PathSegment {
    pub ident: String,
    pub arguments: PathArguments,
}

pub enum PathArguments {
    /// No arguments.
    Bare,
    /// `<...>`.
    AngleBracketed(AngleArguments),
    /// `(A, B) -> C`: its tokens.
    Parenthesized(Vec<Token>),
}

/// Angle-bracketed arguments: their tokens from `<` to `>`, and the first
/// argument when it is a type path.
pub struct AngleArguments {
    pub tokens: Vec<Token>,
    pub first_type: Option<Path>,
}

/// An attribute: its tokens from `#` to `]`, and its path when the attribute
/// is a bare path (`#[c0nst]`).
pub struct Attribute {
    pub tokens: Vec<Token>,
    pub path: Option<Path>,
}

/// A trait bound such as `?Sized`, `for<'a> Fn(&'a str)` or `c0nst<Clone>`.
pub struct TraitBound {
    /// Whether the bound is written in parentheses.
    pub parenthesized: bool,
    /// Whether the bound has the `?` modifier.
    pub maybe: bool,
    /// The `for<...>` binder's tokens; empty when there is none.
    pub lifetimes: Vec<Token>,
    pub path: Path,
}

/// One bound of a generic parameter or a where-predicate.
pub enum Bound {
    Trait(TraitBound),
    /// Any other bound (a lifetime, `use<...>`), passed through.
    Verbatim(Vec<Token>),
}

pub struct TypeParam {
    pub ident: String,
    pub bounds: Vec<Bound>,
    /// `= Type` when the parameter has a default; empty otherwise.
    pub default: Vec<Token>,
}

pub enum GenericParam {
    Type(TypeParam),
    /// A lifetime or const parameter, passed through.
    Verbatim(Vec<Token>),
}

pub enum WherePredicate {
    /// `bounded: bounds`.
    Type { bounded: Vec<Token>, bounds: Vec<Bound> },
    /// A lifetime predicate, passed through.
    Verbatim(Vec<Token>),
}

pub struct Generics {
    pub params: Vec<GenericParam>,
    pub where_clause: Option<Vec<WherePredicate>>,
}

/// A function signature.
pub struct Signature {
    /// From the qualifiers to the name: `const async unsafe extern "C" fn f`.
    pub head: Vec<Token>,
    pub generics: Generics,
    /// The tokens between the parentheses.
    pub inputs: Vec<Token>,
    /// `-> Type`; empty when the function returns `()`.
    pub output: Vec<Token>,
}

/// A free function, or a method of an implementation block.
pub struct ItemFn {
    pub attrs: Vec<Attribute>,
    /// Visibility (and `default` for a method).
    pub vis: Vec<Token>,
    pub sig: Signature,
    /// The body, braces included.
    pub block: Vec<Token>,
}

pub enum ImplItem {
    Fn(ItemFn),
    Verbatim(Vec<Token>),
}

pub struct TraitItemFn {
    pub attrs: Vec<Attribute>,
    pub sig: Signature,
    /// The default body, braces included.
    pub default: Option<Vec<Token>>,
}

pub enum TraitItem {
    Fn(TraitItemFn),
    Verbatim(Vec<Token>),
}

pub struct ItemTrait {
    pub attrs: Vec<Attribute>,
    pub vis: Vec<Token>,
    /// `unsafe`, `auto`.
    pub qualifiers: Vec<Token>,
    pub ident: String,
    pub generics: Generics,
    pub supertraits: Vec<Bound>,
    pub items: Vec<TraitItem>,
}

pub struct ItemImpl {
    pub attrs: Vec<Attribute>,
    /// `default`, `unsafe`.
    pub qualifiers: Vec<Token>,
    pub generics: Generics,
    /// `!Trait for` or `Trait for`; empty for an inherent implementation.
    pub trait_ref: Vec<Token>,
    pub self_ty: Vec<Token>,
    pub items: Vec<ImplItem>,
}

pub enum Fields {
    /// The tokens between the braces.
    Named(Vec<Token>),
    /// The tokens between the parentheses.
    Unnamed(Vec<Token>),
    Unit,
}

pub struct ItemStruct {
    pub attrs: Vec<Attribute>,
    pub vis: Vec<Token>,
    pub ident: String,
    pub generics: Generics,
    pub fields: Fields,
}

pub struct ItemEnum {
    pub attrs: Vec<Attribute>,
    pub vis: Vec<Token>,
    pub ident: String,
    pub generics: Generics,
    /// The tokens between the braces.
    pub variants: Vec<Token>,
}

pub struct ItemUnion {
    pub attrs: Vec<Attribute>,
    pub vis: Vec<Token>,
    pub ident: String,
    pub generics: Generics,
    /// The tokens between the braces.
    pub fields: Vec<Token>,
}

pub struct ItemType {
    pub attrs: Vec<Attribute>,
    pub vis: Vec<Token>,
    pub ident: String,
    pub generics: Generics,
    /// The aliased type.
    pub ty: Vec<Token>,
}

pub struct ItemMod {
    pub attrs: Vec<Attribute>,
    pub vis: Vec<Token>,
    pub ident: String,
    /// The items of an inline module; `None` for `mod name;`.
    pub content: Option<Vec<Item>>,
}

/// A declaration.
pub enum Item {
    Fn(ItemFn),
    Trait(ItemTrait),
    Impl(ItemImpl),
    Struct(ItemStruct),
    Enum(ItemEnum),
    Union(ItemUnion),
    Type(ItemType),
    Mod(ItemMod),
    /// Any other declaration, passed through.
    Other(Vec<Token>),
}

// ---- tokens of the parts passed through ----

pub open spec fn word(s: Seq<char>) -> TokenView {
    TokenView::Ident(s)
}

pub open spec fn sym(c: char) -> TokenView {
    TokenView::Punct(c, Spacing::Alone)
}

/// `::`
pub open spec fn path_sep() -> Seq<TokenView> {
    seq![TokenView::Punct(':', Spacing::Joint), sym(':')]
}

pub open spec fn arguments_view(a: PathArguments) -> Seq<TokenView> {
    match a {
        PathArguments::Bare => Seq::empty(),
        PathArguments::AngleBracketed(x) => tokens_view(x.tokens@),
        PathArguments::Parenthesized(ts) => tokens_view(ts@),
    }
}

pub open spec fn segment_view(s: PathSegment) -> Seq<TokenView> {
    seq![word(s.ident@)] + arguments_view(s.arguments)
}

pub open spec fn segments_view(ss: Seq<PathSegment>) -> Seq<TokenView>
    decreases ss.len(),
{
    if ss.len() == 0 {
        Seq::empty()
    } else if ss.len() == 1 {
        segment_view(ss[0])
    } else {
        segments_view(ss.drop_last()) + path_sep() + segment_view(ss.last())
    }
}

/// The tokens of a path.
pub open spec fn path_view(p: Path) -> Seq<TokenView> {
    (if p.leading_colon {
        path_sep()
    } else {
        Seq::empty()
    }) + segments_view(p.segments@)
}

/// Whether the path is the single identifier `name`.
pub open spec fn path_is_ident(p: Path, name: Seq<char>) -> bool {
    &&& !p.leading_colon
    &&& p.segments@.len() == 1
    &&& p.segments@[0].arguments is Bare
    &&& p.segments@[0].ident@ == name
}

pub(crate) fn push_path_sep(out: &mut Vec<Token>)
    ensures
        tokens_view(final(out)@) == tokens_view(old(out)@) + path_sep(),
{
    let ghost start = tokens_view(out@);
    push_token(out, Token::Punct(':', Spacing::Joint));
    push_token(out, Token::Punct(':', Spacing::Alone));
    assert(tokens_view(out@) =~= start + path_sep());
}

fn arguments_tokens(a: &PathArguments) -> (r: Vec<Token>)
    ensures
        tokens_view(r@) == arguments_view(*a),
{
    match a {
        PathArguments::Bare => {
            let v: Vec<Token> = Vec::new();
            assert(tokens_view(v@) =~= Seq::<TokenView>::empty());
            v
        },
        PathArguments::AngleBracketed(x) => copy_tokens(&x.tokens),
        PathArguments::Parenthesized(ts) => copy_tokens(ts),
    }
}

impl Path {
    /// The tokens of this path.
    pub fn to_tokens(&self) -> (r: Vec<Token>)
        ensures
            tokens_view(r@) == path_view(*self),
    {
        let mut out: Vec<Token> = Vec::new();
        assert(tokens_view(out@) =~= Seq::<TokenView>::empty());
        if self.leading_colon {
            push_path_sep(&mut out);
        }
        let ghost lead = tokens_view(out@);
        assert(lead =~= if self.leading_colon {
            path_sep()
        } else {
            Seq::empty()
        });
        let ghost ss = self.segments@;
        let n = self.segments.len();
        let mut i: usize = 0;
        while i < n
            invariant
                n == ss.len(),
                ss == self.segments@,
                i <= n,
                tokens_view(out@) == lead + segments_view(ss.take(i as int)),
            decreases n - i,
        {
            if i > 0 {
                push_path_sep(&mut out);
            }
            let seg = &self.segments[i];
            push_token(&mut out, Token::Ident(seg.ident.clone()));
            append_tokens(&mut out, arguments_tokens(&seg.arguments));
            proof {
                let p = ss.take(i + 1);
                assert(p.drop_last() =~= ss.take(i as int));
                assert(p.last() == ss[i as int]);
                if i == 0 {
                    assert(p.len() == 1);
                    assert(segments_view(ss.take(0)) =~= Seq::<TokenView>::empty());
                    assert(tokens_view(out@) =~= lead + segments_view(p));
                } else {
                    assert(tokens_view(out@) =~= lead + segments_view(p));
                }
            }
            i = i + 1;
        }
        assert(ss.take(n as int) =~= ss);
        out
    }

    /// Whether this path is the single identifier `name`.
    pub fn is_ident(&self, name: &str) -> (r: bool)
        ensures
            r == path_is_ident(*self, name@),
    {
        if self.leading_colon || self.segments.len() != 1 {
            return false;
        }
        match &self.segments[0].arguments {
            PathArguments::Bare => {},
            _ => {
                return false;
            },
        }
        str_eq(self.segments[0].ident.as_str(), name)
    }
}

/// Whether two strings hold the same characters.
pub fn str_eq(a: &str, b: &str) -> (r: bool)
    ensures
        r == (a@ == b@),
{
    let n = a.unicode_len();
    if n != b.unicode_len() {
        return false;
    }
    let mut i: usize = 0;
    while i < n
        invariant
            n == a@.len(),
            n == b@.len(),
            i <= n,
            forall|k: int| 0 <= k < i ==> a@[k] == b@[k],
        decreases n - i,
    {
        if a.get_char(i) != b.get_char(i) {
            return false;
        }
        i = i + 1;
    }
    assert(a@ =~= b@);
    true
}

/// A keyword or name as a token.
pub(crate) fn word_token(s: &str) -> (r: Token)
    ensures
        r@ == word(s@),
{
    ident(s)
}

pub(crate) fn empty_tokens() -> (r: Vec<Token>)
    ensures
        tokens_view(r@) == Seq::<TokenView>::empty(),
        r@.len() == 0,
{
    let v: Vec<Token> = Vec::new();
    assert(tokens_view(v@) =~= Seq::<TokenView>::empty());
    v
}

/// A group holding `inner`.
pub(crate) fn group_token(d: Delimiter, inner: Vec<Token>) -> (r: Token)
    ensures
        r@ == TokenView::Group(d, tokens_view(inner@)),
{
    Token::Group(d, inner)
}

} // verus!
