//! The structural engine: rebuilds each kind of declaration from its
//! rewritten parts, and checks where the `#[c0nst]` and `#[m0rph]` marks may
//! stand.
use vstd::prelude::*;

use crate::attrs::{attr_named, has_attr, HasAttribute, IsAttribute};
use crate::bounds::{bounds_view, generics_view, params_part, signature_view, transform_bounds, where_part};
use crate::convert::Target;
use crate::rule::{const_ident, keyword, marker_word};
use crate::syntax::{
    empty_tokens, group_token, sym, word, word_token, Attribute, Fields, ImplItem, Item, ItemEnum,
    ItemFn, ItemImpl, ItemMod, ItemStruct, ItemTrait, ItemType, ItemUnion, TraitItem,
};
use crate::token::{append_tokens, copy_tokens, push_token, tokens_view, Delimiter, Spacing, Token, TokenView};

verus! {

/// The tokens of the attributes, `#[c0nst]` left out.
pub open spec fn attrs_view(attrs: Seq<Attribute>) -> Seq<TokenView>
    decreases attrs.len(),
{
    if attrs.len() == 0 {
        Seq::empty()
    } else {
        attrs_view(attrs.drop_last()) + if attr_named(attrs.last(), marker_word()) {
            Seq::empty()
        } else {
            tokens_view(attrs.last().tokens@)
        }
    }
}

/// The tokens of all the attributes.
pub open spec fn all_attrs_view(attrs: Seq<Attribute>) -> Seq<TokenView>
    decreases attrs.len(),
{
    if attrs.len() == 0 {
        Seq::empty()
    } else {
        all_attrs_view(attrs.drop_last()) + tokens_view(attrs.last().tokens@)
    }
}

/// `const` on nightly where the attributes hold `#[c0nst]`; nothing
/// otherwise.
pub open spec fn const_view(attrs: Seq<Attribute>, target: Target) -> Seq<TokenView> {
    if target == Target::Nightly && has_attr(attrs, marker_word()) {
        seq![const_ident()]
    } else {
        Seq::empty()
    }
}

pub open spec fn fn_view(f: ItemFn, target: Target) -> Seq<TokenView> {
    attrs_view(f.attrs@) + tokens_view(f.vis@) + const_view(f.attrs@, target) + signature_view(
        f.sig,
        target,
    ) + tokens_view(f.block@)
}

pub open spec fn impl_item_view(i: ImplItem, target: Target) -> Seq<TokenView> {
    match i {
        ImplItem::Fn(f) => fn_view(f, target),
        ImplItem::Verbatim(ts) => tokens_view(ts@),
    }
}

pub open spec fn impl_items_view(items: Seq<ImplItem>, target: Target) -> Seq<TokenView>
    decreases items.len(),
{
    if items.len() == 0 {
        Seq::empty()
    } else {
        impl_items_view(items.drop_last(), target) + impl_item_view(items.last(), target)
    }
}

pub open spec fn trait_item_view(i: TraitItem, target: Target) -> Seq<TokenView> {
    match i {
        TraitItem::Fn(f) => attrs_view(f.attrs@) + const_view(f.attrs@, target) + signature_view(
            f.sig,
            target,
        ) + match f.default {
            Some(b) => tokens_view(b@),
            None => seq![sym(';')],
        },
        TraitItem::Verbatim(ts) => tokens_view(ts@),
    }
}

pub open spec fn trait_items_view(items: Seq<TraitItem>, target: Target) -> Seq<TokenView>
    decreases items.len(),
{
    if items.len() == 0 {
        Seq::empty()
    } else {
        trait_items_view(items.drop_last(), target) + trait_item_view(items.last(), target)
    }
}

/// `: supertraits`, nothing when none remains.
pub open spec fn supertraits_view(x: ItemTrait, target: Target) -> Seq<TokenView> {
    let b = bounds_view(x.supertraits@, target);
    if b.len() == 0 {
        Seq::empty()
    } else {
        seq![sym(':')] + b
    }
}

pub open spec fn trait_view(x: ItemTrait, target: Target) -> Seq<TokenView> {
    attrs_view(x.attrs@) + tokens_view(x.vis@) + const_view(x.attrs@, target) + tokens_view(
        x.qualifiers@,
    ) + seq![word("trait"@), word(x.ident@)] + params_part(x.generics, target) + supertraits_view(
        x,
        target,
    ) + where_part(x.generics, target) + seq![
        TokenView::Group(Delimiter::Brace, trait_items_view(x.items@, target)),
    ]
}

/// An implementation block: the const keyword goes between the generics and
/// the trait.
pub open spec fn impl_view(x: ItemImpl, target: Target) -> Seq<TokenView> {
    attrs_view(x.attrs@) + tokens_view(x.qualifiers@) + seq![word("impl"@)] + params_part(
        x.generics,
        target,
    ) + const_view(x.attrs@, target) + tokens_view(x.trait_ref@) + tokens_view(x.self_ty@)
        + where_part(x.generics, target) + seq![
        TokenView::Group(Delimiter::Brace, impl_items_view(x.items@, target)),
    ]
}

pub open spec fn struct_view(x: ItemStruct, target: Target) -> Seq<TokenView> {
    attrs_view(x.attrs@) + tokens_view(x.vis@) + seq![word("struct"@), word(x.ident@)]
        + params_part(x.generics, target) + match x.fields {
        Fields::Named(ts) => where_part(x.generics, target) + seq![
            TokenView::Group(Delimiter::Brace, tokens_view(ts@)),
        ],
        Fields::Unnamed(ts) => seq![TokenView::Group(Delimiter::Parenthesis, tokens_view(ts@))]
            + where_part(x.generics, target) + seq![sym(';')],
        Fields::Unit => where_part(x.generics, target) + seq![sym(';')],
    }
}

pub open spec fn enum_view(x: ItemEnum, target: Target) -> Seq<TokenView> {
    attrs_view(x.attrs@) + tokens_view(x.vis@) + seq![word("enum"@), word(x.ident@)]
        + generics_view(x.generics, target) + seq![
        TokenView::Group(Delimiter::Brace, tokens_view(x.variants@)),
    ]
}

pub open spec fn union_view(x: ItemUnion, target: Target) -> Seq<TokenView> {
    attrs_view(x.attrs@) + tokens_view(x.vis@) + seq![word("union"@), word(x.ident@)]
        + generics_view(x.generics, target) + seq![
        TokenView::Group(Delimiter::Brace, tokens_view(x.fields@)),
    ]
}

pub open spec fn type_view(x: ItemType, target: Target) -> Seq<TokenView> {
    attrs_view(x.attrs@) + tokens_view(x.vis@) + seq![word("type"@), word(x.ident@)]
        + generics_view(x.generics, target) + seq![sym('=')] + tokens_view(x.ty@) + seq![sym(';')]
}

/// A module: one without a body as written; an inline one with each of its
/// items rewritten.
pub open spec fn mod_view(m: ItemMod, body: Option<Seq<TokenView>>) -> Seq<TokenView> {
    all_attrs_view(m.attrs@) + tokens_view(m.vis@) + seq![word("mod"@), word(m.ident@)] + match body {
        Some(b) => seq![TokenView::Group(Delimiter::Brace, b)],
        None => seq![sym(';')],
    }
}

/// The rewriting of a declaration.
pub open spec fn item_view(item: Item, target: Target) -> Seq<TokenView>
    decreases item, 0nat,
{
    match item {
        Item::Fn(f) => fn_view(f, target),
        Item::Trait(x) => trait_view(x, target),
        Item::Impl(x) => impl_view(x, target),
        Item::Struct(x) => struct_view(x, target),
        Item::Enum(x) => enum_view(x, target),
        Item::Union(x) => union_view(x, target),
        Item::Type(x) => type_view(x, target),
        Item::Mod(m) => mod_view(
            m,
            match m.content {
                Some(items) => Some(items_view(items@, target)),
                None => None,
            },
        ),
        Item::Other(ts) => tokens_view(ts@),
    }
}

/// The rewritings of the declarations, in order.
pub open spec fn items_view(items: Seq<Item>, target: Target) -> Seq<TokenView>
    decreases items, items.len(),
{
    if items.len() == 0 {
        Seq::empty()
    } else {
        items_view(items.drop_last(), target) + item_view(items.last(), target)
    }
}

// ---- executable rewriting ----

fn marker_attr(a: &Attribute) -> (r: bool)
    ensures
        r == attr_named(*a, marker_word()),
{
    proof {
        reveal_strlit("c0nst");
    }
    assert("c0nst"@ =~= marker_word());
    a.is_attribute("c0nst")
}

/// The tokens of the attributes, `#[c0nst]` left out.
pub fn transform_attrs(attrs: &Vec<Attribute>) -> (r: Vec<Token>)
    ensures
        tokens_view(r@) == attrs_view(attrs@),
{
    let mut out = empty_tokens();
    let mut i: usize = 0;
    while i < attrs.len()
        invariant
            i <= attrs@.len(),
            tokens_view(out@) == attrs_view(attrs@.take(i as int)),
        decreases attrs@.len() - i,
    {
        if !marker_attr(&attrs[i]) {
            append_tokens(&mut out, copy_tokens(&attrs[i].tokens));
        }
        proof {
            let p = attrs@.take(i + 1);
            assert(p.drop_last() =~= attrs@.take(i as int));
            assert(p.last() == attrs@[i as int]);
            assert(tokens_view(out@) =~= attrs_view(p));
        }
        i = i + 1;
    }
    assert(attrs@.take(attrs@.len() as int) =~= attrs@);
    out
}

fn copy_attrs(attrs: &Vec<Attribute>) -> (r: Vec<Token>)
    ensures
        tokens_view(r@) == all_attrs_view(attrs@),
{
    let mut out = empty_tokens();
    let mut i: usize = 0;
    while i < attrs.len()
        invariant
            i <= attrs@.len(),
            tokens_view(out@) == all_attrs_view(attrs@.take(i as int)),
        decreases attrs@.len() - i,
    {
        append_tokens(&mut out, copy_tokens(&attrs[i].tokens));
        proof {
            let p = attrs@.take(i + 1);
            assert(p.drop_last() =~= attrs@.take(i as int));
            assert(p.last() == attrs@[i as int]);
        }
        i = i + 1;
    }
    assert(attrs@.take(attrs@.len() as int) =~= attrs@);
    out
}

fn const_keyword(attrs: &Vec<Attribute>, target: Target) -> (r: Vec<Token>)
    ensures
        tokens_view(r@) == const_view(attrs@, target),
{
    proof {
        reveal_strlit("c0nst");
    }
    assert("c0nst"@ =~= marker_word());
    let mut out = empty_tokens();
    if target == Target::Nightly && attrs.as_slice().has_attribute("c0nst") {
        push_token(&mut out, keyword());
        assert(tokens_view(out@) =~= seq![const_ident()]);
    }
    out
}

impl Transform for ItemFn {
    open spec fn transformed(&self, target: Target) -> Seq<TokenView> {
        fn_view(*self, target)
    }

    fn transform(&self, target: Target) -> (r: Vec<Token>) {
        let mut out = transform_attrs(&self.attrs);
        append_tokens(&mut out, copy_tokens(&self.vis));
        append_tokens(&mut out, const_keyword(&self.attrs, target));
        append_tokens(&mut out, self.sig.transform(target));
        append_tokens(&mut out, copy_tokens(&self.block));
        out
    }
}

impl Transform for ImplItem {
    open spec fn transformed(&self, target: Target) -> Seq<TokenView> {
        impl_item_view(*self, target)
    }

    fn transform(&self, target: Target) -> (r: Vec<Token>) {
        match self {
            ImplItem::Fn(f) => f.transform(target),
            ImplItem::Verbatim(ts) => copy_tokens(ts),
        }
    }
}

impl Transform for TraitItem {
    open spec fn transformed(&self, target: Target) -> Seq<TokenView> {
        trait_item_view(*self, target)
    }

    fn transform(&self, target: Target) -> (r: Vec<Token>) {
        match self {
            TraitItem::Fn(f) => {
                let mut out = transform_attrs(&f.attrs);
                append_tokens(&mut out, const_keyword(&f.attrs, target));
                append_tokens(&mut out, f.sig.transform(target));
                match &f.default {
                    Some(b) => append_tokens(&mut out, copy_tokens(b)),
                    None => push_token(&mut out, Token::Punct(';', Spacing::Alone)),
                }
                out
            },
            TraitItem::Verbatim(ts) => copy_tokens(ts),
        }
    }
}

fn transform_impl_items(items: &Vec<ImplItem>, target: Target) -> (r: Vec<Token>)
    ensures
        tokens_view(r@) == impl_items_view(items@, target),
{
    let mut out = empty_tokens();
    let mut i: usize = 0;
    while i < items.len()
        invariant
            i <= items@.len(),
            tokens_view(out@) == impl_items_view(items@.take(i as int), target),
        decreases items@.len() - i,
    {
        append_tokens(&mut out, items[i].transform(target));
        proof {
            let p = items@.take(i + 1);
            assert(p.drop_last() =~= items@.take(i as int));
            assert(p.last() == items@[i as int]);
        }
        i = i + 1;
    }
    assert(items@.take(items@.len() as int) =~= items@);
    out
}

fn transform_trait_items(items: &Vec<TraitItem>, target: Target) -> (r: Vec<Token>)
    ensures
        tokens_view(r@) == trait_items_view(items@, target),
{
    let mut out = empty_tokens();
    let mut i: usize = 0;
    while i < items.len()
        invariant
            i <= items@.len(),
            tokens_view(out@) == trait_items_view(items@.take(i as int), target),
        decreases items@.len() - i,
    {
        append_tokens(&mut out, items[i].transform(target));
        proof {
            let p = items@.take(i + 1);
            assert(p.drop_last() =~= items@.take(i as int));
            assert(p.last() == items@[i as int]);
        }
        i = i + 1;
    }
    assert(items@.take(items@.len() as int) =~= items@);
    out
}

/// One word token, as a sequence.
fn words(s: &str) -> (r: Vec<Token>)
    ensures
        tokens_view(r@) == seq![word(s@)],
{
    let mut out = empty_tokens();
    push_token(&mut out, word_token(s));
    assert(tokens_view(out@) =~= seq![word(s@)]);
    out
}

/// `keyword name`.
fn head(kw: &str, name: &String) -> (r: Vec<Token>)
    ensures
        tokens_view(r@) == seq![word(kw@), word(name@)],
{
    let mut out = empty_tokens();
    push_token(&mut out, word_token(kw));
    push_token(&mut out, Token::Ident(name.clone()));
    assert(tokens_view(out@) =~= seq![word(kw@), word(name@)]);
    out
}

fn braced(inner: Vec<Token>) -> (r: Vec<Token>)
    ensures
        tokens_view(r@) == seq![TokenView::Group(Delimiter::Brace, tokens_view(inner@))],
{
    let mut out = empty_tokens();
    push_token(&mut out, group_token(Delimiter::Brace, inner));
    assert(tokens_view(out@) =~= seq![TokenView::Group(Delimiter::Brace, tokens_view(inner@))]);
    out
}

impl Transform for ItemTrait {
    open spec fn transformed(&self, target: Target) -> Seq<TokenView> {
        trait_view(*self, target)
    }

    fn transform(&self, target: Target) -> (r: Vec<Token>) {
        let mut out = transform_attrs(&self.attrs);
        append_tokens(&mut out, copy_tokens(&self.vis));
        append_tokens(&mut out, const_keyword(&self.attrs, target));
        append_tokens(&mut out, copy_tokens(&self.qualifiers));
        append_tokens(&mut out, head("trait", &self.ident));
        append_tokens(&mut out, self.generics.transform_params(target));
        let sup = transform_bounds(&self.supertraits, target);
        let mut colon_sup = empty_tokens();
        if sup.len() > 0 {
            push_token(&mut colon_sup, Token::Punct(':', Spacing::Alone));
            append_tokens(&mut colon_sup, sup);
        }
        assert(tokens_view(colon_sup@) =~= supertraits_view(*self, target));
        append_tokens(&mut out, colon_sup);
        append_tokens(&mut out, self.generics.transform_where(target));
        append_tokens(&mut out, braced(transform_trait_items(&self.items, target)));
        assert(tokens_view(out@) =~= trait_view(*self, target));
        out
    }
}

impl Transform for ItemImpl {
    open spec fn transformed(&self, target: Target) -> Seq<TokenView> {
        impl_view(*self, target)
    }

    fn transform(&self, target: Target) -> (r: Vec<Token>) {
        let mut out = transform_attrs(&self.attrs);
        append_tokens(&mut out, copy_tokens(&self.qualifiers));
        append_tokens(&mut out, words("impl"));
        append_tokens(&mut out, self.generics.transform_params(target));
        append_tokens(&mut out, const_keyword(&self.attrs, target));
        append_tokens(&mut out, copy_tokens(&self.trait_ref));
        append_tokens(&mut out, copy_tokens(&self.self_ty));
        append_tokens(&mut out, self.generics.transform_where(target));
        append_tokens(&mut out, braced(transform_impl_items(&self.items, target)));
        assert(tokens_view(out@) =~= impl_view(*self, target));
        out
    }
}

impl Transform for ItemStruct {
    open spec fn transformed(&self, target: Target) -> Seq<TokenView> {
        struct_view(*self, target)
    }

    fn transform(&self, target: Target) -> (r: Vec<Token>) {
        let mut out = transform_attrs(&self.attrs);
        append_tokens(&mut out, copy_tokens(&self.vis));
        append_tokens(&mut out, head("struct", &self.ident));
        append_tokens(&mut out, self.generics.transform_params(target));
        let mut rest = empty_tokens();
        match &self.fields {
            Fields::Named(ts) => {
                append_tokens(&mut rest, self.generics.transform_where(target));
                append_tokens(&mut rest, braced(copy_tokens(ts)));
            },
            Fields::Unnamed(ts) => {
                push_token(&mut rest, group_token(Delimiter::Parenthesis, copy_tokens(ts)));
                append_tokens(&mut rest, self.generics.transform_where(target));
                push_token(&mut rest, Token::Punct(';', Spacing::Alone));
            },
            Fields::Unit => {
                append_tokens(&mut rest, self.generics.transform_where(target));
                push_token(&mut rest, Token::Punct(';', Spacing::Alone));
            },
        }
        append_tokens(&mut out, rest);
        assert(tokens_view(out@) =~= struct_view(*self, target));
        out
    }
}

impl Transform for ItemEnum {
    open spec fn transformed(&self, target: Target) -> Seq<TokenView> {
        enum_view(*self, target)
    }

    fn transform(&self, target: Target) -> (r: Vec<Token>) {
        let mut out = transform_attrs(&self.attrs);
        append_tokens(&mut out, copy_tokens(&self.vis));
        append_tokens(&mut out, head("enum", &self.ident));
        append_tokens(&mut out, self.generics.transform(target));
        append_tokens(&mut out, braced(copy_tokens(&self.variants)));
        assert(tokens_view(out@) =~= enum_view(*self, target));
        out
    }
}

impl Transform for ItemUnion {
    open spec fn transformed(&self, target: Target) -> Seq<TokenView> {
        union_view(*self, target)
    }

    fn transform(&self, target: Target) -> (r: Vec<Token>) {
        let mut out = transform_attrs(&self.attrs);
        append_tokens(&mut out, copy_tokens(&self.vis));
        append_tokens(&mut out, head("union", &self.ident));
        append_tokens(&mut out, self.generics.transform(target));
        append_tokens(&mut out, braced(copy_tokens(&self.fields)));
        assert(tokens_view(out@) =~= union_view(*self, target));
        out
    }
}

impl Transform for ItemType {
    open spec fn transformed(&self, target: Target) -> Seq<TokenView> {
        type_view(*self, target)
    }

    fn transform(&self, target: Target) -> (r: Vec<Token>) {
        let mut out = transform_attrs(&self.attrs);
        append_tokens(&mut out, copy_tokens(&self.vis));
        append_tokens(&mut out, head("type", &self.ident));
        append_tokens(&mut out, self.generics.transform(target));
        push_token(&mut out, Token::Punct('=', Spacing::Alone));
        append_tokens(&mut out, copy_tokens(&self.ty));
        push_token(&mut out, Token::Punct(';', Spacing::Alone));
        assert(tokens_view(out@) =~= type_view(*self, target));
        out
    }
}

/// The rewriting of a declaration.
pub fn transform_item(item: &Item, target: Target) -> (r: Vec<Token>)
    ensures
        tokens_view(r@) == item_view(*item, target),
    decreases item,
{
    match item {
        Item::Fn(f) => f.transform(target),
        Item::Trait(x) => x.transform(target),
        Item::Impl(x) => x.transform(target),
        Item::Struct(x) => x.transform(target),
        Item::Enum(x) => x.transform(target),
        Item::Union(x) => x.transform(target),
        Item::Type(x) => x.transform(target),
        Item::Mod(m) => transform_module(m, target),
        Item::Other(ts) => copy_tokens(ts),
    }
}

/// The rewriting of a module: one without a body as written, an inline one
/// with each of its items rewritten.
pub fn transform_module(m: &ItemMod, target: Target) -> (r: Vec<Token>)
    ensures
        tokens_view(r@) == item_view(Item::Mod(*m), target),
    decreases m,
{
    let mut out = copy_attrs(&m.attrs);
    append_tokens(&mut out, copy_tokens(&m.vis));
    append_tokens(&mut out, head("mod", &m.ident));
    match &m.content {
        None => {
            push_token(&mut out, Token::Punct(';', Spacing::Alone));
        },
        Some(items) => {
            let mut body = empty_tokens();
            let mut i: usize = 0;
            while i < items.len()
                invariant
                    i <= items@.len(),
                    tokens_view(body@) == items_view(items@.take(i as int), target),
                    forall|k: int| 0 <= k < items@.len() ==> decreases_to!(*m => #[trigger] items@[k]),
                decreases items@.len() - i,
            {
                append_tokens(&mut body, transform_item(&items[i], target));
                proof {
                    let p = items@.take(i + 1);
                    assert(p.drop_last() =~= items@.take(i as int));
                    assert(p.last() == items@[i as int]);
                }
                i = i + 1;
            }
            assert(items@.take(items@.len() as int) =~= items@);
            append_tokens(&mut out, braced(body));
        },
    }
    assert(tokens_view(out@) =~= item_view(Item::Mod(*m), target));
    out
}

impl Transform for ItemMod {
    open spec fn transformed(&self, target: Target) -> Seq<TokenView> {
        item_view(Item::Mod(*self), target)
    }

    fn transform(&self, target: Target) -> (r: Vec<Token>) {
        transform_module(self, target)
    }
}

/// Rewriting of a declaration or one of its parts for a target.
pub trait Transform {
    spec fn transformed(&self, target: Target) -> Seq<TokenView>;

    fn transform(&self, target: Target) -> (r: Vec<Token>)
        ensures
            tokens_view(r@) == self.transformed(target),
    ;
}

impl Transform for Item {
    open spec fn transformed(&self, target: Target) -> Seq<TokenView> {
        item_view(*self, target)
    }

    fn transform(&self, target: Target) -> (r: Vec<Token>) {
        transform_item(self, target)
    }
}

// ---- where the marks may stand ----

/// A mark used where it may not stand.
#[derive(Clone, Copy, Debug, PartialEq, Eq, Structural)]
pub enum Misuse {
    /// `#[m0rph]` on a declaration that it cannot adapt.
    Morph,
    /// `#[c0nst]` on a declaration that has no const form.
    Const,
}

impl Misuse {
    /// A description of the misuse.
    pub fn message(&self) -> (r: String)
        ensures
            r@ == match self {
                Misuse::Morph => "cannot use `#[m0rph]` in this context"@,
                Misuse::Const => "cannot use `#[c0nst]` in this context"@,
            },
    {
        match self {
            Misuse::Morph => "cannot use `#[m0rph]` in this context".to_owned(),
            Misuse::Const => "cannot use `#[c0nst]` in this context".to_owned(),
        }
    }
}

/// Whether `#[m0rph]` may stand on the declaration: a trait, an
/// implementation, a function, a struct, an enum, a union, a type alias, or
/// a module with a body.
pub open spec fn morph_allowed(item: Item) -> bool {
    match item {
        Item::Mod(m) => m.content is Some,
        Item::Trait(_) | Item::Impl(_) | Item::Fn(_) | Item::Struct(_) | Item::Enum(_)
        | Item::Union(_) | Item::Type(_) => true,
        Item::Other(_) => false,
    }
}

/// Whether `#[c0nst]` may stand on the declaration: a trait, an
/// implementation or a function.
pub open spec fn const_allowed(item: Item) -> bool {
    match item {
        Item::Trait(_) | Item::Impl(_) | Item::Fn(_) => true,
        _ => false,
    }
}

/// Where the marks may stand.
pub trait Annotation {
    spec fn morph_ok(&self) -> bool;

    spec fn const_ok(&self) -> bool;

    /// Whether `#[m0rph]` may stand here.
    fn can_m0rph(&self) -> (r: Result<(), Misuse>)
        ensures
            r == if self.morph_ok() {
                Ok::<(), Misuse>(())
            } else {
                Err(Misuse::Morph)
            },
    ;

    /// Whether `#[c0nst]` may stand here.
    fn can_c0nst(&self) -> (r: Result<(), Misuse>)
        ensures
            r == if self.const_ok() {
                Ok::<(), Misuse>(())
            } else {
                Err(Misuse::Const)
            },
    ;
}

impl Annotation for Item {
    open spec fn morph_ok(&self) -> bool {
        morph_allowed(*self)
    }

    open spec fn const_ok(&self) -> bool {
        const_allowed(*self)
    }

    fn can_m0rph(&self) -> (r: Result<(), Misuse>) {
        match self {
            Item::Mod(m) => if m.content.is_some() {
                Ok(())
            } else {
                Err(Misuse::Morph)
            },
            Item::Trait(_) | Item::Impl(_) | Item::Fn(_) | Item::Struct(_) | Item::Enum(_)
            | Item::Union(_) | Item::Type(_) => Ok(()),
            Item::Other(_) => Err(Misuse::Morph),
        }
    }

    fn can_c0nst(&self) -> (r: Result<(), Misuse>) {
        match self {
            Item::Trait(_) | Item::Impl(_) | Item::Fn(_) => Ok(()),
            _ => Err(Misuse::Const),
        }
    }
}

} // verus!
