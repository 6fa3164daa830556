//! The bound rewriter: `c0nst<Trait>` and `?c0nst<Trait>` bounds in generic
//! parameters and where-clauses, and the generics and signatures that hold
//! them.
use vstd::prelude::*;

use crate::convert::Target;
use crate::xform::Transform;
use crate::rule::{
    bracketed, const_group, const_ident, const_word, destruct_word, keyword, marker_word,
    push_qualified_destruct, qualified_destruct,
};
use crate::syntax::{
    empty_tokens, group_token, path_is_ident, path_view, sym, word, word_token, Bound, GenericParam,
    Generics, Path, PathArguments, Signature, TraitBound, TypeParam, WherePredicate, str_eq,
};
use crate::token::{
    append_tokens, copy_tokens, push_token, tokens_view, Delimiter, Spacing, Token, TokenView,
};

verus! {

/// The bound inside a wrapper bound: `Trait` for `c0nst<Trait>` or
/// `?c0nst<Trait>`, where the first argument is a type path (any further
/// argument is ignored); `None` for any other bound.
pub open spec fn wrapped(b: TraitBound) -> Option<Path> {
    if b.path.segments@.len() == 1 && b.path.segments@[0].ident@ == marker_word() {
        match b.path.segments@[0].arguments {
            PathArguments::AngleBracketed(a) => a.first_type,
            _ => None,
        }
    } else {
        None
    }
}

pub open spec fn is_destruct(p: Path) -> bool {
    path_is_ident(p, destruct_word())
}

/// A trait bound as written: `?`, binder and path, in parentheses if
/// `paren`.
pub open spec fn plain_bound_view(
    paren: bool,
    maybe: bool,
    lifetimes: Seq<TokenView>,
    path: Seq<TokenView>,
) -> Seq<TokenView> {
    let inner = (if maybe {
        seq![sym('?')]
    } else {
        Seq::empty()
    }) + lifetimes + path;
    if paren {
        seq![TokenView::Group(Delimiter::Parenthesis, inner)]
    } else {
        inner
    }
}

/// `[const]` for a conditional wrapper (`?c0nst`), `const` for a required one.
pub open spec fn const_prefix(maybe: bool) -> Seq<TokenView> {
    if maybe {
        seq![const_group()]
    } else {
        seq![const_ident()]
    }
}

/// The rewriting of a trait bound. Any bound but a wrapper is kept. On
/// stable a wrapper becomes the plain bound it wraps, without modifier, and
/// a wrapped `Destruct` vanishes (no tokens). On nightly a wrapper becomes
/// `const Trait` or `[const] Trait`, `Destruct` being written
/// `core::marker::Destruct`.
pub open spec fn trait_bound_view(b: TraitBound, target: Target) -> Seq<TokenView> {
    match wrapped(b) {
        None => plain_bound_view(
            b.parenthesized,
            b.maybe,
            tokens_view(b.lifetimes@),
            path_view(b.path),
        ),
        Some(inner) => match target {
            Target::Stable => if is_destruct(inner) {
                Seq::empty()
            } else {
                plain_bound_view(b.parenthesized, false, tokens_view(b.lifetimes@), path_view(inner))
            },
            Target::Nightly => const_prefix(b.maybe) + if is_destruct(inner) {
                qualified_destruct()
            } else {
                path_view(inner)
            },
        },
    }
}

pub open spec fn bound_view(b: Bound, target: Target) -> Seq<TokenView> {
    match b {
        Bound::Trait(t) => trait_bound_view(t, target),
        Bound::Verbatim(ts) => tokens_view(ts@),
    }
}

/// The rewritten bounds joined by `+`; a bound that vanishes takes no `+`
/// with it.
pub open spec fn bounds_view(bs: Seq<Bound>, target: Target) -> Seq<TokenView>
    decreases bs.len(),
{
    if bs.len() == 0 {
        Seq::empty()
    } else {
        let rest = bounds_view(bs.drop_last(), target);
        let b = bound_view(bs.last(), target);
        if b.len() == 0 {
            rest
        } else if rest.len() == 0 {
            b
        } else {
            rest + seq![sym('+')] + b
        }
    }
}

/// `T: bounds = default`, the colon only where a bound remains.
pub open spec fn type_param_view(p: TypeParam, target: Target) -> Seq<TokenView> {
    let b = bounds_view(p.bounds@, target);
    seq![word(p.ident@)] + (if b.len() == 0 {
        Seq::empty()
    } else {
        seq![sym(':')] + b
    }) + tokens_view(p.default@)
}

pub open spec fn generic_param_view(g: GenericParam, target: Target) -> Seq<TokenView> {
    match g {
        GenericParam::Type(p) => type_param_view(p, target),
        GenericParam::Verbatim(ts) => tokens_view(ts@),
    }
}

pub open spec fn params_view(ps: Seq<GenericParam>, target: Target) -> Seq<TokenView>
    decreases ps.len(),
{
    if ps.len() == 0 {
        Seq::empty()
    } else if ps.len() == 1 {
        generic_param_view(ps[0], target)
    } else {
        params_view(ps.drop_last(), target) + seq![sym(',')] + generic_param_view(ps.last(), target)
    }
}

pub open spec fn predicate_view(w: WherePredicate, target: Target) -> Seq<TokenView> {
    match w {
        WherePredicate::Type { bounded, bounds } => tokens_view(bounded@) + seq![sym(':')]
            + bounds_view(bounds@, target),
        WherePredicate::Verbatim(ts) => tokens_view(ts@),
    }
}

pub open spec fn predicates_view(ws: Seq<WherePredicate>, target: Target) -> Seq<TokenView>
    decreases ws.len(),
{
    if ws.len() == 0 {
        Seq::empty()
    } else if ws.len() == 1 {
        predicate_view(ws[0], target)
    } else {
        predicates_view(ws.drop_last(), target) + seq![sym(',')] + predicate_view(ws.last(), target)
    }
}

/// `<params>`, nothing when there are none.
pub open spec fn params_part(g: Generics, target: Target) -> Seq<TokenView> {
    if g.params@.len() == 0 {
        Seq::empty()
    } else {
        seq![sym('<')] + params_view(g.params@, target) + seq![sym('>')]
    }
}

/// `where predicates`, nothing when there is no where-clause.
pub open spec fn where_part(g: Generics, target: Target) -> Seq<TokenView> {
    match g.where_clause {
        None => Seq::empty(),
        Some(ws) => seq![word("where"@)] + predicates_view(ws@, target),
    }
}

/// The rewriting of generics: parameters, then where-clause; nothing at all
/// for empty generics.
pub open spec fn generics_view(g: Generics, target: Target) -> Seq<TokenView> {
    params_part(g, target) + where_part(g, target)
}

/// The rewriting of a signature: the where-clause after the return type.
pub open spec fn signature_view(s: Signature, target: Target) -> Seq<TokenView> {
    tokens_view(s.head@) + params_part(s.generics, target) + seq![
        TokenView::Group(Delimiter::Parenthesis, tokens_view(s.inputs@)),
    ] + tokens_view(s.output@) + where_part(s.generics, target)
}

// ---- executable rewriting ----

fn wrapped_path(b: &TraitBound) -> (r: Option<&Path>)
    ensures
        match r {
            Some(p) => wrapped(*b) == Some(*p),
            None => wrapped(*b) is None,
        },
{
    proof {
        reveal_strlit("c0nst");
    }
    assert("c0nst"@ =~= marker_word());
    if b.path.segments.len() != 1 || !str_eq(b.path.segments[0].ident.as_str(), "c0nst") {
        return None;
    }
    match &b.path.segments[0].arguments {
        PathArguments::AngleBracketed(a) => match &a.first_type {
            Some(p) => Some(p),
            None => None,
        },
        _ => None,
    }
}

fn path_is_destruct(p: &Path) -> (r: bool)
    ensures
        r == is_destruct(*p),
{
    proof {
        reveal_strlit("Destruct");
    }
    assert("Destruct"@ =~= destruct_word());
    p.is_ident("Destruct")
}

fn plain_bound(paren: bool, maybe: bool, lifetimes: &Vec<Token>, path: Vec<Token>) -> (r: Vec<Token>)
    ensures
        tokens_view(r@) == plain_bound_view(paren, maybe, tokens_view(lifetimes@), tokens_view(path@)),
{
    let mut inner = empty_tokens();
    if maybe {
        push_token(&mut inner, Token::Punct('?', Spacing::Alone));
    }
    assert(tokens_view(inner@) =~= if maybe {
        seq![sym('?')]
    } else {
        Seq::<TokenView>::empty()
    });
    append_tokens(&mut inner, copy_tokens(lifetimes));
    append_tokens(&mut inner, path);
    if paren {
        let mut out = empty_tokens();
        push_token(&mut out, group_token(Delimiter::Parenthesis, inner));
        assert(tokens_view(out@) =~= seq![
            TokenView::Group(Delimiter::Parenthesis, tokens_view(inner@)),
        ]);
        out
    } else {
        inner
    }
}

impl Transform for TraitBound {
    open spec fn transformed(&self, target: Target) -> Seq<TokenView> {
        trait_bound_view(*self, target)
    }

    /// The rewriting of this bound for `target`; no tokens where it vanishes.
    fn transform(&self, target: Target) -> (r: Vec<Token>) {
        match wrapped_path(self) {
            None => plain_bound(self.parenthesized, self.maybe, &self.lifetimes, self.path.to_tokens()),
            Some(inner) => {
                let destruct = path_is_destruct(inner);
                match target {
                    Target::Stable => {
                        if destruct {
                            empty_tokens()
                        } else {
                            plain_bound(self.parenthesized, false, &self.lifetimes, inner.to_tokens())
                        }
                    },
                    Target::Nightly => {
                        let mut out = empty_tokens();
                        if self.maybe {
                            push_token(&mut out, bracketed(keyword()));
                        } else {
                            push_token(&mut out, keyword());
                        }
                        assert(tokens_view(out@) =~= const_prefix(self.maybe));
                        if destruct {
                            push_qualified_destruct(&mut out);
                        } else {
                            append_tokens(&mut out, inner.to_tokens());
                        }
                        out
                    },
                }
            },
        }
    }
}

impl Transform for Bound {
    open spec fn transformed(&self, target: Target) -> Seq<TokenView> {
        bound_view(*self, target)
    }

    fn transform(&self, target: Target) -> (r: Vec<Token>) {
        match self {
            Bound::Trait(t) => t.transform(target),
            Bound::Verbatim(ts) => copy_tokens(ts),
        }
    }
}

/// The rewritten bounds of `bs`, joined by `+`.
pub fn transform_bounds(bs: &Vec<Bound>, target: Target) -> (r: Vec<Token>)
    ensures
        tokens_view(r@) == bounds_view(bs@, target),
{
    let mut out = empty_tokens();
    let mut i: usize = 0;
    while i < bs.len()
        invariant
            i <= bs@.len(),
            tokens_view(out@) == bounds_view(bs@.take(i as int), target),
        decreases bs@.len() - i,
    {
        let b = bs[i].transform(target);
        proof {
            let p = bs@.take(i + 1);
            assert(p.drop_last() =~= bs@.take(i as int));
            assert(p.last() == bs@[i as int]);
        }
        if b.len() > 0 {
            if out.len() > 0 {
                push_token(&mut out, Token::Punct('+', Spacing::Alone));
            }
            append_tokens(&mut out, b);
            assert(tokens_view(out@) =~= bounds_view(bs@.take(i + 1), target));
        }
        i = i + 1;
    }
    assert(bs@.take(bs@.len() as int) =~= bs@);
    out
}

impl Transform for TypeParam {
    open spec fn transformed(&self, target: Target) -> Seq<TokenView> {
        type_param_view(*self, target)
    }

    fn transform(&self, target: Target) -> (r: Vec<Token>) {
        let mut out = empty_tokens();
        push_token(&mut out, Token::Ident(self.ident.clone()));
        let b = transform_bounds(&self.bounds, target);
        if b.len() > 0 {
            push_token(&mut out, Token::Punct(':', Spacing::Alone));
            append_tokens(&mut out, b);
        }
        append_tokens(&mut out, copy_tokens(&self.default));
        assert(tokens_view(out@) =~= type_param_view(*self, target));
        out
    }
}

impl Transform for GenericParam {
    open spec fn transformed(&self, target: Target) -> Seq<TokenView> {
        generic_param_view(*self, target)
    }

    fn transform(&self, target: Target) -> (r: Vec<Token>) {
        match self {
            GenericParam::Type(p) => p.transform(target),
            GenericParam::Verbatim(ts) => copy_tokens(ts),
        }
    }
}

impl Transform for WherePredicate {
    open spec fn transformed(&self, target: Target) -> Seq<TokenView> {
        predicate_view(*self, target)
    }

    fn transform(&self, target: Target) -> (r: Vec<Token>) {
        match self {
            WherePredicate::Type { bounded, bounds } => {
                let mut out = copy_tokens(bounded);
                push_token(&mut out, Token::Punct(':', Spacing::Alone));
                append_tokens(&mut out, transform_bounds(bounds, target));
                out
            },
            WherePredicate::Verbatim(ts) => copy_tokens(ts),
        }
    }
}

/// The rewritten parameters of `ps`, joined by `,`.
pub fn transform_params(ps: &Vec<GenericParam>, target: Target) -> (r: Vec<Token>)
    ensures
        tokens_view(r@) == params_view(ps@, target),
{
    let mut out = empty_tokens();
    let mut i: usize = 0;
    while i < ps.len()
        invariant
            i <= ps@.len(),
            tokens_view(out@) == params_view(ps@.take(i as int), target),
        decreases ps@.len() - i,
    {
        if i > 0 {
            push_token(&mut out, Token::Punct(',', Spacing::Alone));
        }
        append_tokens(&mut out, ps[i].transform(target));
        proof {
            let p = ps@.take(i + 1);
            assert(p.drop_last() =~= ps@.take(i as int));
            assert(p.last() == ps@[i as int]);
            if i == 0 {
                assert(p.len() == 1);
            }
            assert(tokens_view(out@) =~= params_view(p, target));
        }
        i = i + 1;
    }
    assert(ps@.take(ps@.len() as int) =~= ps@);
    out
}

/// The rewritten predicates of `ws`, joined by `,`.
pub fn transform_predicates(ws: &Vec<WherePredicate>, target: Target) -> (r: Vec<Token>)
    ensures
        tokens_view(r@) == predicates_view(ws@, target),
{
    let mut out = empty_tokens();
    let mut i: usize = 0;
    while i < ws.len()
        invariant
            i <= ws@.len(),
            tokens_view(out@) == predicates_view(ws@.take(i as int), target),
        decreases ws@.len() - i,
    {
        if i > 0 {
            push_token(&mut out, Token::Punct(',', Spacing::Alone));
        }
        append_tokens(&mut out, ws[i].transform(target));
        proof {
            let p = ws@.take(i + 1);
            assert(p.drop_last() =~= ws@.take(i as int));
            assert(p.last() == ws@[i as int]);
            if i == 0 {
                assert(p.len() == 1);
            }
            assert(tokens_view(out@) =~= predicates_view(p, target));
        }
        i = i + 1;
    }
    assert(ws@.take(ws@.len() as int) =~= ws@);
    out
}

impl Generics {
    /// `<params>`, nothing when there are none.
    pub fn transform_params(&self, target: Target) -> (r: Vec<Token>)
        ensures
            tokens_view(r@) == params_part(*self, target),
    {
        if self.params.len() == 0 {
            return empty_tokens();
        }
        let mut out = empty_tokens();
        push_token(&mut out, Token::Punct('<', Spacing::Alone));
        append_tokens(&mut out, transform_params(&self.params, target));
        push_token(&mut out, Token::Punct('>', Spacing::Alone));
        assert(tokens_view(out@) =~= params_part(*self, target));
        out
    }

    /// `where predicates`, nothing when there is no where-clause.
    pub fn transform_where(&self, target: Target) -> (r: Vec<Token>)
        ensures
            tokens_view(r@) == where_part(*self, target),
    {
        match &self.where_clause {
            None => empty_tokens(),
            Some(ws) => {
                let mut out = empty_tokens();
                push_token(&mut out, word_token("where"));
                append_tokens(&mut out, transform_predicates(ws, target));
                assert(tokens_view(out@) =~= where_part(*self, target));
                out
            },
        }
    }

}

impl Transform for Generics {
    open spec fn transformed(&self, target: Target) -> Seq<TokenView> {
        generics_view(*self, target)
    }

    /// Parameters, then where-clause.
    fn transform(&self, target: Target) -> (r: Vec<Token>) {
        if self.params.len() == 0 && self.where_clause.is_none() {
            let r = empty_tokens();
            assert(tokens_view(r@) =~= generics_view(*self, target));
            return r;
        }
        let mut out = self.transform_params(target);
        append_tokens(&mut out, self.transform_where(target));
        out
    }
}

impl Transform for Signature {
    open spec fn transformed(&self, target: Target) -> Seq<TokenView> {
        signature_view(*self, target)
    }

    fn transform(&self, target: Target) -> (r: Vec<Token>) {
        let mut out = copy_tokens(&self.head);
        append_tokens(&mut out, self.generics.transform_params(target));
        push_token(&mut out, group_token(Delimiter::Parenthesis, copy_tokens(&self.inputs)));
        append_tokens(&mut out, copy_tokens(&self.output));
        append_tokens(&mut out, self.generics.transform_where(target));
        assert(tokens_view(out@) =~= signature_view(*self, target));
        out
    }
}

// ---- laws of the bound rewriter ----

/// Whether a bound is a wrapper bound (`c0nst<Trait>` or `?c0nst<Trait>`).
pub open spec fn is_wrapper(b: Bound) -> bool {
    match b {
        Bound::Trait(t) => wrapped(t) is Some,
        Bound::Verbatim(_) => false,
    }
}

/// A `for<...>` binder as it is written: empty, or starting with `for`.
pub open spec fn valid_binder(ts: Seq<TokenView>) -> bool {
    ts.len() == 0 || ts[0] == word(seq!['f', 'o', 'r'])
}

/// The bounds with one that renders as nothing taken out.
proof fn lemma_bounds_skip(bs: Seq<Bound>, j: int, target: Target)
    requires
        0 <= j < bs.len(),
        bound_view(bs[j], target).len() == 0,
    ensures
        bounds_view(bs, target) == bounds_view(bs.remove(j), target),
    decreases bs.len(),
{
    if j == bs.len() - 1 {
        assert(bs.remove(j) =~= bs.drop_last());
    } else {
        lemma_bounds_skip(bs.drop_last(), j, target);
        assert(bs.remove(j).drop_last() =~= bs.drop_last().remove(j));
        assert(bs.remove(j).last() == bs.last());
    }
}

/// A conditional `Destruct` wrapper (`?c0nst<Destruct>`) renders on nightly
/// as `[const] core::marker::Destruct`; on stable it vanishes and takes no
/// `+` with it: the bounds read as if it were not there.
pub proof fn conditional_destruct_law(bs: Seq<Bound>, j: int)
    requires
        0 <= j < bs.len(),
        match bs[j] {
            Bound::Trait(t) => t.maybe && match wrapped(t) {
                Some(p) => is_destruct(p),
                None => false,
            },
            Bound::Verbatim(_) => false,
        },
    ensures
        bound_view(bs[j], Target::Nightly) == seq![const_group()] + qualified_destruct(),
        bound_view(bs[j], Target::Stable).len() == 0,
        bounds_view(bs, Target::Stable) == bounds_view(bs.remove(j), Target::Stable),
{
    lemma_bounds_skip(bs, j, Target::Stable);
}

/// Only the first argument of a wrapper counts: `c0nst<Trait, Extra>`
/// rewrites as `c0nst<Trait>` does, on either target.
pub proof fn extra_arguments_law(a: TraitBound, b: TraitBound, target: Target)
    requires
        a.parenthesized == b.parenthesized,
        a.maybe == b.maybe,
        a.lifetimes@ == b.lifetimes@,
        a.path.segments@.len() == 1,
        b.path.segments@.len() == 1,
        a.path.segments@[0].ident@ == b.path.segments@[0].ident@,
        match (a.path.segments@[0].arguments, b.path.segments@[0].arguments) {
            (PathArguments::AngleBracketed(x), PathArguments::AngleBracketed(y)) => x.first_type
                == y.first_type,
            _ => false,
        },
        wrapped(a) is Some,
    ensures
        trait_bound_view(a, target) == trait_bound_view(b, target),
{
}

/// Stable and nightly outputs differ at a wrapper bound and nowhere else: a
/// bound rewrites the same for both targets exactly when it is not a wrapper.
pub proof fn targets_differ_at_wrappers_law(b: Bound)
    requires
        match b {
            Bound::Trait(t) => valid_binder(tokens_view(t.lifetimes@)),
            Bound::Verbatim(_) => true,
        },
    ensures
        (bound_view(b, Target::Stable) == bound_view(b, Target::Nightly)) == !is_wrapper(b),
{
    if let Bound::Trait(t) = b {
        if let Some(inner) = wrapped(t) {
            let n = bound_view(b, Target::Nightly);
            let st = bound_view(b, Target::Stable);
            assert(n[0] == const_prefix(t.maybe)[0]);
            if !is_destruct(inner) {
                let l = tokens_view(t.lifetimes@);
                let pv = path_view(inner);
                if !t.parenthesized {
                    if l.len() == 0 {
                        assert(st =~= pv);
                        assert(st.len() != n.len());
                    } else {
                        assert(st[0] == l[0]);
                        assert(seq!['f', 'o', 'r'].len() != const_word().len());
                        assert(st[0] != n[0]);
                    }
                } else {
                    assert(st[0] != n[0]);
                }
            }
        }
    }
}

/// Bounds without a wrapper rewrite the same for both targets.
pub proof fn bounds_without_wrappers_law(bs: Seq<Bound>)
    requires
        forall|i: int| 0 <= i < bs.len() ==> !is_wrapper(#[trigger] bs[i]),
    ensures
        bounds_view(bs, Target::Stable) == bounds_view(bs, Target::Nightly),
    decreases bs.len(),
{
    if bs.len() > 0 {
        bounds_without_wrappers_law(bs.drop_last());
        assert(!is_wrapper(bs[bs.len() - 1]));
    }
}

} // verus!
