//! The token engine: rewrites a token sequence for a target by applying the
//! rule table at each level of nesting.
use vstd::prelude::*;

use crate::rule::{
    bracketed, keyword, colon, const_group, const_ident, const_word, core_word, destruct_ident, joint_colon,
    marker_group, marker_ident, marker_word, module_word, nightly_view, pattern_view, plus,
    qualified_destruct, table_view, Rule,
};
use crate::subslice::{leftmost, lemma_leftmost, matches_at, Subslice};
use crate::token::{
    lemma_tokens_view, lemma_valid_tokens, punct_char, separator, stream_text, text, tokens_view,
    valid_token, valid_tokens, Delimiter, Spacing, Token, TokenView,
};

verus! {

/// The dialect to produce.
#[derive(Clone, Copy, Debug, PartialEq, Eq, Structural)]
pub enum Target {
    /// Stable Rust: the const marks are removed.
    Stable,
    /// Nightly Rust: the const marks become native `const` syntax.
    Nightly,
}

/// A token whose text is `c0nst` or `[c0nst]`: every rule pattern holds
/// exactly one.
pub open spec fn is_marked(t: TokenView) -> bool {
    text(t) == marker_word() || text(t) == text(marker_group())
}

/// The number of marked tokens in a sequence (not counting nested ones).
pub open spec fn marks(s: Seq<TokenView>) -> nat
    decreases s.len(),
{
    if s.len() == 0 {
        0
    } else {
        marks(s.drop_last()) + if is_marked(s.last()) {
            1nat
        } else {
            0nat
        }
    }
}

/// `s` with the `n` tokens at `i` replaced by `r`.
pub open spec fn splice(s: Seq<TokenView>, i: int, n: int, r: Seq<TokenView>) -> Seq<TokenView> {
    s.take(i) + r + s.skip(i + n)
}

/// What a match of `rule` is replaced with.
pub open spec fn replacement(rule: Rule, target: Target) -> Seq<TokenView> {
    match target {
        Target::Stable => Seq::empty(),
        Target::Nightly => nightly_view(rule),
    }
}

/// `s` after the leftmost match of `rule` has been replaced until none is
/// left.
pub open spec fn apply_rule(s: Seq<TokenView>, rule: Rule, target: Target) -> Seq<TokenView>
    decreases marks(s),
    via apply_rule_decreases
{
    match leftmost(s, pattern_view(rule)) {
        Some(i) => apply_rule(
            splice(s, i, pattern_view(rule).len() as int, replacement(rule, target)),
            rule,
            target,
        ),
        None => s,
    }
}

#[via_fn]
proof fn apply_rule_decreases(s: Seq<TokenView>, rule: Rule, target: Target) {
    lemma_leftmost(s, pattern_view(rule));
    if let Some(i) = leftmost(s, pattern_view(rule)) {
        lemma_splice_marks(s, i, rule, target);
    }
}

/// `s` after the first `k` rules of the table, in order.
pub open spec fn apply_rules(s: Seq<TokenView>, target: Target, k: nat) -> Seq<TokenView>
    decreases k,
{
    if k == 0 {
        s
    } else {
        apply_rule(apply_rules(s, target, (k - 1) as nat), table_view()[k - 1], target)
    }
}

/// One level of rewriting: the whole rule table applied to `s`.
pub open spec fn rewrite(s: Seq<TokenView>, target: Target) -> Seq<TokenView> {
    apply_rules(s, target, table_view().len())
}

pub open spec fn height(t: TokenView) -> nat
    decreases t, 0nat,
{
    match t {
        TokenView::Group(_, ts) => 1 + seq_height(ts),
        _ => 0,
    }
}

pub open spec fn seq_height(ts: Seq<TokenView>) -> nat
    decreases ts, ts.len(),
{
    if ts.len() == 0 {
        0
    } else {
        let a = seq_height(ts.drop_last());
        let b = height(ts.last());
        if a < b {
            b
        } else {
            a
        }
    }
}

/// The conversion of a token sequence: one level of rewriting, then every
/// group that results converted in turn, delimiter kept.
pub open spec fn convert_tokens(s: Seq<TokenView>, target: Target) -> Seq<TokenView>
    decreases seq_height(s), marks(s), 1nat, 0nat,
{
    descend(s, target, rewrite(s, target).len())
}

/// The first `i` tokens of `rewrite(s, target)`, groups converted.
pub open spec fn descend(s: Seq<TokenView>, target: Target, i: nat) -> Seq<TokenView>
    decreases seq_height(s), marks(s), 0nat, i,
    via descend_decreases
{
    let out = rewrite(s, target);
    if i == 0 || i > out.len() {
        Seq::empty()
    } else {
        descend(s, target, (i - 1) as nat).push(
            match out[i - 1] {
                TokenView::Group(d, inner) => TokenView::Group(d, convert_tokens(inner, target)),
                t => t,
            },
        )
    }
}

#[via_fn]
proof fn descend_decreases(s: Seq<TokenView>, target: Target, i: nat) {
    let out = rewrite(s, target);
    if 0 < i <= out.len() {
        lemma_rewrite_smaller(s, target, i - 1);
    }
}

// ---- lemmas on marks ----

proof fn lemma_marks_concat(a: Seq<TokenView>, b: Seq<TokenView>)
    ensures
        marks(a + b) == marks(a) + marks(b),
    decreases b.len(),
{
    if b.len() > 0 {
        lemma_marks_concat(a, b.drop_last());
        assert((a + b).drop_last() =~= a + b.drop_last());
    } else {
        assert(a + b =~= a);
    }
}

proof fn lemma_marks_same_text(a: Seq<TokenView>, b: Seq<TokenView>)
    requires
        a.len() == b.len(),
        forall|i: int| 0 <= i < a.len() ==> text(#[trigger] a[i]) == text(b[i]),
    ensures
        marks(a) == marks(b),
    decreases a.len(),
{
    if a.len() > 0 {
        lemma_marks_same_text(a.drop_last(), b.drop_last());
        assert(text(a.last()) == text(b.last()));
    }
}

proof fn lemma_marks_none(s: Seq<TokenView>)
    requires
        forall|i: int| 0 <= i < s.len() ==> !is_marked(#[trigger] s[i]),
    ensures
        marks(s) == 0,
    decreases s.len(),
{
    if s.len() > 0 {
        lemma_marks_none(s.drop_last());
    }
}

proof fn lemma_marker_texts()
    ensures
        text(marker_group()) =~= seq!['[', 'c', '0', 'n', 's', 't', ']'],
        text(const_group()) =~= seq!['[', 'c', 'o', 'n', 's', 't', ']'],
{
    let m = seq![marker_ident()];
    let c = seq![const_ident()];
    assert(stream_text(m) == text(marker_ident()));
    assert(stream_text(c) == text(const_ident()));
}

/// The tokens that the rules insert.
pub open spec fn inserted(x: TokenView) -> bool {
    ||| x == const_ident()
    ||| x == const_group()
    ||| x == plus()
    ||| x == colon()
    ||| x == joint_colon()
    ||| x == TokenView::Ident(core_word())
    ||| x == TokenView::Ident(module_word())
    ||| x == destruct_ident()
}

proof fn lemma_inserted_unmarked(x: TokenView)
    requires
        inserted(x),
    ensures
        !is_marked(x),
{
    lemma_marker_texts();
    assert(const_word()[1] != marker_word()[1]);
    let t = text(x);
    if x == const_group() {
        assert(t[2] != text(marker_group())[2]);
    }
}

proof fn lemma_rule_marks(rule: Rule)
    ensures
        marks(pattern_view(rule)) == 1,
        marks(nightly_view(rule)) == 0,
        forall|j: int| 0 <= j < nightly_view(rule).len() ==> inserted(#[trigger] nightly_view(rule)[j]),
{
    lemma_marker_texts();
    let p = pattern_view(rule);
    let r = nightly_view(rule);
    let q = qualified_destruct();
    assert forall|j: int| 0 <= j < q.len() implies inserted(#[trigger] q[j]) by {}
    assert forall|j: int| 0 <= j < r.len() implies inserted(#[trigger] r[j]) by {}
    assert forall|j: int| 0 <= j < r.len() implies !is_marked(#[trigger] r[j]) by {
        lemma_inserted_unmarked(r[j]);
    }
    lemma_marks_none(r);
    assert(is_marked(marker_ident()));
    assert(is_marked(marker_group()));
    assert(!is_marked(destruct_ident()));
    assert(!is_marked(plus()));
    assert(!is_marked(colon()));
    let j: int = match rule {
        Rule::ConditionalDestructFirst | Rule::DestructFirst | Rule::ConditionalMarker
        | Rule::Marker => 0,
        _ => 1,
    };
    assert(is_marked(p[j]));
    assert forall|k: int| 0 <= k < p.len() && k != j implies !is_marked(#[trigger] p[k]) by {}
    assert(p =~= p.take(j) + seq![p[j]] + p.skip(j + 1));
    let one = seq![p[j]];
    assert(one.drop_last() =~= Seq::<TokenView>::empty());
    assert(one.last() == p[j]);
    assert(marks(one.drop_last()) == 0);
    assert(marks(one) == 1);
    lemma_marks_none(p.take(j));
    lemma_marks_none(p.skip(j + 1));
    lemma_marks_concat(p.take(j), one);
    lemma_marks_concat(p.take(j) + one, p.skip(j + 1));
}

/// Replacing a match removes exactly one marked token.
proof fn lemma_splice_marks(s: Seq<TokenView>, i: int, rule: Rule, target: Target)
    requires
        matches_at(s, pattern_view(rule), i),
    ensures
        marks(splice(s, i, pattern_view(rule).len() as int, replacement(rule, target))) + 1
            == marks(s),
{
    let p = pattern_view(rule);
    let n = p.len() as int;
    let r = replacement(rule, target);
    lemma_rule_marks(rule);
    let w = s.subrange(i, i + n);
    assert(s =~= s.take(i) + w + s.skip(i + n));
    assert forall|k: int| 0 <= k < n implies text(#[trigger] w[k]) == text(p[k]) by {
        assert(w[k] == s[i + k]);
    }
    lemma_marks_same_text(w, p);
    lemma_marks_concat(s.take(i), w);
    lemma_marks_concat(s.take(i) + w, s.skip(i + n));
    lemma_marks_concat(s.take(i), r);
    lemma_marks_concat(s.take(i) + r, s.skip(i + n));
    if target == Target::Stable {
        assert(marks(r) == 0);
    }
}

/// A token of a rewritten sequence: one of the original, or one that a rule
/// inserted, which only happens where the original was marked.
pub open spec fn kept(x: TokenView, s: Seq<TokenView>) -> bool {
    s.contains(x) || (inserted(x) && marks(s) > 0)
}

proof fn lemma_apply_rule_kept(s: Seq<TokenView>, rule: Rule, target: Target)
    ensures
        marks(apply_rule(s, rule, target)) <= marks(s),
        forall|j: int|
            0 <= j < apply_rule(s, rule, target).len() ==> kept(
                #[trigger] apply_rule(s, rule, target)[j],
                s,
            ),
    decreases marks(s),
{
    let res = apply_rule(s, rule, target);
    lemma_leftmost(s, pattern_view(rule));
    match leftmost(s, pattern_view(rule)) {
        Some(i) => {
            let p = pattern_view(rule);
            let n = p.len() as int;
            let r = replacement(rule, target);
            let s2 = splice(s, i, n, r);
            lemma_splice_marks(s, i, rule, target);
            lemma_rule_marks(rule);
            lemma_apply_rule_kept(s2, rule, target);
            assert(marks(s) > 0);
            assert forall|j: int| 0 <= j < s2.len() implies kept(#[trigger] s2[j], s) by {
                if j < i {
                    assert(s[j] == s2[j]);
                } else if j < i + r.len() {
                    assert(s2[j] == r[j - i]);
                } else {
                    assert(s[j - r.len() + n] == s2[j]);
                }
            }
            assert forall|j: int| 0 <= j < res.len() implies kept(#[trigger] res[j], s) by {
                let x = res[j];
                assert(kept(x, s2));
                if s2.contains(x) {
                    let k = choose|k: int| 0 <= k < s2.len() && s2[k] == x;
                    assert(kept(s2[k], s));
                }
            }
        },
        None => {
            assert forall|j: int| 0 <= j < res.len() implies kept(#[trigger] res[j], s) by {
                assert(s[j] == res[j]);
            }
        },
    }
}

proof fn lemma_apply_rules_kept(s: Seq<TokenView>, target: Target, k: nat)
    ensures
        marks(apply_rules(s, target, k)) <= marks(s),
        forall|j: int|
            0 <= j < apply_rules(s, target, k).len() ==> kept(
                #[trigger] apply_rules(s, target, k)[j],
                s,
            ),
    decreases k,
{
    let res = apply_rules(s, target, k);
    if k == 0 {
        assert forall|j: int| 0 <= j < res.len() implies kept(#[trigger] res[j], s) by {
            assert(s[j] == res[j]);
        }
    } else {
        let prev = apply_rules(s, target, (k - 1) as nat);
        lemma_apply_rules_kept(s, target, (k - 1) as nat);
        lemma_apply_rule_kept(prev, table_view()[k - 1], target);
        assert forall|j: int| 0 <= j < res.len() implies kept(#[trigger] res[j], s) by {
            let x = res[j];
            assert(kept(x, prev));
            if prev.contains(x) {
                let m = choose|m: int| 0 <= m < prev.len() && prev[m] == x;
                assert(kept(prev[m], s));
            }
        }
    }
}

proof fn lemma_seq_height(ts: Seq<TokenView>)
    ensures
        forall|j: int| 0 <= j < ts.len() ==> height(#[trigger] ts[j]) <= seq_height(ts),
    decreases ts.len(),
{
    if ts.len() > 0 {
        lemma_seq_height(ts.drop_last());
        assert forall|j: int| 0 <= j < ts.len() implies height(#[trigger] ts[j]) <= seq_height(
            ts,
        ) by {
            if j < ts.len() - 1 {
                assert(ts[j] == ts.drop_last()[j]);
            }
        }
    }
}

/// A group of `rewrite(s, target)` holds less than `s`: its nesting is
/// lower, or it is `[const]` and `s` held a mark.
proof fn lemma_rewrite_smaller(s: Seq<TokenView>, target: Target, j: int)
    requires
        0 <= j < rewrite(s, target).len(),
    ensures
        match rewrite(s, target)[j] {
            TokenView::Group(_, inner) => seq_height(inner) < seq_height(s) || (seq_height(inner)
                == seq_height(s) && marks(inner) < marks(s)),
            _ => true,
        },
{
    let out = rewrite(s, target);
    lemma_apply_rules_kept(s, target, table_view().len());
    lemma_seq_height(s);
    let x = out[j];
    assert(kept(x, s));
    if let TokenView::Group(d, inner) = x {
        if s.contains(x) {
            let m = choose|m: int| 0 <= m < s.len() && s[m] == x;
            assert(height(s[m]) <= seq_height(s));
        } else {
            assert(x == const_group());
            let c = seq![const_ident()];
            assert(inner == c);
            assert(c.drop_last() =~= Seq::<TokenView>::empty());
            assert(c.last() == const_ident());
            assert(seq_height(c.drop_last()) == 0);
            assert(height(const_ident()) == 0);
            assert(seq_height(c) == 0);
            lemma_inserted_unmarked(const_ident());
            assert(marks(c.drop_last()) == 0);
            assert(marks(c) == 0);
        }
    }
}

// ---- executable engine ----

/// Replaces, in `tokens`, the leftmost match of `rule` until none is left:
/// on nightly with the rule's replacement, on stable with nothing.
#[verifier::rlimit(40)]
pub fn apply_rule_in(tokens: &mut Vec<Token>, rule: Rule, target: Target)
    ensures
        tokens_view(final(tokens)@) == apply_rule(tokens_view(old(tokens)@), rule, target),
{
    let ghost goal = apply_rule(tokens_view(tokens@), rule, target);
    let pattern = rule.pattern();
    loop
        invariant
            apply_rule(tokens_view(tokens@), rule, target) == goal,
            tokens_view(pattern@) == pattern_view(rule),
        ensures
            tokens_view(tokens@) == goal,
        decreases marks(tokens_view(tokens@)),
    {
        let ghost cur = tokens@;
        let ghost cv = tokens_view(cur);
        proof {
            lemma_leftmost(cv, pattern_view(rule));
            lemma_tokens_view(cur);
            lemma_tokens_view(pattern@);
        }
        let hay = tokens.as_slice();
        let needle = pattern.as_slice();
        assert(hay@ == cur);
        assert(needle@ == pattern@);
        let found = hay.find_subslice(needle);
        assert(forall|k: int| hay.occurs_at(needle, k) == matches_at(cv, pattern_view(rule), k));
        match found {
            None => {
                proof {
                    assert forall|k: int| !matches_at(cv, pattern_view(rule), k) by {
                        assert(!hay.occurs_at(needle, k));
                    }
                    if let Some(i) = leftmost(cv, pattern_view(rule)) {
                        assert(matches_at(cv, pattern_view(rule), i));
                    }
                    assert(leftmost(cv, pattern_view(rule)) is None);
                }
                break;
            },
            Some(index) => {
                let n = pattern.len();
                let ghost np = pattern_view(rule).len() as int;
                proof {
                    assert(matches_at(cv, pattern_view(rule), index as int));
                    assert(hay.occurs_at(needle, index as int));
                    assert forall|k: int|
                        0 <= k < index implies !matches_at(cv, pattern_view(rule), k) by {
                        assert(!hay.occurs_at(needle, k));
                    }
                    if let Some(i) = leftmost(cv, pattern_view(rule)) {
                        assert(!(i < index));
                        assert(!(index < i));
                    } else {
                        assert(!matches_at(cv, pattern_view(rule), index as int));
                    }
                    assert(leftmost(cv, pattern_view(rule)) == Some(index as int));
                }
                let ghost r = replacement(rule, target);
                let mut removed: usize = 0;
                while removed < n
                    invariant
                        n == np,
                        index + n <= cur.len(),
                        removed <= n,
                        tokens@ == cur.take(index as int) + cur.skip(index + removed),
                    decreases n - removed,
                {
                    tokens.remove(index);
                    assert(cur.skip(index + removed).drop_first() =~= cur.skip(index + removed + 1));
                    removed = removed + 1;
                }
                let ghost base = tokens@;
                let ghost mut inserted_tokens: Seq<Token> = Seq::empty();
                if target == Target::Nightly {
                    let mut repl = rule.nightly();
                    let ghost full = repl@;
                    proof {
                        lemma_tokens_view(full);
                    }
                    while repl.len() > 0
                        invariant
                            index <= base.len(),
                            base == cur.take(index as int) + cur.skip(index + n),
                            repl@ == full.take(repl@.len() as int),
                            repl@.len() <= full.len(),
                            tokens@ == base.take(index as int) + full.skip(repl@.len() as int)
                                + base.skip(index as int),
                        decreases repl@.len(),
                    {
                        let ghost before = tokens@;
                        let ghost len = repl@.len();
                        let t = repl.pop().unwrap();
                        assert(t == full[len - 1]);
                        tokens.insert(index, t);
                        assert(full.skip(len - 1) =~= seq![t] + full.skip(len as int));
                        assert(tokens@ =~= base.take(index as int) + full.skip(repl@.len() as int)
                            + base.skip(index as int));
                    }
                    assert(full.skip(0) =~= full);
                    proof {
                        inserted_tokens = full;
                    }
                }
                assert(base.take(index as int) =~= cur.take(index as int));
                assert(base.skip(index as int) =~= cur.skip(index + n));
                assert(tokens@ =~= cur.take(index as int) + inserted_tokens + cur.skip(index + n));
                proof {
                    lemma_tokens_view(inserted_tokens);
                    lemma_tokens_view(tokens@);
                    assert(tokens_view(inserted_tokens) =~= r);
                    assert(tokens_view(tokens@) =~= splice(cv, index as int, np, r));
                    lemma_splice_marks(cv, index as int, rule, target);
                }
            },
        }
    }
}

/// Converts a token sequence: the rule table applied in order at this level,
/// then every group that results converted in turn.
pub fn convert_stream(input: Vec<Token>, target: Target) -> (r: Vec<Token>)
    ensures
        tokens_view(r@) == convert_tokens(tokens_view(input@), target),
    decreases seq_height(tokens_view(input@)), marks(tokens_view(input@)),
{
    let ghost s = tokens_view(input@);
    let mut tokens = input;
    let table = Rule::table();
    let mut k: usize = 0;
    while k < table.len()
        invariant
            table@ == table_view(),
            k <= table@.len(),
            tokens_view(tokens@) == apply_rules(s, target, k as nat),
        decreases table@.len() - k,
    {
        let rule = table[k];
        apply_rule_in(&mut tokens, rule, target);
        k = k + 1;
    }
    let ghost out = rewrite(s, target);
    assert(tokens_view(tokens@) == out);
    proof {
        lemma_tokens_view(tokens@);
    }
    let n = tokens.len();
    let mut rest = tokens;
    let mut result: Vec<Token> = Vec::new();
    let mut i: usize = 0;
    while i < n
        invariant
            s == tokens_view(input@),
            out == rewrite(s, target),
            n == out.len(),
            i <= n,
            rest@.len() == n - i,
            forall|j: int| 0 <= j < rest@.len() ==> #[trigger] rest@[j]@ == out[i + j],
            tokens_view(result@) == descend(s, target, i as nat),
        decreases n - i,
    {
        let ghost rest_before = rest@;
        let t = rest.remove(0);
        assert(t == rest_before[0]);
        assert(t@ == out[i as int]);
        let converted = match t {
            Token::Group(d, inner) => {
                proof {
                    lemma_rewrite_smaller(s, target, i as int);
                }
                let inner = convert_stream(inner, target);
                Token::Group(d, inner)
            },
            other => other,
        };
        let ghost before = result@;
        proof {
            let expected = match out[i as int] {
                TokenView::Group(d, inner) => TokenView::Group(d, convert_tokens(inner, target)),
                t => t,
            };
            assert(converted@ == expected);
            assert(descend(s, target, (i + 1) as nat) == descend(s, target, i as nat).push(
                expected,
            ));
        }
        result.push(converted);
        assert(result@.drop_last() == before);
        i = i + 1;
        assert forall|j: int| 0 <= j < rest@.len() implies #[trigger] rest@[j]@ == out[i + j] by {
            assert(rest@[j] == rest_before[j + 1]);
        }
    }
    result
}

// ---- the per-token engine ----

pub open spec fn opt_view(o: Option<Token>) -> Option<TokenView> {
    match o {
        Some(t) => Some(t@),
        None => None,
    }
}

/// The conversion of one token tree: a `c0nst` identifier, or a bracket group
/// holding only one, is dropped on stable and becomes `const` (`[const]`) on
/// nightly; any other group keeps its delimiter and has its trees converted;
/// any other token is kept.
pub open spec fn convert_tree(t: TokenView, target: Target) -> Option<TokenView>
    decreases t, 0nat,
{
    match t {
        TokenView::Ident(s) => if s == marker_word() {
            match target {
                Target::Stable => None,
                Target::Nightly => Some(const_ident()),
            }
        } else {
            Some(t)
        },
        TokenView::Group(d, ts) => if d == Delimiter::Bracket && ts.len() == 1 && ts[0]
            == marker_ident() {
            match target {
                Target::Stable => None,
                Target::Nightly => Some(const_group()),
            }
        } else {
            Some(TokenView::Group(d, convert_trees(ts, target)))
        },
        _ => Some(t),
    }
}

/// The conversions of the trees of `ts`, in order, those dropped left out.
pub open spec fn convert_trees(ts: Seq<TokenView>, target: Target) -> Seq<TokenView>
    decreases ts, ts.len(),
{
    if ts.len() == 0 {
        Seq::empty()
    } else {
        let rest = convert_trees(ts.drop_last(), target);
        match convert_tree(ts.last(), target) {
            Some(u) => rest.push(u),
            None => rest,
        }
    }
}

fn is_marker_name(name: &String) -> (r: bool)
    ensures
        r == (name@ == marker_word()),
{
    proof {
        reveal_strlit("c0nst");
    }
    assert("c0nst"@ =~= marker_word());
    let marker = "c0nst".to_owned();
    *name == marker
}

/// Converts an identifier: `c0nst` is dropped on stable and becomes `const`
/// on nightly; any other identifier is kept.
pub fn convert_ident(name: String, target: Target) -> (r: Option<Token>)
    ensures
        opt_view(r) == convert_tree(TokenView::Ident(name@), target),
{
    if !is_marker_name(&name) {
        return Some(Token::Ident(name));
    }
    match target {
        Target::Stable => None,
        Target::Nightly => Some(keyword()),
    }
}

/// Converts a group: `[c0nst]` is dropped on stable and becomes `[const]` on
/// nightly; any other group keeps its delimiter and has its trees converted.
pub fn convert_group(delimiter: Delimiter, stream: Vec<Token>, target: Target) -> (r: Option<Token>)
    ensures
        opt_view(r) == convert_tree(TokenView::Group(delimiter, tokens_view(stream@)), target),
    decreases stream,
{
    let ghost sv = tokens_view(stream@);
    proof {
        lemma_tokens_view(stream@);
    }
    let lone_marker = delimiter == Delimiter::Bracket && stream.len() == 1 && match &stream[0] {
        Token::Ident(name) => is_marker_name(name),
        _ => false,
    };
    if lone_marker {
        assert(sv[0] == marker_ident());
        return match target {
            Target::Stable => None,
            Target::Nightly => Some(bracketed(keyword())),
        };
    }
    assert(!(delimiter == Delimiter::Bracket && sv.len() == 1 && sv[0] == marker_ident()));
    let ghost original = stream@;
    let n = stream.len();
    let mut rest = stream;
    let mut out: Vec<Token> = Vec::new();
    let mut i: usize = 0;
    while i < n
        invariant
            n == original.len(),
            sv == tokens_view(original),
            forall|k: int| 0 <= k < n ==> #[trigger] sv[k] == original[k]@,
            original == stream@,
            sv.len() == n,
            forall|k: int| 0 <= k < n ==> decreases_to!(stream => #[trigger] original[k]),
            i <= n,
            rest@ == original.skip(i as int),
            tokens_view(out@) == convert_trees(sv.take(i as int), target),
        decreases n - i,
    {
        let t = rest.remove(0);
        assert(t == original[i as int]);
        let ghost before = out@;
        let c = convert_token(t, target);
        proof {
            let p = sv.take(i + 1);
            assert(p.drop_last() =~= sv.take(i as int));
            assert(p.last() == sv[i as int]);
        }
        match c {
            Some(u) => {
                out.push(u);
                assert(out@.drop_last() == before);
            },
            None => {},
        }
        assert(rest@ =~= original.skip(i + 1));
        i = i + 1;
    }
    assert(sv.take(n as int) =~= sv);
    Some(Token::Group(delimiter, out))
}

/// Converts one token tree.
pub fn convert_token(t: Token, target: Target) -> (r: Option<Token>)
    ensures
        opt_view(r) == convert_tree(t@, target),
    decreases t,
{
    match t {
        Token::Ident(name) => convert_ident(name, target),
        Token::Group(d, stream) => convert_group(d, stream, target),
        other => Some(other),
    }
}

proof fn lemma_trees_no_marker(ts: Seq<TokenView>)
    ensures
        forall|i: int|
            0 <= i < convert_trees(ts, Target::Stable).len() ==> #[trigger] convert_trees(
                ts,
                Target::Stable,
            )[i] != marker_ident(),
    decreases ts.len(),
{
    if ts.len() > 0 {
        lemma_trees_no_marker(ts.drop_last());
        let rest = convert_trees(ts.drop_last(), Target::Stable);
        let all = convert_trees(ts, Target::Stable);
        if let Some(u) = convert_tree(ts.last(), Target::Stable) {
            assert(u != marker_ident());
            assert forall|i: int| 0 <= i < all.len() implies #[trigger] all[i] != marker_ident() by {
                if i < rest.len() {
                    assert(all[i] == rest[i]);
                }
            }
        }
    }
}

proof fn lemma_tree_stable_idempotent(t: TokenView)
    ensures
        match convert_tree(t, Target::Stable) {
            Some(u) => convert_tree(u, Target::Stable) == Some(u),
            None => true,
        },
    decreases t, 0nat,
{
    if let TokenView::Group(d, ts) = t {
        lemma_trees_stable_idempotent(ts);
        lemma_trees_no_marker(ts);
        let once = convert_trees(ts, Target::Stable);
        if once.len() == 1 {
            assert(once[0] != marker_ident());
        }
    }
}

proof fn lemma_trees_stable_idempotent(ts: Seq<TokenView>)
    ensures
        convert_trees(convert_trees(ts, Target::Stable), Target::Stable) == convert_trees(
            ts,
            Target::Stable,
        ),
    decreases ts, ts.len(),
{
    if ts.len() > 0 {
        let rest = convert_trees(ts.drop_last(), Target::Stable);
        lemma_trees_stable_idempotent(ts.drop_last());
        lemma_tree_stable_idempotent(ts.last());
        if let Some(u) = convert_tree(ts.last(), Target::Stable) {
            assert(rest.push(u).drop_last() =~= rest);
        }
    }
}

/// Converting token trees for stable a second time changes nothing: no
/// mark is left to remove.
pub proof fn stable_trees_idempotent_law(ts: Seq<TokenView>)
    ensures
        convert_trees(convert_trees(ts, Target::Stable), Target::Stable) == convert_trees(
            ts,
            Target::Stable,
        ),
{
    lemma_trees_stable_idempotent(ts);
}

// ---- converting for stable twice ----

/// The tokens of `convert_tokens(s, target)`, one for each token of
/// `rewrite(s, target)`.
pub open spec fn descend_one(t: TokenView, target: Target) -> TokenView {
    match t {
        TokenView::Group(d, inner) => TokenView::Group(d, convert_tokens(inner, target)),
        _ => t,
    }
}

proof fn lemma_descend(s: Seq<TokenView>, target: Target, i: nat)
    requires
        i <= rewrite(s, target).len(),
    ensures
        descend(s, target, i).len() == i,
        forall|k: int|
            0 <= k < i ==> #[trigger] descend(s, target, i)[k] == descend_one(
                rewrite(s, target)[k],
                target,
            ),
    decreases i,
{
    if i > 0 {
        lemma_descend(s, target, (i - 1) as nat);
        let d = descend(s, target, i);
        assert forall|k: int| 0 <= k < i implies #[trigger] d[k] == descend_one(
            rewrite(s, target)[k],
            target,
        ) by {
            if k < i - 1 {
                assert(d[k] == descend(s, target, (i - 1) as nat)[k]);
            }
        }
    }
}

proof fn lemma_convert_tokens(s: Seq<TokenView>, target: Target)
    ensures
        convert_tokens(s, target).len() == rewrite(s, target).len(),
        forall|k: int|
            0 <= k < rewrite(s, target).len() ==> #[trigger] convert_tokens(s, target)[k]
                == descend_one(rewrite(s, target)[k], target),
{
    lemma_descend(s, target, rewrite(s, target).len());
}

proof fn lemma_apply_rule_no_match(s: Seq<TokenView>, rule: Rule, target: Target)
    ensures
        forall|k: int| !matches_at(apply_rule(s, rule, target), pattern_view(rule), k),
    decreases marks(s),
{
    lemma_leftmost(s, pattern_view(rule));
    if let Some(i) = leftmost(s, pattern_view(rule)) {
        let s2 = splice(s, i, pattern_view(rule).len() as int, replacement(rule, target));
        lemma_splice_marks(s, i, rule, target);
        lemma_apply_rule_no_match(s2, rule, target);
        assert(apply_rule(s, rule, target) == apply_rule(s2, rule, target));
    } else {
        assert(apply_rule(s, rule, target) == s);
    }
}

/// On stable every token of the result of a rule is a token of its input.
proof fn lemma_apply_rule_stable_subset(s: Seq<TokenView>, rule: Rule)
    ensures
        forall|j: int|
            0 <= j < apply_rule(s, rule, Target::Stable).len() ==> s.contains(
                #[trigger] apply_rule(s, rule, Target::Stable)[j],
            ),
    decreases marks(s),
{
    let res = apply_rule(s, rule, Target::Stable);
    lemma_leftmost(s, pattern_view(rule));
    if let Some(i) = leftmost(s, pattern_view(rule)) {
        let n = pattern_view(rule).len() as int;
        let s2 = splice(s, i, n, Seq::empty());
        lemma_splice_marks(s, i, rule, Target::Stable);
        lemma_apply_rule_stable_subset(s2, rule);
        assert(res == apply_rule(s2, rule, Target::Stable));
        assert forall|j: int| 0 <= j < res.len() implies s.contains(#[trigger] res[j]) by {
            assert(s2.contains(res[j]));
            let k = choose|k: int| 0 <= k < s2.len() && s2[k] == res[j];
            if k < i {
                assert(s[k] == s2[k]);
            } else {
                assert(s[k + n] == s2[k]);
            }
        }
    } else {
        assert forall|j: int| 0 <= j < res.len() implies s.contains(#[trigger] res[j]) by {
            assert(s[j] == res[j]);
        }
    }
}

proof fn lemma_apply_rules_stable_subset(s: Seq<TokenView>, k: nat)
    ensures
        forall|j: int|
            0 <= j < apply_rules(s, Target::Stable, k).len() ==> s.contains(
                #[trigger] apply_rules(s, Target::Stable, k)[j],
            ),
    decreases k,
{
    let res = apply_rules(s, Target::Stable, k);
    if k == 0 {
        assert forall|j: int| 0 <= j < res.len() implies s.contains(#[trigger] res[j]) by {
            assert(s[j] == res[j]);
        }
    } else {
        let prev = apply_rules(s, Target::Stable, (k - 1) as nat);
        lemma_apply_rules_stable_subset(s, (k - 1) as nat);
        lemma_apply_rule_stable_subset(prev, table_view()[k - 1]);
        assert forall|j: int| 0 <= j < res.len() implies s.contains(#[trigger] res[j]) by {
            assert(prev.contains(res[j]));
            let m = choose|m: int| 0 <= m < prev.len() && prev[m] == res[j];
            assert(s.contains(prev[m]));
        }
    }
}

/// After a stable rewrite no token is marked, and each is one of the input.
proof fn lemma_rewrite_stable(s: Seq<TokenView>)
    ensures
        forall|j: int|
            0 <= j < rewrite(s, Target::Stable).len() ==> !is_marked(
                #[trigger] rewrite(s, Target::Stable)[j],
            ) && s.contains(rewrite(s, Target::Stable)[j]),
{
    let a6 = apply_rules(s, Target::Stable, 6);
    let a7 = apply_rules(s, Target::Stable, 7);
    let out = rewrite(s, Target::Stable);
    assert(table_view()[6] == Rule::ConditionalMarker);
    assert(table_view()[7] == Rule::Marker);
    assert(a7 == apply_rule(a6, Rule::ConditionalMarker, Target::Stable));
    assert(out == apply_rule(a7, Rule::Marker, Target::Stable));
    lemma_apply_rule_no_match(a6, Rule::ConditionalMarker, Target::Stable);
    lemma_apply_rule_no_match(a7, Rule::Marker, Target::Stable);
    lemma_apply_rule_stable_subset(a7, Rule::Marker);
    lemma_apply_rules_stable_subset(s, 8);
    lemma_marker_texts();
    assert forall|j: int| 0 <= j < out.len() implies !is_marked(#[trigger] out[j]) by {
        assert(!matches_at(out, pattern_view(Rule::Marker), j));
        assert(text(out[j]) != text(marker_ident()));
        assert(a7.contains(out[j]));
        let m = choose|m: int| 0 <= m < a7.len() && a7[m] == out[j];
        assert(!matches_at(a7, pattern_view(Rule::ConditionalMarker), m));
        assert(text(a7[m]) != text(marker_group()));
    }
}

/// Where no token is marked, no rule matches and a rewrite changes nothing.
proof fn lemma_rewrite_unmarked(s: Seq<TokenView>, target: Target)
    requires
        forall|j: int| 0 <= j < s.len() ==> !is_marked(#[trigger] s[j]),
    ensures
        rewrite(s, target) == s,
{
    assert forall|rule: Rule| apply_rule(s, rule, target) == s by {
        lemma_leftmost(s, pattern_view(rule));
        lemma_rule_marks(rule);
        if let Some(i) = leftmost(s, pattern_view(rule)) {
            let p = pattern_view(rule);
            let j: int = match rule {
                Rule::ConditionalDestructFirst | Rule::DestructFirst | Rule::ConditionalMarker
                | Rule::Marker => 0,
                _ => 1,
            };
            lemma_marker_texts();
            assert(is_marked(p[j]));
            assert(text(s[i + j]) == text(p[j]));
            assert(is_marked(s[i + j]));
        }
    }
    assert(apply_rules(s, target, 0) == s);
    assert(apply_rules(s, target, 1) == s);
    assert(apply_rules(s, target, 2) == s);
    assert(apply_rules(s, target, 3) == s);
    assert(apply_rules(s, target, 4) == s);
    assert(apply_rules(s, target, 5) == s);
    assert(apply_rules(s, target, 6) == s);
    assert(apply_rules(s, target, 7) == s);
    assert(apply_rules(s, target, 8) == s);
}

proof fn lemma_stream_text_last(xs: Seq<TokenView>, c: char)
    requires
        xs.len() > 0,
        text(xs.last()) == seq![c],
    ensures
        stream_text(xs).len() > 0,
        stream_text(xs).last() == c,
{
    if xs.len() == 1 {
        assert(xs.last() == xs[0]);
    }
}

/// A valid token sequence prints as `c0nst` or `[c0nst]` only when it is
/// one token that prints so: two tokens print with a space or a punctuation
/// character between them.
proof fn lemma_stream_text_marked(ts: Seq<TokenView>)
    requires
        valid_tokens(ts),
        stream_text(ts) == marker_word() || stream_text(ts) == text(marker_group()),
    ensures
        ts.len() == 1,
        is_marked(ts[0]),
{
    lemma_marker_texts();
    let w = stream_text(ts);
    lemma_valid_tokens(ts);
    assert(forall|k: int| 0 <= k < w.len() ==> w[k] != ' ' && !punct_char(w[k]));
    if ts.len() == 0 {
        assert(w.len() == 0);
    } else if ts.len() >= 2 {
        let a = stream_text(ts.drop_last());
        let prev = ts[ts.len() - 2];
        assert(w == a + separator(prev) + text(ts.last()));
        if let TokenView::Punct(c, Spacing::Joint) = prev {
            assert(ts.drop_last().last() == prev);
            lemma_stream_text_last(ts.drop_last(), c);
            assert(valid_token(prev));
            assert(w[a.len() - 1] == c);
        } else {
            assert(w[a.len() as int] == ' ');
        }
    }
}

/// A valid group prints as `c0nst` or `[c0nst]` only when the tokens it holds
/// do so too.
proof fn lemma_group_marked(d: Delimiter, ts: Seq<TokenView>)
    requires
        is_marked(TokenView::Group(d, ts)),
    ensures
        stream_text(ts) == marker_word() || stream_text(ts) == text(marker_group()),
{
    lemma_marker_texts();
    let t = text(TokenView::Group(d, ts));
    let st = stream_text(ts);
    match d {
        Delimiter::Parenthesis => {
            assert(t[0] == '(');
        },
        Delimiter::Brace => {
            assert(t[0] == '{');
        },
        Delimiter::Bracket => {
            assert(t[0] == '[');
            assert(t == seq!['['] + st + seq![']']);
            assert(t != marker_word());
            assert(st =~= t.subrange(1, t.len() - 1));
            assert(st =~= marker_word());
        },
        Delimiter::Invisible => {
            assert(t =~= st);
        },
    }
}

/// Converting a valid sequence for stable gives a valid sequence in which no
/// token is marked, and converting that again changes nothing.
proof fn lemma_stable_idempotent(s: Seq<TokenView>)
    requires
        valid_tokens(s),
    ensures
        valid_tokens(convert_tokens(s, Target::Stable)),
        forall|j: int|
            0 <= j < convert_tokens(s, Target::Stable).len() ==> !is_marked(
                #[trigger] convert_tokens(s, Target::Stable)[j],
            ),
        convert_tokens(convert_tokens(s, Target::Stable), Target::Stable) == convert_tokens(
            s,
            Target::Stable,
        ),
    decreases seq_height(s), marks(s),
{
    let st = Target::Stable;
    let r = rewrite(s, st);
    let out = convert_tokens(s, st);
    lemma_convert_tokens(s, st);
    lemma_rewrite_stable(s);
    lemma_valid_tokens(s);
    assert forall|j: int| 0 <= j < out.len() implies valid_token(#[trigger] out[j]) && !is_marked(
        out[j],
    ) && descend_one(out[j], st) == out[j] by {
        let x = r[j];
        assert(s.contains(x));
        let m = choose|m: int| 0 <= m < s.len() && s[m] == x;
        assert(valid_token(s[m]));
        assert(!is_marked(x));
        if let TokenView::Group(d, inner) = x {
            lemma_rewrite_smaller(s, st, j);
            lemma_stable_idempotent(inner);
            let ci = convert_tokens(inner, st);
            assert(out[j] == TokenView::Group(d, ci));
            if is_marked(out[j]) {
                lemma_group_marked(d, ci);
                lemma_stream_text_marked(ci);
                assert(is_marked(ci[0]));
            }
        }
    }
    lemma_valid_tokens(out);
    lemma_rewrite_unmarked(out, st);
    lemma_convert_tokens(out, st);
    assert(convert_tokens(out, st) =~= out);
}

/// Converting valid tokens for stable a second time changes nothing: no mark
/// is left to remove.
pub proof fn stable_idempotent_law(s: Seq<TokenView>)
    requires
        valid_tokens(s),
    ensures
        convert_tokens(convert_tokens(s, Target::Stable), Target::Stable) == convert_tokens(
            s,
            Target::Stable,
        ),
{
    lemma_stable_idempotent(s);
}

/// Rewriting for a target.
pub trait Convert: Sized {
    type Output;

    /// Whether `out` is what `self` becomes for `target`.
    spec fn converts_to(self, target: Target, out: Self::Output) -> bool;

    fn convert(self, target: Target) -> (r: Self::Output)
        ensures
            self.converts_to(target, r),
    ;
}

impl Convert for Vec<Token> {
    type Output = Vec<Token>;

    open spec fn converts_to(self, target: Target, out: Vec<Token>) -> bool {
        tokens_view(out@) == convert_tokens(tokens_view(self@), target)
    }

    fn convert(self, target: Target) -> (r: Vec<Token>) {
        convert_stream(self, target)
    }
}

impl Convert for Token {
    type Output = Option<Token>;

    open spec fn converts_to(self, target: Target, out: Option<Token>) -> bool {
        opt_view(out) == convert_tree(self@, target)
    }

    fn convert(self, target: Target) -> (r: Option<Token>) {
        convert_token(self, target)
    }
}

} // verus!
