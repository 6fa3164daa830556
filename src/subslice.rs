//! Finding the leftmost occurrence of a token pattern in a token sequence,
//! tokens being compared by their printed text.
use vstd::prelude::*;

use crate::token::{lemma_tokens_view, text, tokens_view, Token, TokenView};

verus! {

/// Whether `needle` occurs in `hay` starting at index `i`, token by token
/// equal in printed text.
pub open spec fn matches_at(hay: Seq<TokenView>, needle: Seq<TokenView>, i: int) -> bool {
    &&& 0 <= i
    &&& i + needle.len() <= hay.len()
    &&& forall|j: int| 0 <= j < needle.len() ==> text(#[trigger] hay[i + j]) == text(needle[j])
}

/// The first index at or after `start` where `needle` occurs in `hay`.
pub open spec fn find_from(hay: Seq<TokenView>, needle: Seq<TokenView>, start: int) -> Option<int>
    decreases hay.len() - start,
{
    if start < 0 || start + needle.len() > hay.len() {
        None
    } else if matches_at(hay, needle, start) {
        Some(start)
    } else {
        find_from(hay, needle, start + 1)
    }
}

/// The leftmost index where `needle` occurs in `hay`.
pub open spec fn leftmost(hay: Seq<TokenView>, needle: Seq<TokenView>) -> Option<int> {
    find_from(hay, needle, 0)
}

proof fn lemma_find_from(hay: Seq<TokenView>, needle: Seq<TokenView>, start: int)
    requires
        0 <= start,
    ensures
        match find_from(hay, needle, start) {
            Some(i) => start <= i && matches_at(hay, needle, i) && forall|k: int|
                start <= k < i ==> !matches_at(hay, needle, k),
            None => forall|k: int| start <= k ==> !matches_at(hay, needle, k),
        },
    decreases hay.len() - start,
{
    if start + needle.len() <= hay.len() && !matches_at(hay, needle, start) {
        lemma_find_from(hay, needle, start + 1);
    }
}

/// `leftmost` is the least index of an occurrence, and `None` when there is
/// none.
pub proof fn lemma_leftmost(hay: Seq<TokenView>, needle: Seq<TokenView>)
    ensures
        match leftmost(hay, needle) {
            Some(i) => matches_at(hay, needle, i) && forall|k: int|
                0 <= k < i ==> !matches_at(hay, needle, k),
            None => forall|k: int| !matches_at(hay, needle, k),
        },
{
    lemma_find_from(hay, needle, 0);
}

/// Searching a sequence for a contiguous run of items.
pub trait Subslice {
    /// Whether `needle` occurs in `self` starting at index `i`.
    spec fn occurs_at(&self, needle: &Self, i: int) -> bool;

    /// The leftmost index where `needle` occurs in `self`; an empty needle
    /// occurs at 0.
    fn find_subslice(&self, needle: &Self) -> (r: Option<usize>)
        ensures
            match r {
                Some(i) => self.occurs_at(needle, i as int) && forall|k: int|
                    0 <= k < i ==> !self.occurs_at(needle, k),
                None => forall|k: int| !self.occurs_at(needle, k),
            },
    ;
}

impl Subslice for [Token] {
    open spec fn occurs_at(&self, needle: &Self, i: int) -> bool {
        matches_at(tokens_view(self@), tokens_view(needle@), i)
    }

    fn find_subslice(&self, needle: &Self) -> (r: Option<usize>) {
        let ghost h = tokens_view(self@);
        let ghost n = tokens_view(needle@);
        proof {
            lemma_tokens_view(self@);
            lemma_tokens_view(needle@);
        }
        if needle.len() == 0 {
            return Some(0);
        }
        if needle.len() > self.len() {
            return None;
        }
        let len = self.len();
        let last = len - needle.len();
        let mut i: usize = 0;
        while i <= last
            invariant
                h == tokens_view(self@),
                n == tokens_view(needle@),
                h.len() == self@.len(),
                n.len() == needle@.len(),
                forall|k: int| 0 <= k < h.len() ==> #[trigger] h[k] == self@[k]@,
                forall|k: int| 0 <= k < n.len() ==> #[trigger] n[k] == needle@[k]@,
                last + needle@.len() == self@.len(),
                len == self@.len(),
                i <= last + 1,
                needle@.len() > 0,
                forall|k: int| 0 <= k < i ==> !matches_at(h, n, k),
            decreases last + 1 - i,
        {
            let mut j: usize = 0;
            let mut all = true;
            while j < needle.len()
                invariant
                    h == tokens_view(self@),
                    n == tokens_view(needle@),
                    h.len() == self@.len(),
                    n.len() == needle@.len(),
                    forall|k: int| 0 <= k < h.len() ==> #[trigger] h[k] == self@[k]@,
                    forall|k: int| 0 <= k < n.len() ==> #[trigger] n[k] == needle@[k]@,
                    i <= last,
                    last + needle@.len() == self@.len(),
                    j <= needle@.len(),
                    all ==> forall|k: int| 0 <= k < j ==> text(#[trigger] h[i + k]) == text(n[k]),
                    !all ==> !matches_at(h, n, i as int),
                decreases needle@.len() - j,
            {
                if all && !self[i + j].same_text(&needle[j]) {
                    all = false;
                    assert(text(h[i + j]) != text(n[j as int]));
                }
                j = j + 1;
            }
            if all {
                return Some(i);
            }
            i = i + 1;
        }
        assert forall|k: int| !matches_at(h, n, k) by {
            if 0 <= k && k + n.len() <= h.len() {
                assert(k <= last);
            }
        }
        None
    }
}

} // verus!
