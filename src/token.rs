//! Tokens as plain values: identifiers, punctuation, literals and delimited
//! groups, together with their mathematical model and their rendered text.
use vstd::prelude::*;

verus! {

/// How a group is delimited.
#[derive(Clone, Copy, Debug, PartialEq, Eq, Structural)]
pub enum Delimiter {
    Parenthesis,
    Brace,
    Bracket,
    /// A group without visible delimiters.
    Invisible,
}

/// Whether a punctuation character is immediately followed by another one
/// (as the first `:` of `::`).
#[derive(Clone, Copy, Debug, PartialEq, Eq, Structural)]
pub enum Spacing {
    Alone,
    Joint,
}

/// One token tree: a leaf token or a delimited group of token trees.
#[derive(Debug)]
pub enum Token {
    Ident(String),
    Punct(char, Spacing),
    Literal(String),
    Group(Delimiter, Vec<Token>),
}

/// The mathematical model of a [`Token`].
pub enum TokenView {
    Ident(Seq<char>),
    Punct(char, Spacing),
    Literal(Seq<char>),
    Group(Delimiter, Seq<TokenView>),
}

pub open spec fn token_view(t: Token) -> TokenView
    decreases t, 0nat,
{
    match t {
        Token::Ident(s) => TokenView::Ident(s@),
        Token::Punct(c, sp) => TokenView::Punct(c, sp),
        Token::Literal(s) => TokenView::Literal(s@),
        Token::Group(d, ts) => TokenView::Group(d, tokens_view(ts@)),
    }
}

pub open spec fn tokens_view(ts: Seq<Token>) -> Seq<TokenView>
    decreases ts, ts.len(),
{
    if ts.len() == 0 {
        Seq::empty()
    } else {
        tokens_view(ts.drop_last()).push(token_view(ts.last()))
    }
}

impl View for Token {
    type V = TokenView;

    open spec fn view(&self) -> TokenView {
        token_view(*self)
    }
}

pub proof fn lemma_tokens_view(ts: Seq<Token>)
    ensures
        tokens_view(ts).len() == ts.len(),
        forall|i: int| 0 <= i < ts.len() ==> #[trigger] tokens_view(ts)[i] == token_view(ts[i]),
    decreases ts.len(),
{
    if ts.len() > 0 {
        lemma_tokens_view(ts.drop_last());
    }
}

pub open spec fn open_text(d: Delimiter) -> Seq<char> {
    match d {
        Delimiter::Parenthesis => seq!['('],
        Delimiter::Brace => seq!['{', ' '],
        Delimiter::Bracket => seq!['['],
        Delimiter::Invisible => Seq::empty(),
    }
}

pub open spec fn close_text(d: Delimiter, empty: bool) -> Seq<char> {
    match d {
        Delimiter::Parenthesis => seq![')'],
        Delimiter::Brace => if empty {
            seq!['}']
        } else {
            seq![' ', '}']
        },
        Delimiter::Bracket => seq![']'],
        Delimiter::Invisible => Seq::empty(),
    }
}

/// What is printed after a token when another one follows it: nothing after a
/// joint punctuation character, a space otherwise.
pub open spec fn separator(t: TokenView) -> Seq<char> {
    match t {
        TokenView::Punct(_, Spacing::Joint) => Seq::empty(),
        _ => seq![' '],
    }
}

/// The text of a token as it is printed.
pub open spec fn text(t: TokenView) -> Seq<char>
    decreases t, 0nat,
{
    match t {
        TokenView::Ident(s) => s,
        TokenView::Punct(c, _) => seq![c],
        TokenView::Literal(s) => s,
        TokenView::Group(d, ts) => open_text(d) + stream_text(ts) + close_text(d, ts.len() == 0),
    }
}

/// The text of a token sequence as it is printed: the tokens' texts, each
/// followed by its separator but the last.
pub open spec fn stream_text(ts: Seq<TokenView>) -> Seq<char>
    decreases ts, ts.len(),
{
    if ts.len() == 0 {
        Seq::empty()
    } else if ts.len() == 1 {
        text(ts[0])
    } else {
        stream_text(ts.drop_last()) + separator(ts[ts.len() - 2]) + text(ts.last())
    }
}

/// The characters that a punctuation token can hold.
pub open spec fn punct_char(c: char) -> bool {
    c == '!' || c == '#' || c == '$' || c == '%' || c == '&' || c == '\'' || c == '*' || c == '+'
        || c == ',' || c == '-' || c == '.' || c == '/' || c == ':' || c == ';' || c == '<' || c
        == '=' || c == '>' || c == '?' || c == '@' || c == '^' || c == '|' || c == '~'
}

/// A token whose punctuation tokens, at any depth, hold punctuation
/// characters.
pub open spec fn valid_token(t: TokenView) -> bool
    decreases t, 0nat,
{
    match t {
        TokenView::Punct(c, _) => punct_char(c),
        TokenView::Group(_, ts) => valid_tokens(ts),
        _ => true,
    }
}

pub open spec fn valid_tokens(ts: Seq<TokenView>) -> bool
    decreases ts, ts.len(),
{
    ts.len() == 0 || (valid_tokens(ts.drop_last()) && valid_token(ts.last()))
}

pub proof fn lemma_valid_tokens(ts: Seq<TokenView>)
    ensures
        valid_tokens(ts) == forall|i: int| 0 <= i < ts.len() ==> valid_token(#[trigger] ts[i]),
    decreases ts.len(),
{
    if ts.len() > 0 {
        lemma_valid_tokens(ts.drop_last());
        if forall|i: int| 0 <= i < ts.len() ==> valid_token(#[trigger] ts[i]) {
            assert forall|i: int| 0 <= i < ts.drop_last().len() implies valid_token(
                #[trigger] ts.drop_last()[i],
            ) by {
                assert(ts.drop_last()[i] == ts[i]);
            }
        }
        if valid_tokens(ts) {
            assert forall|i: int| 0 <= i < ts.len() implies valid_token(#[trigger] ts[i]) by {
                if i < ts.len() - 1 {
                    assert(ts.drop_last()[i] == ts[i]);
                }
            }
        }
    }
}

fn push_str(s: &String, out: &mut Vec<char>)
    ensures
        final(out)@ == old(out)@ + s@,
{
    let n = s.as_str().unicode_len();
    let mut i: usize = 0;
    while i < n
        invariant
            n == s@.len(),
            i <= n,
            out@ == old(out)@ + s@.take(i as int),
        decreases n - i,
    {
        let c = s.as_str().get_char(i);
        out.push(c);
        i = i + 1;
        assert(s@.take(i as int) == s@.take(i - 1).push(c));
    }
    assert(s@.take(n as int) == s@);
}

impl Token {
    /// Appends the printed text of this token to `out`.
    pub fn render_into(&self, out: &mut Vec<char>)
        ensures
            final(out)@ == old(out)@ + text(self@),
        decreases self,
    {
        match self {
            Token::Ident(s) => push_str(s, out),
            Token::Literal(s) => push_str(s, out),
            Token::Punct(c, _) => {
                out.push(*c);
            },
            Token::Group(d, ts) => {
                let ghost start = out@;
                let ghost vs = tokens_view(ts@);
                proof {
                    lemma_tokens_view(ts@);
                }
                match d {
                    Delimiter::Parenthesis => out.push('('),
                    Delimiter::Brace => {
                        out.push('{');
                        out.push(' ');
                    },
                    Delimiter::Bracket => out.push('['),
                    Delimiter::Invisible => {},
                }
                assert(out@ == start + open_text(*d));
                let n = ts.len();
                let mut i: usize = 0;
                while i < n
                    invariant
                        n == ts@.len(),
                        vs == tokens_view(ts@),
                        vs.len() == n,
                        forall|k: int| 0 <= k < n ==> #[trigger] vs[k] == token_view(ts@[k]),
                        i <= n,
                        out@ == start + open_text(*d) + stream_text(vs.take(i as int)),
                        self@ == TokenView::Group(*d, vs),
                        forall|k: int| 0 <= k < n ==> decreases_to!(*self => #[trigger] ts@[k]),
                    decreases n - i,
                {
                    let ghost before = out@;
                    if i > 0 {
                        match &ts[i - 1] {
                            Token::Punct(_, Spacing::Joint) => {},
                            _ => out.push(' '),
                        }
                    }
                    assert(out@ == before + (if i > 0 { separator(vs[i - 1]) } else { Seq::empty() }));
                    ts[i].render_into(out);
                    proof {
                        let p = vs.take(i + 1);
                        assert(p.drop_last() == vs.take(i as int));
                        if i > 0 {
                            assert(p[p.len() - 2] == vs[i - 1]);
                        }
                        assert(p.last() == vs[i as int]);
                    }
                    i = i + 1;
                }
                assert(vs.take(n as int) == vs);
                match d {
                    Delimiter::Parenthesis => out.push(')'),
                    Delimiter::Brace => {
                        if n > 0 {
                            out.push(' ');
                        }
                        out.push('}');
                    },
                    Delimiter::Bracket => out.push(']'),
                    Delimiter::Invisible => {},
                }
            },
        }
    }

    /// The printed text of this token.
    pub fn render(&self) -> (r: Vec<char>)
        ensures
            r@ == text(self@),
    {
        let mut out: Vec<char> = Vec::new();
        self.render_into(&mut out);
        assert(out@ == Seq::<char>::empty() + text(self@));
        out
    }

    /// Whether two tokens print as the same text.
    pub fn same_text(&self, other: &Token) -> (r: bool)
        ensures
            r == (text(self@) == text(other@)),
    {
        let a = self.render();
        let b = other.render();
        if a.len() != b.len() {
            return false;
        }
        let mut i: usize = 0;
        while i < a.len()
            invariant
                a@ == text(self@),
                b@ == text(other@),
                a@.len() == b@.len(),
                i <= a@.len(),
                forall|k: int| 0 <= k < i ==> a@[k] == b@[k],
            decreases a@.len() - i,
        {
            if a[i] != b[i] {
                assert(a@[i as int] != b@[i as int]);
                return false;
            }
            i = i + 1;
        }
        assert(a@ == b@);
        true
    }
}

pub proof fn lemma_tokens_view_concat(a: Seq<Token>, b: Seq<Token>)
    ensures
        tokens_view(a + b) == tokens_view(a) + tokens_view(b),
{
    lemma_tokens_view(a);
    lemma_tokens_view(b);
    lemma_tokens_view(a + b);
    assert(tokens_view(a + b) =~= tokens_view(a) + tokens_view(b));
}

/// Moves the tokens of `more` to the end of `out`.
pub fn append_tokens(out: &mut Vec<Token>, more: Vec<Token>)
    ensures
        tokens_view(final(out)@) == tokens_view(old(out)@) + tokens_view(more@),
{
    let ghost a = out@;
    let ghost b = more@;
    let mut more = more;
    out.append(&mut more);
    proof {
        lemma_tokens_view_concat(a, b);
    }
}

/// Appends one token to `out`.
pub fn push_token(out: &mut Vec<Token>, t: Token)
    ensures
        tokens_view(final(out)@) == tokens_view(old(out)@).push(t@),
{
    let ghost before = out@;
    out.push(t);
    assert(out@.drop_last() == before);
}

/// A copy of the tokens of `ts`.
pub fn copy_tokens(ts: &Vec<Token>) -> (r: Vec<Token>)
    ensures
        tokens_view(r@) == tokens_view(ts@),
{
    let mut out: Vec<Token> = Vec::new();
    let mut i: usize = 0;
    proof {
        lemma_tokens_view(ts@);
    }
    while i < ts.len()
        invariant
            i <= ts@.len(),
            tokens_view(ts@).len() == ts@.len(),
            forall|k: int| 0 <= k < ts@.len() ==> #[trigger] tokens_view(ts@)[k] == ts@[k]@,
            tokens_view(out@) == tokens_view(ts@).take(i as int),
        decreases ts@.len() - i,
    {
        let t = ts[i].deep_copy();
        push_token(&mut out, t);
        assert(tokens_view(ts@).take(i + 1) =~= tokens_view(ts@).take(i as int).push(t@));
        i = i + 1;
    }
    assert(tokens_view(ts@).take(ts@.len() as int) =~= tokens_view(ts@));
    out
}

impl Token {
    /// A copy of this token, nested groups included.
    pub fn deep_copy(&self) -> (r: Token)
        ensures
            r@ == self@,
        decreases self,
    {
        match self {
            Token::Ident(s) => Token::Ident(s.clone()),
            Token::Punct(c, sp) => Token::Punct(*c, *sp),
            Token::Literal(s) => Token::Literal(s.clone()),
            Token::Group(d, ts) => {
                let mut out: Vec<Token> = Vec::new();
                let mut i: usize = 0;
                proof {
                    lemma_tokens_view(ts@);
                }
                while i < ts.len()
                    invariant
                        i <= ts@.len(),
                        tokens_view(ts@).len() == ts@.len(),
                        forall|k: int| 0 <= k < ts@.len() ==> #[trigger] tokens_view(ts@)[k] == ts@[k]@,
                        forall|k: int| 0 <= k < ts@.len() ==> decreases_to!(*self => #[trigger] ts@[k]),
                        tokens_view(out@) == tokens_view(ts@).take(i as int),
                    decreases ts@.len() - i,
                {
                    let t = ts[i].deep_copy();
                    push_token(&mut out, t);
                    assert(tokens_view(ts@).take(i + 1) =~= tokens_view(ts@).take(i as int).push(t@));
                    i = i + 1;
                }
                assert(tokens_view(ts@).take(ts@.len() as int) =~= tokens_view(ts@));
                Token::Group(*d, out)
            },
        }
    }
}

} // verus!
