//! The token tree: an owned, ordered, arbitrarily nested structure of
//! identifiers, integer literals, punctuation and delimited groups, with
//! a ghost mirror over sequences that the transformation contracts are
//! stated on.

use vstd::prelude::*;

verus! {

/// The delimiter of a group.
#[derive(Clone, Copy, Debug, PartialEq, Eq, Structural)]
pub enum Delim {
    Paren,
    Brace,
    Bracket,
}

/// One token: a leaf, or a delimited group owning its sub-tree.
#[derive(Debug, PartialEq, Eq)]
pub enum Token {
    Ident(String),
    Lit(u64),
    Punct(char),
    Group(Delim, Vec<Token>),
}

/// The ghost mirror of a token, over sequences.
pub enum TokenV {
    Ident(Seq<char>),
    Lit(u64),
    Punct(char),
    Group(Delim, Seq<TokenV>),
}

/// The ghost mirror of one token.
pub open spec fn token_view(t: Token) -> TokenV
    decreases t,
{
    match t {
        Token::Ident(s) => TokenV::Ident(s@),
        Token::Lit(n) => TokenV::Lit(n),
        Token::Punct(c) => TokenV::Punct(c),
        Token::Group(d, ts) => TokenV::Group(d, tokens_view(ts@)),
    }
}

/// The ghost mirror of a token sequence.
pub open spec fn tokens_view(s: Seq<Token>) -> Seq<TokenV>
    decreases s,
{
    if s.len() == 0 {
        Seq::empty()
    } else {
        seq![token_view(s[0])] + tokens_view(s.drop_first())
    }
}

impl View for Token {
    type V = TokenV;

    open spec fn view(&self) -> TokenV {
        token_view(*self)
    }
}

/// The mirror keeps the length.
pub proof fn lemma_tokens_view_len(s: Seq<Token>)
    ensures
        tokens_view(s).len() == s.len(),
    decreases s,
{
    if s.len() > 0 {
        lemma_tokens_view_len(s.drop_first());
    }
}

/// The mirror is pointwise.
pub proof fn lemma_tokens_view_index(s: Seq<Token>, i: int)
    requires
        0 <= i < s.len(),
    ensures
        tokens_view(s).len() == s.len(),
        tokens_view(s)[i] == token_view(s[i]),
    decreases s,
{
    lemma_tokens_view_len(s);
    if i > 0 {
        lemma_tokens_view_index(s.drop_first(), i - 1);
    }
}

/// The mirror distributes over concatenation.
pub proof fn lemma_tokens_view_concat(a: Seq<Token>, b: Seq<Token>)
    ensures
        tokens_view(a + b) == tokens_view(a) + tokens_view(b),
    decreases a,
{
    if a.len() == 0 {
        assert(a + b =~= b);
        assert(tokens_view(a) + tokens_view(b) =~= tokens_view(b));
    } else {
        lemma_tokens_view_concat(a.drop_first(), b);
        assert((a + b).drop_first() =~= a.drop_first() + b);
        assert(tokens_view(a + b) =~= tokens_view(a) + tokens_view(b));
    }
}

/// Sequences whose tokens mirror pointwise equal have equal mirrors.
pub proof fn lemma_tokens_view_pointwise(a: Seq<Token>, b: Seq<Token>)
    requires
        a.len() == b.len(),
        forall|i: int| 0 <= i < a.len() ==> token_view(#[trigger] a[i]) == token_view(b[i]),
    ensures
        tokens_view(a) == tokens_view(b),
    decreases a,
{
    if a.len() > 0 {
        lemma_tokens_view_pointwise(a.drop_first(), b.drop_first());
    }
}

/// Appending one token appends its mirror.
pub proof fn lemma_tokens_view_push(s: Seq<Token>, t: Token)
    ensures
        tokens_view(s.push(t)) == tokens_view(s) + seq![token_view(t)],
    decreases s,
{
    assert(s.push(t) =~= s + seq![t]);
    lemma_tokens_view_concat(s, seq![t]);
    assert(seq![t].drop_first() =~= Seq::<Token>::empty());
    assert(tokens_view(Seq::<Token>::empty()) =~= Seq::<TokenV>::empty());
    assert(seq![t][0] == t);
    assert(tokens_view(seq![t]) =~= seq![token_view(t)]);
}

impl Token {
    /// An owned copy with the same mirror.
    pub fn dup(&self) -> (r: Token)
        ensures
            token_view(r) == token_view(*self),
        decreases *self,
    {
        match self {
            Token::Ident(s) => Token::Ident(s.clone()),
            Token::Lit(n) => Token::Lit(*n),
            Token::Punct(c) => Token::Punct(*c),
            Token::Group(d, ts) => Token::Group(*d, dup_tokens(ts)),
        }
    }
}

/// An owned copy of a token sequence with the same mirror.
pub fn dup_tokens(ts: &Vec<Token>) -> (r: Vec<Token>)
    ensures
        tokens_view(r@) == tokens_view(ts@),
    decreases ts@,
{
    let mut out: Vec<Token> = Vec::new();
    let mut i: usize = 0;
    while i < ts.len()
        invariant
            0 <= i <= ts@.len(),
            out@.len() == i,
            forall|j: int| 0 <= j < i ==> token_view(#[trigger] out@[j]) == token_view(ts@[j]),
        decreases ts@.len() - i,
    {
        proof {
            assert(decreases_to!(ts@ => ts@[i as int]));
        }
        let copy = ts[i].dup();
        out.push(copy);
        i = i + 1;
    }
    proof {
        lemma_tokens_view_pointwise(out@, ts@);
    }
    out
}

} // verus!
