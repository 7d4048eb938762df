//! The repetition engine: parses `name in start..end { body }` (with an
//! optional inclusive marker), and expands the body once per index. If
//! the body holds a repeat block — a parenthesized group between a `#`
//! and a `*` — only that block is replayed; otherwise the whole body is.
//! Within each pass, `ident # name` fuses into one identifier carrying
//! the index's decimal digits, and a bare `name` becomes the index as a
//! literal.

use vstd::prelude::*;
use vstd::string::StringExecFns;
use crate::digits::{dec_digits, push_decimal};
use crate::error::{ParseError, ParseErrorKind};
use crate::token::{
    dup_tokens, lemma_tokens_view_concat, lemma_tokens_view_index, lemma_tokens_view_len,
    lemma_tokens_view_push, token_view, tokens_view, Delim, Token, TokenV,
};

verus! {

/// Whether `s` opens with the fusion pattern: an identifier other than
/// the bound name, a `#`, then the bound name.
pub open spec fn fusion_at(s: Seq<TokenV>, name: Seq<char>) -> bool {
    &&& s.len() >= 3
    &&& s[0] is Ident
    &&& s[0]->Ident_0 != name
    &&& s[1] is Punct
    &&& s[1]->Punct_0 == '#'
    &&& s[2] is Ident
    &&& s[2]->Ident_0 == name
}

/// One expansion pass at index `idx`: the bound name becomes the index
/// literal, `ident # name` fuses into one identifier ending in the
/// index's digits, and groups are rewritten within their own depth.
pub open spec fn spec_expand_body(s: Seq<TokenV>, name: Seq<char>, idx: u64) -> Seq<TokenV>
    decreases s,
{
    if s.len() == 0 {
        Seq::empty()
    } else if fusion_at(s, name) {
        seq![TokenV::Ident(s[0]->Ident_0 + dec_digits(idx as nat))] + spec_expand_body(
            s.skip(3),
            name,
            idx,
        )
    } else {
        let head = match s[0] {
            TokenV::Ident(x) => if x == name {
                TokenV::Lit(idx)
            } else {
                TokenV::Ident(x)
            },
            TokenV::Group(d, inner) => TokenV::Group(d, spec_expand_body(inner, name, idx)),
            other => other,
        };
        seq![head] + spec_expand_body(s.skip(1), name, idx)
    }
}

/// The concatenation of one expansion pass per index in `[start, end)`;
/// empty when the range is.
pub open spec fn spec_expand_range(
    body: Seq<TokenV>,
    name: Seq<char>,
    start: int,
    end: int,
) -> Seq<TokenV>
    decreases end - start,
{
    if start >= end {
        Seq::empty()
    } else {
        spec_expand_body(body, name, start as u64) + spec_expand_range(body, name, start + 1, end)
    }
}

/// An empty range expands to nothing, whatever the body.
pub proof fn lemma_empty_range_expands_to_nothing(
    body: Seq<TokenV>,
    name: Seq<char>,
    start: int,
    end: int,
)
    requires
        start >= end,
    ensures
        spec_expand_range(body, name, start, end) == Seq::<TokenV>::empty(),
{
}

/// Extending the range by one index appends one more pass.
pub proof fn lemma_expand_range_snoc(body: Seq<TokenV>, name: Seq<char>, start: int, i: int)
    requires
        0 <= start <= i,
        i <= u64::MAX,
    ensures
        spec_expand_range(body, name, start, i + 1) == spec_expand_range(body, name, start, i)
            + spec_expand_body(body, name, i as u64),
    decreases i - start,
{
    if start == i {
        reveal_with_fuel(spec_expand_range, 3);
        assert(spec_expand_range(body, name, start, i) =~= Seq::<TokenV>::empty());
        assert(spec_expand_range(body, name, start, i + 1) =~= spec_expand_range(
            body,
            name,
            start,
            i,
        ) + spec_expand_body(body, name, i as u64));
    } else {
        lemma_expand_range_snoc(body, name, start + 1, i);
        assert(spec_expand_range(body, name, start, i + 1) =~= spec_expand_range(
            body,
            name,
            start,
            i,
        ) + spec_expand_body(body, name, i as u64));
    }
}

/// Whether `s` opens with the repeat-block marker: `#`, a parenthesized
/// group, `*`.
pub open spec fn repeat_marker_at(s: Seq<TokenV>) -> bool {
    &&& s.len() >= 3
    &&& s[0] is Punct
    &&& s[0]->Punct_0 == '#'
    &&& s[1] is Group
    &&& s[1]->Group_0 == Delim::Paren
    &&& s[2] is Punct
    &&& s[2]->Punct_0 == '*'
}

/// The marker scan: each repeat block (its own inner blocks expanded
/// first) is replaced by its expansion over the range; other groups are
/// scanned within; the flag says whether any block was found anywhere.
pub open spec fn spec_scan(s: Seq<TokenV>, name: Seq<char>, start: int, end: int) -> (Seq<
    TokenV,
>, bool)
    decreases s,
{
    if s.len() == 0 {
        (Seq::<TokenV>::empty(), false)
    } else if repeat_marker_at(s) {
        let inner = spec_scan(s[1]->Group_1, name, start, end).0;
        let rest = spec_scan(s.skip(3), name, start, end);
        (spec_expand_range(inner, name, start, end) + rest.0, true)
    } else {
        let rest = spec_scan(s.skip(1), name, start, end);
        match s[0] {
            TokenV::Group(d, inner) => {
                let g = spec_scan(inner, name, start, end);
                (seq![TokenV::Group(d, g.0)] + rest.0, g.1 || rest.1)
            },
            other => (seq![other] + rest.0, rest.1),
        }
    }
}

/// The whole expansion: if the body holds a repeat block anywhere, the
/// scanned body is the result; otherwise the whole body is replayed over
/// the range.
pub open spec fn spec_expand_request(
    name: Seq<char>,
    start: int,
    end: int,
    body: Seq<TokenV>,
) -> Seq<TokenV> {
    let scanned = spec_scan(body, name, start, end);
    if scanned.1 {
        scanned.0
    } else {
        spec_expand_range(body, name, start, end)
    }
}

/// A parsed invocation, in the ghost mirror.
pub struct RequestV {
    pub name: Seq<char>,
    pub start: u64,
    pub end: u64,
    pub body_delim: Delim,
    pub body: Seq<TokenV>,
}

/// What parsing an invocation yields: `name in start .. end { body }`,
/// where `=` after the dots makes the upper bound inclusive, each bound
/// is an integer literal, and nothing may follow the body. The bound
/// name may not collide with the reserved word between it and the range.
pub open spec fn spec_parse(s: Seq<TokenV>) -> Result<RequestV, ParseError> {
    if s.len() < 1 || !(s[0] is Ident) || s[0]->Ident_0 == "in"@ {
        Err(ParseError { kind: ParseErrorKind::ExpectedName, at: 0 })
    } else if s.len() < 2 || !(s[1] is Ident && s[1]->Ident_0 == "in"@) {
        Err(ParseError { kind: ParseErrorKind::ExpectedIn, at: 1 })
    } else if s.len() < 3 || !(s[2] is Lit) {
        Err(ParseError { kind: ParseErrorKind::ExpectedBound, at: 2 })
    } else if s.len() < 4 || !(s[3] is Punct && s[3]->Punct_0 == '.') {
        Err(ParseError { kind: ParseErrorKind::ExpectedRangeOp, at: 3 })
    } else if s.len() < 5 || !(s[4] is Punct && s[4]->Punct_0 == '.') {
        Err(ParseError { kind: ParseErrorKind::ExpectedRangeOp, at: 4 })
    } else if s.len() >= 6 && s[5] is Punct && s[5]->Punct_0 == '=' {
        if s.len() < 7 || !(s[6] is Lit) {
            Err(ParseError { kind: ParseErrorKind::ExpectedBound, at: 6 })
        } else if s[6]->Lit_0 == u64::MAX {
            Err(ParseError { kind: ParseErrorKind::BoundOverflow, at: 6 })
        } else if s.len() < 8 || !(s[7] is Group) {
            Err(ParseError { kind: ParseErrorKind::ExpectedBody, at: 7 })
        } else if s.len() > 8 {
            Err(ParseError { kind: ParseErrorKind::TrailingTokens, at: 8 })
        } else {
            Ok(
                RequestV {
                    name: s[0]->Ident_0,
                    start: s[2]->Lit_0,
                    end: (s[6]->Lit_0 + 1) as u64,
                    body_delim: s[7]->Group_0,
                    body: s[7]->Group_1,
                },
            )
        }
    } else {
        if s.len() < 6 || !(s[5] is Lit) {
            Err(ParseError { kind: ParseErrorKind::ExpectedBound, at: 5 })
        } else if s.len() < 7 || !(s[6] is Group) {
            Err(ParseError { kind: ParseErrorKind::ExpectedBody, at: 6 })
        } else if s.len() > 7 {
            Err(ParseError { kind: ParseErrorKind::TrailingTokens, at: 7 })
        } else {
            Ok(
                RequestV {
                    name: s[0]->Ident_0,
                    start: s[2]->Lit_0,
                    end: s[5]->Lit_0,
                    body_delim: s[6]->Group_0,
                    body: s[6]->Group_1,
                },
            )
        }
    }
}

/// Whether `t` is an identifier equal to `name`.
fn ident_equals(t: &Token, name: &String) -> (r: bool)
    ensures
        r == (token_view(*t) is Ident && token_view(*t)->Ident_0 == name@),
{
    match t {
        Token::Ident(x) => *x == *name,
        _ => false,
    }
}

/// Whether `t` is an identifier other than `name`.
fn ident_other_than(t: &Token, name: &String) -> (r: bool)
    ensures
        r == (token_view(*t) is Ident && token_view(*t)->Ident_0 != name@),
{
    match t {
        Token::Ident(x) => !(*x == *name),
        _ => false,
    }
}

/// Whether `t` is the punctuation `c`.
fn punct_is(t: &Token, c: char) -> (r: bool)
    ensures
        r == (token_view(*t) is Punct && token_view(*t)->Punct_0 == c),
{
    match t {
        Token::Punct(p) => *p == c,
        _ => false,
    }
}

/// One expansion pass at index `idx`: fuses `ident # name`, replaces the
/// bound name by the index literal, and rewrites groups within their own
/// depth.
pub fn expand_body(s: &Vec<Token>, name: &String, idx: u64) -> (r: Vec<Token>)
    ensures
        tokens_view(r@) == spec_expand_body(tokens_view(s@), name@, idx),
    decreases s@,
{
    let ghost t = tokens_view(s@);
    let mut out: Vec<Token> = Vec::new();
    let mut i: usize = 0;
    proof {
        lemma_tokens_view_len(s@);
        assert(t.skip(0) =~= t);
        assert(tokens_view(out@) =~= Seq::<TokenV>::empty());
    }
    while i < s.len()
        invariant
            0 <= i <= s@.len(),
            t == tokens_view(s@),
            t.len() == s@.len(),
            spec_expand_body(t, name@, idx) == tokens_view(out@) + spec_expand_body(
                t.skip(i as int),
                name@,
                idx,
            ),
        decreases s@.len() - i,
    {
        let ghost rem = t.skip(i as int);
        proof {
            lemma_tokens_view_index(s@, i as int);
            if i + 1 < s@.len() {
                lemma_tokens_view_index(s@, i as int + 1);
            }
            if i + 2 < s@.len() {
                lemma_tokens_view_index(s@, i as int + 2);
            }
            assert(rem.len() == t.len() - i);
            assert(rem[0] == t[i as int]);
            if i + 1 < s@.len() {
                assert(rem[1] == t[i as int + 1]);
            }
            if i + 2 < s@.len() {
                assert(rem[2] == t[i as int + 2]);
            }
        }
        let fusion = s.len() - i >= 3 && ident_other_than(&s[i], name) && punct_is(
            &s[i + 1],
            '#',
        ) && ident_equals(&s[i + 2], name);
        proof {
            assert(fusion == fusion_at(rem, name@));
        }
        if fusion {
            let mut fused_name: String = match &s[i] {
                Token::Ident(x) => x.clone(),
                _ => unreached(),
            };
            let ghost stem = fused_name@;
            push_decimal(&mut fused_name, idx);
            let ghost before = out@;
            out.push(Token::Ident(fused_name));
            proof {
                lemma_tokens_view_push(before, Token::Ident(fused_name));
                assert(token_view(Token::Ident(fused_name)) == TokenV::Ident(
                    stem + dec_digits(idx as nat),
                ));
                assert(rem[0]->Ident_0 == stem);
                assert(rem.skip(3) =~= t.skip(i as int + 3));
                assert(spec_expand_body(rem, name@, idx) == seq![
                    TokenV::Ident(stem + dec_digits(idx as nat)),
                ] + spec_expand_body(t.skip(i as int + 3), name@, idx));
                assert(tokens_view(out@) + spec_expand_body(t.skip(i as int + 3), name@, idx)
                    =~= tokens_view(before) + spec_expand_body(rem, name@, idx));
            }
            i = i + 3;
        } else {
            let rtt: Token = match &s[i] {
                Token::Ident(x) => {
                    if *x == *name {
                        Token::Lit(idx)
                    } else {
                        Token::Ident(x.clone())
                    }
                },
                Token::Lit(n) => Token::Lit(*n),
                Token::Punct(c) => Token::Punct(*c),
                Token::Group(d, inner) => {
                    proof {
                        assert(decreases_to!(s@ => s@[i as int]));
                    }
                    let expanded = expand_body(inner, name, idx);
                    Token::Group(*d, expanded)
                },
            };
            let ghost before = out@;
            out.push(rtt);
            proof {
                lemma_tokens_view_push(before, rtt);
                assert(rem.skip(1) =~= t.skip(i as int + 1));
                assert(spec_expand_body(rem, name@, idx) == seq![token_view(rtt)]
                    + spec_expand_body(t.skip(i as int + 1), name@, idx));
                assert(tokens_view(out@) + spec_expand_body(t.skip(i as int + 1), name@, idx)
                    =~= tokens_view(before) + spec_expand_body(rem, name@, idx));
            }
            i = i + 1;
        }
    }
    proof {
        assert(t.skip(s@.len() as int).len() == 0);
        assert(spec_expand_body(t.skip(s@.len() as int), name@, idx) =~= Seq::<TokenV>::empty());
        assert(tokens_view(out@) =~= tokens_view(out@) + Seq::<TokenV>::empty());
    }
    out
}

/// Expands `body` once per index in `[start, end)`, concatenating the
/// passes; an empty range (including `start > end`) yields no tokens and
/// no error.
pub fn expand_range(body: &Vec<Token>, name: &String, start: u64, end: u64) -> (r: Vec<Token>)
    ensures
        tokens_view(r@) == spec_expand_range(tokens_view(body@), name@, start as int, end as int),
{
    let ghost t = tokens_view(body@);
    let mut out: Vec<Token> = Vec::new();
    if start >= end {
        proof {
            assert(tokens_view(out@) =~= Seq::<TokenV>::empty());
        }
        return out;
    }
    let mut i = start;
    proof {
        assert(tokens_view(out@) =~= Seq::<TokenV>::empty());
        assert(spec_expand_range(t, name@, start as int, start as int) =~= Seq::<
            TokenV,
        >::empty());
    }
    while i < end
        invariant
            start <= i <= end,
            t == tokens_view(body@),
            tokens_view(out@) == spec_expand_range(t, name@, start as int, i as int),
        decreases end - i,
    {
        let mut pass = expand_body(body, name, i);
        let ghost before = out@;
        let ghost pass_toks = pass@;
        out.append(&mut pass);
        proof {
            assert(out@ == before + pass_toks);
            lemma_tokens_view_concat(before, pass_toks);
            lemma_expand_range_snoc(t, name@, start as int, i as int);
        }
        i = i + 1;
    }
    out
}

/// Whether `t` is a parenthesized group.
fn is_paren_group(t: &Token) -> (r: bool)
    ensures
        r == (token_view(*t) is Group && token_view(*t)->Group_0 == Delim::Paren),
{
    match t {
        Token::Group(d, _) => *d == Delim::Paren,
        _ => false,
    }
}

/// The marker scan: replaces each repeat block `# ( .. ) *` by its
/// expansion over the range (the block's own inner blocks expanded
/// first), scans other groups within, and reports whether any block was
/// found anywhere in the tree.
pub fn scan_repeat_blocks(s: &Vec<Token>, name: &String, start: u64, end: u64) -> (r: (Vec<
    Token,
>, bool))
    ensures
        tokens_view(r.0@) == spec_scan(tokens_view(s@), name@, start as int, end as int).0,
        r.1 == spec_scan(tokens_view(s@), name@, start as int, end as int).1,
    decreases s@,
{
    let ghost t = tokens_view(s@);
    let mut out: Vec<Token> = Vec::new();
    let mut found = false;
    let mut i: usize = 0;
    proof {
        lemma_tokens_view_len(s@);
        assert(t.skip(0) =~= t);
        assert(tokens_view(out@) =~= Seq::<TokenV>::empty());
    }
    while i < s.len()
        invariant
            0 <= i <= s@.len(),
            t == tokens_view(s@),
            t.len() == s@.len(),
            spec_scan(t, name@, start as int, end as int).0 == tokens_view(out@) + spec_scan(
                t.skip(i as int),
                name@,
                start as int,
                end as int,
            ).0,
            spec_scan(t, name@, start as int, end as int).1 == (found || spec_scan(
                t.skip(i as int),
                name@,
                start as int,
                end as int,
            ).1),
        decreases s@.len() - i,
    {
        let ghost rem = t.skip(i as int);
        proof {
            lemma_tokens_view_index(s@, i as int);
            if i + 1 < s@.len() {
                lemma_tokens_view_index(s@, i as int + 1);
                assert(rem[1] == t[i as int + 1]);
            }
            if i + 2 < s@.len() {
                lemma_tokens_view_index(s@, i as int + 2);
                assert(rem[2] == t[i as int + 2]);
            }
            assert(rem[0] == t[i as int]);
        }
        let marker = s.len() - i >= 3 && punct_is(&s[i], '#') && is_paren_group(&s[i + 1])
            && punct_is(&s[i + 2], '*');
        proof {
            assert(marker == repeat_marker_at(rem));
        }
        if marker {
            let inner: &Vec<Token> = match &s[i + 1] {
                Token::Group(_, v) => v,
                _ => unreached(),
            };
            proof {
                assert(decreases_to!(s@ => s@[i as int + 1]));
            }
            let scanned = scan_repeat_blocks(inner, name, start, end);
            let mut expanded = expand_range(&scanned.0, name, start, end);
            let ghost before = out@;
            let ghost expanded_toks = expanded@;
            out.append(&mut expanded);
            found = true;
            proof {
                assert(out@ == before + expanded_toks);
                lemma_tokens_view_concat(before, expanded_toks);
                assert(rem.skip(3) =~= t.skip(i as int + 3));
                assert(rem[1]->Group_1 == tokens_view(inner@));
                assert(tokens_view(expanded_toks) == spec_expand_range(
                    spec_scan(tokens_view(inner@), name@, start as int, end as int).0,
                    name@,
                    start as int,
                    end as int,
                ));
                assert(tokens_view(out@) + spec_scan(
                    t.skip(i as int + 3),
                    name@,
                    start as int,
                    end as int,
                ).0 =~= tokens_view(before) + spec_scan(rem, name@, start as int, end as int).0);
            }
            i = i + 3;
        } else {
            let ghost before = out@;
            let ghost found_before = found;
            match &s[i] {
                Token::Group(d, inner) => {
                    proof {
                        assert(decreases_to!(s@ => s@[i as int]));
                    }
                    let sub = scan_repeat_blocks(inner, name, start, end);
                    let pushed = Token::Group(*d, sub.0);
                    proof {
                        assert(token_view(pushed) == TokenV::Group(
                            *d,
                            spec_scan(tokens_view(inner@), name@, start as int, end as int).0,
                        ));
                    }
                    out.push(pushed);
                    found = found || sub.1;
                },
                _ => {
                    let copy = s[i].dup();
                    out.push(copy);
                },
            }
            proof {
                lemma_tokens_view_push(before, out@[out@.len() - 1]);
                assert(out@ =~= before.push(out@[out@.len() - 1]));
                assert(rem.skip(1) =~= t.skip(i as int + 1));
                assert(tokens_view(out@) + spec_scan(
                    t.skip(i as int + 1),
                    name@,
                    start as int,
                    end as int,
                ).0 =~= tokens_view(before) + spec_scan(rem, name@, start as int, end as int).0);
            }
            i = i + 1;
        }
    }
    proof {
        assert(t.skip(s@.len() as int).len() == 0);
        assert(spec_scan(t.skip(s@.len() as int), name@, start as int, end as int).0 =~= Seq::<
            TokenV,
        >::empty());
        assert(tokens_view(out@) =~= tokens_view(out@) + Seq::<TokenV>::empty());
    }
    (out, found)
}

/// A parsed invocation: the bound name, the normalized half-open range,
/// and the body with its delimiter.
#[derive(Debug)]
pub struct RepetitionRequest {
    pub name: String,
    pub start: u64,
    pub end: u64,
    pub body_delim: Delim,
    pub body: Vec<Token>,
}

impl RepetitionRequest {
    /// The ghost mirror of this request.
    pub open spec fn view_req(&self) -> RequestV {
        RequestV {
            name: self.name@,
            start: self.start,
            end: self.end,
            body_delim: self.body_delim,
            body: tokens_view(self.body@),
        }
    }
}

/// Parses an invocation `name in start .. [=] end { body }`, normalizing
/// an inclusive bound by adding one. Malformed input yields the error
/// and offending position that [`spec_parse`] names.
pub fn parse_repetition(tokens: &Vec<Token>) -> (r: Result<RepetitionRequest, ParseError>)
    ensures
        match spec_parse(tokens_view(tokens@)) {
            Ok(req) => r is Ok && r->Ok_0.view_req() == req,
            Err(e) => r == Err::<RepetitionRequest, ParseError>(e),
        },
{
    let ghost t = tokens_view(tokens@);
    let n = tokens.len();
    proof {
        lemma_tokens_view_len(tokens@);
        if n > 0 {
            lemma_tokens_view_index(tokens@, 0);
        }
        if n > 1 {
            lemma_tokens_view_index(tokens@, 1);
        }
        if n > 2 {
            lemma_tokens_view_index(tokens@, 2);
        }
        if n > 3 {
            lemma_tokens_view_index(tokens@, 3);
        }
        if n > 4 {
            lemma_tokens_view_index(tokens@, 4);
        }
        if n > 5 {
            lemma_tokens_view_index(tokens@, 5);
        }
        if n > 6 {
            lemma_tokens_view_index(tokens@, 6);
        }
        if n > 7 {
            lemma_tokens_view_index(tokens@, 7);
        }
    }
    if n < 1 {
        return Err(ParseError { kind: ParseErrorKind::ExpectedName, at: 0 });
    }
    let name: String = match &tokens[0] {
        Token::Ident(x) => x.clone(),
        _ => {
            return Err(ParseError { kind: ParseErrorKind::ExpectedName, at: 0 });
        },
    };
    if name == "in".to_owned() {
        return Err(ParseError { kind: ParseErrorKind::ExpectedName, at: 0 });
    }
    let is_in = n >= 2 && match &tokens[1] {
        Token::Ident(x) => *x == "in".to_owned(),
        _ => false,
    };
    if !is_in {
        return Err(ParseError { kind: ParseErrorKind::ExpectedIn, at: 1 });
    }
    if n < 3 {
        return Err(ParseError { kind: ParseErrorKind::ExpectedBound, at: 2 });
    }
    let start: u64 = match &tokens[2] {
        Token::Lit(v) => *v,
        _ => {
            return Err(ParseError { kind: ParseErrorKind::ExpectedBound, at: 2 });
        },
    };
    if n < 4 || !punct_is(&tokens[3], '.') {
        return Err(ParseError { kind: ParseErrorKind::ExpectedRangeOp, at: 3 });
    }
    if n < 5 || !punct_is(&tokens[4], '.') {
        return Err(ParseError { kind: ParseErrorKind::ExpectedRangeOp, at: 4 });
    }
    let inclusive = n >= 6 && punct_is(&tokens[5], '=');
    if inclusive {
        if n < 7 {
            return Err(ParseError { kind: ParseErrorKind::ExpectedBound, at: 6 });
        }
        let bound: u64 = match &tokens[6] {
            Token::Lit(v) => *v,
            _ => {
                return Err(ParseError { kind: ParseErrorKind::ExpectedBound, at: 6 });
            },
        };
        if bound == u64::MAX {
            return Err(ParseError { kind: ParseErrorKind::BoundOverflow, at: 6 });
        }
        if n < 8 {
            return Err(ParseError { kind: ParseErrorKind::ExpectedBody, at: 7 });
        }
        let parsed: (Delim, Vec<Token>) = match &tokens[7] {
            Token::Group(d, v) => (*d, dup_tokens(v)),
            _ => {
                return Err(ParseError { kind: ParseErrorKind::ExpectedBody, at: 7 });
            },
        };
        if n > 8 {
            return Err(ParseError { kind: ParseErrorKind::TrailingTokens, at: 8 });
        }
        Ok(
            RepetitionRequest {
                name,
                start,
                end: bound + 1,
                body_delim: parsed.0,
                body: parsed.1,
            },
        )
    } else {
        if n < 6 {
            return Err(ParseError { kind: ParseErrorKind::ExpectedBound, at: 5 });
        }
        let bound: u64 = match &tokens[5] {
            Token::Lit(v) => *v,
            _ => {
                return Err(ParseError { kind: ParseErrorKind::ExpectedBound, at: 5 });
            },
        };
        if n < 7 {
            return Err(ParseError { kind: ParseErrorKind::ExpectedBody, at: 6 });
        }
        let parsed: (Delim, Vec<Token>) = match &tokens[6] {
            Token::Group(d, v) => (*d, dup_tokens(v)),
            _ => {
                return Err(ParseError { kind: ParseErrorKind::ExpectedBody, at: 6 });
            },
        };
        if n > 7 {
            return Err(ParseError { kind: ParseErrorKind::TrailingTokens, at: 7 });
        }
        Ok(RepetitionRequest { name, start, end: bound, body_delim: parsed.0, body: parsed.1 })
    }
}

/// Expands a parsed request: if its body holds a repeat block anywhere,
/// only the marked blocks are replayed; otherwise the whole body is.
pub fn expand_request(req: &RepetitionRequest) -> (r: Vec<Token>)
    ensures
        tokens_view(r@) == spec_expand_request(
            req.name@,
            req.start as int,
            req.end as int,
            tokens_view(req.body@),
        ),
{
    let scanned = scan_repeat_blocks(&req.body, &req.name, req.start, req.end);
    if scanned.1 {
        scanned.0
    } else {
        expand_range(&req.body, &req.name, req.start, req.end)
    }
}

/// The whole invocation surface: parse `name in start..[=]end { body }`,
/// then expand. Malformed input yields the diagnostic instead; an empty
/// range yields an empty expansion with no error.
pub fn expand_invocation(tokens: &Vec<Token>) -> (r: Result<Vec<Token>, ParseError>)
    ensures
        match spec_parse(tokens_view(tokens@)) {
            Ok(req) => r is Ok && tokens_view(r->Ok_0@) == spec_expand_request(
                req.name,
                req.start as int,
                req.end as int,
                req.body,
            ),
            Err(e) => r == Err::<Vec<Token>, ParseError>(e),
        },
{
    match parse_repetition(tokens) {
        Ok(req) => Ok(expand_request(&req)),
        Err(e) => Err(e),
    }
}

} // verus!
