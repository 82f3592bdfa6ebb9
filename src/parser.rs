//! The clause grammar:
//!
//! ```text
//! ClauseList := (Clause ("," Clause)* ","?)?
//! Clause     := Pattern "=>" Value
//! Pattern    := StringLiteral | "_"
//! ```
use vstd::prelude::*;
use crate::clause::{clause_views, BrandError, ClauseView, Value, WLBrand, WLInput, WLMatch};
use crate::lexer::{
    is_space, lemma_next_token_bounds, lemma_next_token_push_comma, lemma_skip_space_bounds,
    next_token, read_token, skip_space, TokenKind,
};
use crate::literal::{literal_kind, read_literal_kind, read_string_literal, string_literal_value};

verus! {

pub open spec fn token_text(s: Seq<char>, t: (TokenKind, int, int)) -> Seq<char> {
    s.subrange(t.1, t.2)
}

/// A token that can hold a literal: quoted, or a bare word.
pub open spec fn is_literal_token(t: (TokenKind, int, int)) -> bool {
    t.0 == TokenKind::Quoted || t.0 == TokenKind::Word
}

/// The pattern that follows position `i`, and where it ends; or the
/// position of the offending token.
#[verifier::opaque]
pub open spec fn brand_at(s: Seq<char>, i: int) -> Result<(Option<Seq<char>>, int), int> {
    let t = next_token(s, i);
    if t.0 == TokenKind::Wild {
        Ok((None, t.2))
    } else if is_literal_token(t) && string_literal_value(token_text(s, t)) is Some {
        Ok((string_literal_value(token_text(s, t)), t.2))
    } else {
        Err(t.1)
    }
}

/// The clause that follows position `i`, and where it ends; or the position
/// of the offending token.
#[verifier::opaque]
pub open spec fn match_at(s: Seq<char>, i: int) -> Result<(ClauseView, int), int> {
    match brand_at(s, i) {
        Err(e) => Err(e),
        Ok((b, j)) => {
            let a = next_token(s, j);
            if a.0 != TokenKind::Arrow {
                Err(a.1)
            } else {
                let v = next_token(s, a.2);
                if is_literal_token(v) && literal_kind(token_text(s, v)) is Some {
                    Ok(((b, (literal_kind(token_text(s, v))->Some_0, token_text(s, v))), v.2))
                } else {
                    Err(v.1)
                }
            }
        },
    }
}

/// `pre` put in front of the clauses of a successful parse.
pub open spec fn prepend(pre: Seq<ClauseView>, r: Result<Seq<ClauseView>, int>) -> Result<
    Seq<ClauseView>,
    int,
> {
    match r {
        Ok(rest) => Ok(pre + rest),
        Err(e) => Err(e),
    }
}

/// The clause list that starts at position `i`, running to the end of the
/// text; or the position where the grammar breaks.
pub open spec fn clauses_from(s: Seq<char>, i: nat) -> Result<Seq<ClauseView>, int>
    decreases s.len() - i,
    via clauses_from_decreases
{
    if i > s.len() {
        Err(i as int)
    } else if next_token(s, i as int).0 == TokenKind::End {
        Ok(seq![])
    } else {
        match match_at(s, i as int) {
            Err(e) => Err(e),
            Ok((c, j)) => {
                let sep = next_token(s, j);
                if sep.0 == TokenKind::End {
                    Ok(seq![c])
                } else if sep.0 == TokenKind::Comma {
                    prepend(seq![c], clauses_from(s, sep.2 as nat))
                } else {
                    Err(sep.1)
                }
            },
        }
    }
}

/// Where the clause that follows `i` ends: never before `i`, never past the
/// end of the text.
pub proof fn lemma_match_at_bounds(s: Seq<char>, i: int)
    requires
        0 <= i <= s.len(),
    ensures
        match_at(s, i) matches Ok((c, j)) ==> i < j <= s.len(),
{
    reveal(match_at);
    reveal(brand_at);
    lemma_next_token_bounds(s, i);
    let t = next_token(s, i);
    if brand_at(s, i) is Ok {
        lemma_next_token_bounds(s, t.2);
        let a = next_token(s, t.2);
        if a.0 == TokenKind::Arrow {
            lemma_next_token_bounds(s, a.2);
        }
    }
}

#[via_fn]
proof fn clauses_from_decreases(s: Seq<char>, i: nat) {
    if i <= s.len() {
        if let Ok((c, j)) = match_at(s, i as int) {
            lemma_match_at_bounds(s, i as int);
            lemma_next_token_bounds(s, j);
        }
    }
}

/// The whole text as one pattern.
pub open spec fn brand_text(s: Seq<char>) -> Result<Option<Seq<char>>, int> {
    match brand_at(s, 0) {
        Err(e) => Err(e),
        Ok((b, j)) => {
            let t = next_token(s, j);
            if t.0 == TokenKind::End {
                Ok(b)
            } else {
                Err(t.1)
            }
        },
    }
}

/// The whole text as one clause.
pub open spec fn match_text(s: Seq<char>) -> Result<ClauseView, int> {
    match match_at(s, 0) {
        Err(e) => Err(e),
        Ok((c, j)) => {
            let t = next_token(s, j);
            if t.0 == TokenKind::End {
                Ok(c)
            } else {
                Err(t.1)
            }
        },
    }
}

/// The whole text as a clause list.
pub open spec fn input_text(s: Seq<char>) -> Result<Seq<ClauseView>, int> {
    clauses_from(s, 0)
}

/// The error that a failed parse reports.
pub open spec fn syntax_error<T>(r: Result<T, int>) -> BrandError {
    BrandError::Syntax(r->Err_0 as usize)
}

/// Whether the last character of `s` that is not a space is a `,`.
pub open spec fn ends_with_separator(s: Seq<char>) -> bool {
    exists|k: int|
        0 <= k < s.len() && s[k] == ',' && forall|j: int| k < j < s.len() ==> is_space(#[trigger] s[j])
}

proof fn lemma_match_at_push_comma(s: Seq<char>, i: int)
    requires
        0 <= i <= s.len(),
    ensures
        match_at(s.push(','), i) == match_at(s, i),
{
    reveal(match_at);
    reveal(brand_at);
    let s2 = s.push(',');
    lemma_next_token_bounds(s, i);
    lemma_next_token_push_comma(s, i);
    let t = next_token(s, i);
    assert(token_text(s2, t) =~= token_text(s, t));
    if let Ok((b, j)) = brand_at(s, i) {
        lemma_next_token_bounds(s, j);
        lemma_next_token_push_comma(s, j);
        let a = next_token(s, j);
        if a.0 == TokenKind::Arrow {
            lemma_next_token_bounds(s, a.2);
            lemma_next_token_push_comma(s, a.2);
            let v = next_token(s, a.2);
            assert(token_text(s2, v) =~= token_text(s, v));
        }
    }
}

proof fn lemma_empty_rest_is_spaces(s: Seq<char>, i: nat)
    requires
        i <= s.len(),
        clauses_from(s, i) == Ok::<Seq<ClauseView>, int>(seq![]),
    ensures
        forall|j: int| i <= j < s.len() ==> is_space(#[trigger] s[j]),
{
    reveal(next_token);
    lemma_skip_space_bounds(s, i as int);
}

proof fn lemma_clauses_from_push_comma(s: Seq<char>, i: nat)
    requires
        i <= s.len(),
        clauses_from(s, i) is Ok,
        clauses_from(s, i)->Ok_0.len() > 0,
        !ends_with_separator(s),
    ensures
        clauses_from(s.push(','), i) == clauses_from(s, i),
    decreases s.len() - i,
{
    let s2 = s.push(',');
    lemma_next_token_push_comma(s, i as int);
    lemma_match_at_push_comma(s, i as int);
    lemma_match_at_bounds(s, i as int);
    if let Ok((c, j)) = match_at(s, i as int) {
        lemma_next_token_bounds(s, j);
        lemma_next_token_push_comma(s, j);
        let sep = next_token(s, j);
        if sep.0 == TokenKind::End {
            let end = (s.len() + 1) as nat;
            assert(skip_space(s2, end as int) == end);
            reveal(next_token);
            assert(next_token(s2, end as int).0 == TokenKind::End);
            assert(clauses_from(s2, end) == Ok::<Seq<ClauseView>, int>(seq![]));
            assert(seq![c] + seq![] =~= seq![c]);
        } else if sep.0 == TokenKind::Comma {
            let rest = clauses_from(s, sep.2 as nat);
            if rest->Ok_0.len() == 0 {
                lemma_empty_rest_is_spaces(s, sep.2 as nat);
                assert(ends_with_separator(s));
            } else {
                lemma_clauses_from_push_comma(s, sep.2 as nat);
            }
        }
    }
}

/// A separator after the last clause is optional: a clause list that does
/// not already end with one parses to the same clauses with one appended.
pub proof fn lemma_trailing_separator(s: Seq<char>)
    requires
        input_text(s) is Ok,
        input_text(s)->Ok_0.len() > 0,
        !ends_with_separator(s),
    ensures
        input_text(s.push(',')) == input_text(s),
{
    lemma_clauses_from_push_comma(s, 0);
}

fn read_brand(text: &str, n: usize, i: usize) -> (r: Result<(WLBrand, usize), usize>)
    requires
        n == text@.len(),
        i <= n,
    ensures
        match r {
            Ok((b, j)) => brand_at(text@, i as int) == Ok::<(Option<Seq<char>>, int), int>((b@, j as int)),
            Err(e) => brand_at(text@, i as int) == Err::<(Option<Seq<char>>, int), int>(e as int),
        },
        r matches Ok((b, j)) ==> i < j <= n,
{
    reveal(brand_at);
    let t = read_token(text, n, i);
    proof {
        lemma_next_token_bounds(text@, i as int);
    }
    if t.0 == TokenKind::Wild {
        Ok((WLBrand::Wildcard, t.2))
    } else if t.0 == TokenKind::Quoted || t.0 == TokenKind::Word {
        let piece = text.substring_char(t.1, t.2);
        match read_string_literal(piece) {
            Some(v) => Ok((WLBrand::Named(v), t.2)),
            None => Err(t.1),
        }
    } else {
        Err(t.1)
    }
}

fn read_match(text: &str, n: usize, i: usize) -> (r: Result<(WLMatch, usize), usize>)
    requires
        n == text@.len(),
        i <= n,
    ensures
        match r {
            Ok((m, j)) => match_at(text@, i as int) == Ok::<(ClauseView, int), int>((m@, j as int)),
            Err(e) => match_at(text@, i as int) == Err::<(ClauseView, int), int>(e as int),
        },
        r matches Ok((m, j)) ==> i < j <= n,
{
    reveal(match_at);
    let (brand, j) = match read_brand(text, n, i) {
        Ok(p) => p,
        Err(e) => return Err(e),
    };
    proof {
        lemma_next_token_bounds(text@, i as int);
    }
    let a = read_token(text, n, j);
    if a.0 != TokenKind::Arrow {
        return Err(a.1);
    }
    proof {
        lemma_next_token_bounds(text@, j as int);
        lemma_next_token_bounds(text@, a.2 as int);
    }
    let v = read_token(text, n, a.2);
    if v.0 != TokenKind::Quoted && v.0 != TokenKind::Word {
        return Err(v.1);
    }
    let piece = text.substring_char(v.1, v.2);
    match read_literal_kind(piece) {
        Some(kind) => {
            let literal = Value { kind, text: piece.to_owned() };
            Ok((WLMatch { brand, literal }, v.2))
        },
        None => Err(v.1),
    }
}

impl WLBrand {
    /// Parses `text` as exactly one pattern.
    pub fn parse(text: &str) -> (r: Result<WLBrand, BrandError>)
        ensures
            match r {
                Ok(b) => brand_text(text@) == Ok::<Option<Seq<char>>, int>(b@),
                Err(e) => brand_text(text@) is Err && e == syntax_error(brand_text(text@)),
            },
    {
        let n = text.unicode_len();
        match read_brand(text, n, 0) {
            Err(e) => Err(BrandError::Syntax(e)),
            Ok((b, j)) => {
                proof {
                    lemma_next_token_bounds(text@, 0);
                }
                let t = read_token(text, n, j);
                if t.0 == TokenKind::End {
                    Ok(b)
                } else {
                    Err(BrandError::Syntax(t.1))
                }
            },
        }
    }
}

impl WLMatch {
    /// Parses `text` as exactly one clause.
    pub fn parse(text: &str) -> (r: Result<WLMatch, BrandError>)
        ensures
            match r {
                Ok(m) => match_text(text@) == Ok::<ClauseView, int>(m@),
                Err(e) => match_text(text@) is Err && e == syntax_error(match_text(text@)),
            },
    {
        let n = text.unicode_len();
        match read_match(text, n, 0) {
            Err(e) => Err(BrandError::Syntax(e)),
            Ok((m, j)) => {
                proof {
                    lemma_match_at_bounds(text@, 0);
                }
                let t = read_token(text, n, j);
                if t.0 == TokenKind::End {
                    Ok(m)
                } else {
                    Err(BrandError::Syntax(t.1))
                }
            },
        }
    }
}

impl WLInput {
    /// Parses `text` as a clause list.
    #[verifier::rlimit(40)]
    pub fn parse(text: &str) -> (r: Result<WLInput, BrandError>)
        ensures
            match r {
                Ok(input) => input_text(text@) == Ok::<Seq<ClauseView>, int>(input@),
                Err(e) => input_text(text@) is Err && e == syntax_error(input_text(text@)),
            },
    {
        let ghost s = text@;
        let n = text.unicode_len();
        let mut matches: Vec<WLMatch> = Vec::new();
        let mut i: usize = 0;
        loop
            invariant
                i <= n,
                n == s.len(),
                s == text@,
                clauses_from(s, 0) == prepend(clause_views(matches@), clauses_from(s, i as nat)),
            decreases n - i,
        {
            let t = read_token(text, n, i);
            if t.0 == TokenKind::End {
                assert(clause_views(matches@) + seq![] =~= clause_views(matches@));
                return Ok(WLInput { matches });
            }
            let (m, j) = match read_match(text, n, i) {
                Ok(p) => p,
                Err(e) => return Err(BrandError::Syntax(e)),
            };
            proof {
                lemma_match_at_bounds(s, i as int);
                lemma_next_token_bounds(s, j as int);
            }
            let sep = read_token(text, n, j);
            if sep.0 == TokenKind::End {
                let ghost pre = clause_views(matches@);
                matches.push(m);
                assert(clause_views(matches@) =~= pre + seq![m@]);
                return Ok(WLInput { matches });
            } else if sep.0 == TokenKind::Comma {
                let ghost pre = clause_views(matches@);
                let ghost c = m@;
                matches.push(m);
                assert(clause_views(matches@) =~= pre + seq![c]);
                proof {
                    match clauses_from(s, sep.2 as nat) {
                        Ok(rest) => {
                            assert(pre + (seq![c] + rest) =~= (pre + seq![c]) + rest);
                        },
                        Err(_) => {},
                    }
                }
                i = sep.2;
            } else {
                return Err(BrandError::Syntax(sep.1));
            }
        }
    }
}

} // verus!
