//! Selecting the literal of the first clause whose pattern matches the
//! configured brand.
use vstd::prelude::*;
use crate::clause::{clause_views, BrandError, ClauseView, Value, ValueView, WLBrand, WLInput};
use crate::parser::{input_text, syntax_error};

verus! {

/// A named pattern matches its exact name; the wildcard matches any brand.
pub open spec fn brand_matches(p: Option<Seq<char>>, brand: Seq<char>) -> bool {
    p is None || p == Some(brand)
}

/// The index of the first clause at or after `i` whose pattern matches.
pub open spec fn first_match_from(cs: Seq<ClauseView>, brand: Seq<char>, i: nat) -> Option<nat>
    decreases cs.len() - i,
{
    if i < cs.len() {
        if brand_matches(cs[i as int].0, brand) {
            Some(i)
        } else {
            first_match_from(cs, brand, i + 1)
        }
    } else {
        None
    }
}

/// The index of the first clause whose pattern matches.
pub open spec fn first_match(cs: Seq<ClauseView>, brand: Seq<char>) -> Option<nat> {
    first_match_from(cs, brand, 0)
}

/// The configured brand's characters, where one is configured.
pub open spec fn config_view(config: Option<&str>) -> Option<Seq<char>> {
    match config {
        Some(b) => Some(b@),
        None => None,
    }
}

/// The outcome of resolving the clauses `cs` for the configured brand: the
/// value of the first matching clause.
pub open spec fn resolution(cs: Seq<ClauseView>, config: Option<Seq<char>>) -> Result<
    ValueView,
    BrandError,
> {
    match config {
        None => Err(BrandError::ConfigMissing),
        Some(b) => match first_match(cs, b) {
            Some(k) => Ok(cs[k as int].1),
            None => Err(BrandError::NoMatch),
        },
    }
}

/// The outcome of parsing the clause text `s` and resolving it.
pub open spec fn brand_outcome(s: Seq<char>, config: Option<Seq<char>>) -> Result<
    ValueView,
    BrandError,
> {
    match input_text(s) {
        Err(_) => Err(syntax_error(input_text(s))),
        Ok(cs) => resolution(cs, config),
    }
}

/// What a returned value, or error, is as an outcome.
pub open spec fn outcome_view(r: Result<Value, BrandError>) -> Result<ValueView, BrandError> {
    match r {
        Ok(v) => Ok(v@),
        Err(e) => Err(e),
    }
}

impl WLInput {
    /// Scans the clauses in order and hands back the value of the first one
    /// that matches `config`.
    pub fn resolve(self, config: Option<&str>) -> (r: Result<Value, BrandError>)
        ensures
            outcome_view(r) == resolution(self@, config_view(config)),
    {
        let name = match config {
            None => return Err(BrandError::ConfigMissing),
            Some(b) => b.to_owned(),
        };
        let ghost cs = self@;
        let mut matches = self.matches;
        let mut i: usize = 0;
        while i < matches.len()
            invariant
                i <= matches@.len(),
                matches@ == self.matches@,
                cs == clause_views(matches@),
                config_view(config) == Some(name@),
                first_match(cs, name@) == first_match_from(cs, name@, i as nat),
            decreases matches@.len() - i,
        {
            let hit = match &matches[i].brand {
                WLBrand::Named(s) => s.eq(&name),
                WLBrand::Wildcard => true,
            };
            assert(cs[i as int] == matches@[i as int]@);
            if hit {
                let m = matches.swap_remove(i);
                return Ok(m.literal);
            }
            i = i + 1;
        }
        Err(BrandError::NoMatch)
    }
}

/// Parses the clause list `text` and resolves it for the configured brand.
pub fn brand(text: &str, config: Option<&str>) -> (r: Result<Value, BrandError>)
    ensures
        outcome_view(r) == brand_outcome(text@, config_view(config)),
{
    let input = WLInput::parse(text)?;
    input.resolve(config)
}

/// Parsing and resolving is a function of the clause text and the
/// configured brand: any two results that `brand` may return for the same
/// text and the same configuration are the same value, or the same error.
pub proof fn lemma_brand_deterministic(
    text: Seq<char>,
    config: Option<Seq<char>>,
    r1: Result<Value, BrandError>,
    r2: Result<Value, BrandError>,
)
    requires
        outcome_view(r1) == brand_outcome(text, config),
        outcome_view(r2) == brand_outcome(text, config),
    ensures
        outcome_view(r1) == outcome_view(r2),
        r1 is Ok <==> r2 is Ok,
        r1 matches Ok(v1) ==> r2 matches Ok(v2) && v1.kind == v2.kind && v1.text@ == v2.text@,
{
}

/// Without a configured brand, resolution fails with `ConfigMissing`,
/// whatever the clauses are, a lone wildcard included.
pub proof fn lemma_missing_config_fails(cs: Seq<ClauseView>)
    ensures
        resolution(cs, None) == Err::<ValueView, BrandError>(BrandError::ConfigMissing),
{
}

/// First match wins: when clause `k` is the first whose pattern matches the
/// brand, its value is the result, whatever later clauses say. A wildcard
/// at `k` therefore shadows every later clause, a later exact name included.
pub proof fn lemma_first_match_wins(cs: Seq<ClauseView>, brand: Seq<char>, k: int)
    requires
        0 <= k < cs.len(),
        brand_matches(cs[k].0, brand),
        forall|j: int| 0 <= j < k ==> !brand_matches(#[trigger] cs[j].0, brand),
    ensures
        resolution(cs, Some(brand)) == Ok::<ValueView, BrandError>(cs[k].1),
{
    lemma_first_match_reaches(cs, brand, 0, k as nat);
}

proof fn lemma_first_match_reaches(cs: Seq<ClauseView>, brand: Seq<char>, i: nat, k: nat)
    requires
        i <= k < cs.len(),
        brand_matches(cs[k as int].0, brand),
        forall|j: int| i <= j < k ==> !brand_matches(#[trigger] cs[j].0, brand),
    ensures
        first_match_from(cs, brand, i) == Some(k),
    decreases k - i,
{
    if i < k {
        lemma_first_match_reaches(cs, brand, i + 1, k);
    }
}

/// When no pattern matches the brand and there is no wildcard, resolution
/// fails with `NoMatch`.
pub proof fn lemma_no_match_fails(cs: Seq<ClauseView>, brand: Seq<char>)
    requires
        forall|j: int| 0 <= j < cs.len() ==> !brand_matches(#[trigger] cs[j].0, brand),
    ensures
        resolution(cs, Some(brand)) == Err::<ValueView, BrandError>(BrandError::NoMatch),
{
    lemma_first_match_none(cs, brand, 0);
}

proof fn lemma_first_match_none(cs: Seq<ClauseView>, brand: Seq<char>, i: nat)
    requires
        forall|j: int| i <= j < cs.len() ==> !brand_matches(#[trigger] cs[j].0, brand),
    ensures
        first_match_from(cs, brand, i) is None,
    decreases cs.len() - i,
{
    if i < cs.len() {
        lemma_first_match_none(cs, brand, i + 1);
    }
}

/// A list made of one wildcard clause resolves to its value for every
/// configured brand, the empty name included.
pub proof fn lemma_lone_wildcard_matches(v: ValueView, brand: Seq<char>)
    ensures
        resolution(seq![(None, v)], Some(brand)) == Ok::<ValueView, BrandError>(v),
{
    lemma_first_match_wins(seq![(None::<Seq<char>>, v)], brand, 0);
}

} // verus!
