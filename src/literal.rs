//! The two places where Rust's literal syntax is read, both through syn.
use vstd::prelude::*;
use crate::clause::LitKind;
use syn::Lit;

verus! {

/// The unescaped content of `text` read as exactly one Rust string literal,
/// or `None` where `text` is not one.
pub uninterp spec fn string_literal_value(text: Seq<char>) -> Option<Seq<char>>;

/// The kind of `text` read as exactly one Rust literal, or `None` where
/// `text` is not one.
pub uninterp spec fn literal_kind(text: Seq<char>) -> Option<LitKind>;

/// Relies on `syn::parse_str::<syn::LitStr>`, which accepts exactly one
/// string literal, and on `syn::LitStr::value`, which unescapes it.
#[verifier::external_body]
pub(crate) fn read_string_literal(text: &str) -> (r: Option<String>)
    ensures
        match r {
            Some(v) => string_literal_value(text@) == Some(v@),
            None => string_literal_value(text@) is None,
        },
{
    match syn::parse_str::<syn::LitStr>(text) {
        Ok(lit) => Some(lit.value()),
        Err(_) => None,
    }
}

/// Relies on `syn::parse_str::<syn::Lit>`, which accepts exactly one literal
/// token and tells its kind by the variant of `syn::Lit`.
#[verifier::external_body]
pub(crate) fn read_literal_kind(text: &str) -> (r: Option<LitKind>)
    ensures
        r == literal_kind(text@),
{
    match syn::parse_str::<Lit>(text) {
        Ok(Lit::Str(_)) => Some(LitKind::Str),
        Ok(Lit::ByteStr(_)) => Some(LitKind::ByteStr),
        Ok(Lit::CStr(_)) => Some(LitKind::CStr),
        Ok(Lit::Byte(_)) => Some(LitKind::Byte),
        Ok(Lit::Char(_)) => Some(LitKind::Char),
        Ok(Lit::Int(_)) => Some(LitKind::Int),
        Ok(Lit::Float(_)) => Some(LitKind::Float),
        Ok(Lit::Bool(_)) => Some(LitKind::Bool),
        Ok(_) => Some(LitKind::Verbatim),
        Err(_) => None,
    }
}

} // verus!
