//! Clauses: a pattern (a brand name or the wildcard) paired with a literal.
use vstd::prelude::*;

verus! {

/// A clause's pattern: `"Name"` or `_`.
pub enum WLBrand {
    Named(String),
    Wildcard,
}

/// The kind of a literal, as Rust's literal syntax gives it.
#[derive(Clone, Copy, Debug, PartialEq, Eq, Structural)]
pub enum LitKind {
    Str,
    ByteStr,
    CStr,
    Byte,
    Char,
    Int,
    Float,
    Bool,
    /// A literal token of no kind listed above.
    Verbatim,
}

/// A clause's value: the literal exactly as written, with its kind. It is
/// carried through resolution unchanged.
pub struct Value {
    pub kind: LitKind,
    pub text: String,
}

pub type ValueView = (LitKind, Seq<char>);

impl View for Value {
    type V = ValueView;

    open spec fn view(&self) -> ValueView {
        (self.kind, self.text@)
    }
}

/// A clause as it is reasoned about: the pattern (`None` for the wildcard)
/// and the value.
pub type ClauseView = (Option<Seq<char>>, ValueView);

impl View for WLBrand {
    type V = Option<Seq<char>>;

    open spec fn view(&self) -> Option<Seq<char>> {
        match self {
            WLBrand::Named(s) => Some(s@),
            WLBrand::Wildcard => None,
        }
    }
}

/// One `pattern => literal` clause.
pub struct WLMatch {
    pub brand: WLBrand,
    pub literal: Value,
}

impl View for WLMatch {
    type V = ClauseView;

    open spec fn view(&self) -> ClauseView {
        (self.brand@, self.literal@)
    }
}

/// A whole clause list, in source order.
pub struct WLInput {
    pub matches: Vec<WLMatch>,
}

pub open spec fn clause_views(ms: Seq<WLMatch>) -> Seq<ClauseView> {
    ms.map_values(|m: WLMatch| m@)
}

impl View for WLInput {
    type V = Seq<ClauseView>;

    open spec fn view(&self) -> Seq<ClauseView> {
        clause_views(self.matches@)
    }
}

/// Why a brand could not be selected.
#[derive(Clone, Copy, Debug, PartialEq, Eq, Structural)]
pub enum BrandError {
    /// No brand is configured.
    ConfigMissing,
    /// The brand is configured, no clause names it and there is no wildcard.
    NoMatch,
    /// The clause text breaks the grammar at this character position.
    Syntax(usize),
}

} // verus!
