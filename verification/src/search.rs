//! The structured query model handed to the compiler by the query-language
//! parser: tag, keyword and metadata predicates, combined conjunctively.

use vstd::prelude::*;

verus! {

/// The key of a metadata predicate. `Sort` and `Order` configure result
/// ordering; the other keys filter result membership.
#[derive(Clone, Copy, PartialEq, Eq, Structural)]
pub enum MetaKey {
    /// Upper bound on the item's modification date.
    DateStart,
    /// Lower bound on the item's modification date.
    DateEnd,
    /// The item belongs to the named package.
    Package,
    /// The item has the named type.
    Ty,
    /// Ordering column: one of `name`, `create` or `modify`.
    Sort,
    /// Ordering direction: `asc` or `desc`.
    Order,
}

/// A tag predicate: the item must carry (`not = false`) or must not carry
/// (`not = true`) the tag identified by `namespace` and `value`.
pub struct ParsedTag {
    pub namespace: String,
    pub value: String,
    pub not: bool,
}

/// A keyword predicate: the item's name must contain (`not = false`) or must
/// not contain (`not = true`) `value` as a substring.
pub struct ParsedKeyword {
    pub value: String,
    pub not: bool,
}

/// A metadata predicate. Of several predicates with the same key, only the
/// first (in query order) is honored.
pub struct ParsedMeta {
    pub key: MetaKey,
    pub not: bool,
    pub value: String,
}

/// A parsed query: the conjunction of its tag, keyword and metadata
/// predicates.
pub struct Search {
    pub tags: Vec<ParsedTag>,
    pub keywords: Vec<ParsedKeyword>,
    pub meta: Vec<ParsedMeta>,
}

} // verus!
