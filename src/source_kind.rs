use vstd::prelude::*;

verus! {

/// The kind of a package source, as the package manager distinguishes them
/// when it derives a cache key. Only `Registry` is ever produced here; the
/// other variants keep the derived `Hash` of `Registry` identical to the one
/// the package manager computes.
#[derive(Debug, Clone, PartialEq, Eq, PartialOrd, Ord, Hash)]
pub enum Kind {
    Git(GitReference),
    Path,
    Registry,
    LocalRegistry,
    Directory,
}

/// The revision that a git source points at.
#[derive(Debug, Clone, PartialEq, Eq, PartialOrd, Ord, Hash)]
pub enum GitReference {
    Tag(String),
    Branch(String),
    Rev(String),
}

} // verus!
