//! A client library for a package-tracking service: it retrieves package
//! metadata and known-problem reports, filters them by repository, ranks them
//! by version, and renders them for a human or machine consumer.

use vstd::prelude::*;

pub mod codec;
pub mod error;
pub mod filter;
pub mod frontend;
pub mod json;
pub mod packagefilters;
pub mod rank;
pub mod source;
pub mod strutil;
pub mod types;

verus! {

/// A whitelist entry always wins over a blacklist entry; a repository on
/// neither list is accepted.
pub open spec fn spec_repo_accepted(
    repo: Seq<char>,
    blacklist: Seq<Seq<char>>,
    whitelist: Seq<Seq<char>>,
) -> bool {
    !blacklist.contains(repo) || whitelist.contains(repo)
}

} // verus!
