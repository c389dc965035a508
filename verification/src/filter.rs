//! The repository allow/deny policy: a predicate over repository identifiers
//! built from a blacklist and a whitelist.

use vstd::prelude::*;

use crate::spec_repo_accepted;
use crate::types::{Package, Problem};

verus! {

/// The view of a list of identifier strings: each entry as a character sequence.
pub open spec fn names_view(v: Seq<String>) -> Seq<Seq<char>> {
    v.map_values(|s: String| s@)
}

/// Whether a list of identifier strings holds the given identifier.
pub open spec fn spec_names_contain(v: Seq<String>, s: Seq<char>) -> bool {
    names_view(v).contains(s)
}

/// True if and only if one of the strings in `v` equals `s`.
fn names_contain(v: &Vec<String>, s: &str) -> (r: bool)
    ensures
        r == spec_names_contain(v@, s@),
{
    let mut i: usize = 0;
    assert(forall|k: int| 0 <= k < v@.len() ==> #[trigger] names_view(v@)[k] == v@[k]@);
    while i < v.len()
        invariant
            i <= v@.len(),
            forall|k: int| 0 <= k < v@.len() ==> #[trigger] names_view(v@)[k] == v@[k]@,
            forall|k: int| 0 <= k < i ==> names_view(v@)[k] != s@,
        decreases v@.len() - i,
    {
        if crate::strutil::str_eq(v[i].as_str(), s) {
            assert(names_view(v@)[i as int] == s@);
            return true;
        }
        i += 1;
    }
    assert(forall|k: int| 0 <= k < names_view(v@).len() ==> names_view(v@)[k] != s@);
    false
}

/// The repository filter: rejects blacklisted identifiers unless the
/// whitelist claims them.
pub struct RepoFilter {
    blacklist: Vec<String>,
    whitelist: Vec<String>,
}

impl RepoFilter {
    pub closed spec fn spec_blacklist(&self) -> Seq<Seq<char>> {
        names_view(self.blacklist@)
    }

    pub closed spec fn spec_whitelist(&self) -> Seq<Seq<char>> {
        names_view(self.whitelist@)
    }

    /// Whether this filter accepts the identifier.
    pub open spec fn spec_accepts(&self, repo: Seq<char>) -> bool {
        spec_repo_accepted(repo, self.spec_blacklist(), self.spec_whitelist())
    }

    pub fn new(blacklist: Vec<String>, whitelist: Vec<String>) -> (r: RepoFilter)
        ensures
            r.spec_blacklist() == names_view(blacklist@),
            r.spec_whitelist() == names_view(whitelist@),
    {
        RepoFilter { blacklist, whitelist }
    }

    /// Decides acceptance: not blacklisted, or claimed by the whitelist.
    pub fn accepts(&self, repo: &str) -> (r: bool)
        ensures
            r == self.spec_accepts(repo@),
    {
        !names_contain(&self.blacklist, repo) || names_contain(&self.whitelist, repo)
    }
}

/// Builds the repository filter of a run from its two configured lists.
pub fn repo_filter(blacklist: Vec<String>, whitelist: Vec<String>) -> (r: RepoFilter)
    ensures
        r.spec_blacklist() == names_view(blacklist@),
        r.spec_whitelist() == names_view(whitelist@),
{
    RepoFilter::new(blacklist, whitelist)
}

/// Keeps the packages of accepted repositories, in order.
pub fn filter_packages(f: &RepoFilter, v: Vec<Package>) -> (r: Vec<Package>)
    ensures
        r@ == v@.filter(|p: Package| f.spec_accepts(p@.repo)),
{
    let ghost pred = |p: Package| f.spec_accepts(p@.repo);
    let mut out: Vec<Package> = Vec::new();
    let mut i: usize = 0;
    proof {
        reveal_with_fuel(Seq::filter, 2);
        assert(out@ =~= v@.take(0).filter(pred));
    }
    let ghost orig = v@;
    let mut v = v;
    let n_total = v.len();
    while v.len() > 0
        invariant
            n_total == orig.len(),
            i + v@.len() == orig.len(),
            v@ == orig.skip(i as int),
            pred == (|p: Package| f.spec_accepts(p@.repo)),
            out@ == orig.take(i as int).filter(pred),
        decreases v@.len(),
    {
        let x = v.remove(0);
        proof {
            assert(x == orig[i as int]);
            assert(v@ =~= orig.skip(i as int + 1));
        }
        let keep = f.accepts(x.repo().as_str());
        proof {
            reveal_with_fuel(Seq::filter, 2);
            assert(orig.take(i as int + 1).drop_last() =~= orig.take(i as int));
            assert(orig.take(i as int + 1).last() == orig[i as int]);
        }
        if keep {
            out.push(x);
        }
        i += 1;
    }
    proof {
        assert(orig.take(i as int) =~= orig);
    }
    out
}

/// Keeps the problem reports of accepted repositories, in order.
pub fn filter_problems(f: &RepoFilter, v: Vec<Problem>) -> (r: Vec<Problem>)
    ensures
        r@ == v@.filter(|p: Problem| f.spec_accepts(p@.repo)),
{
    let ghost pred = |p: Problem| f.spec_accepts(p@.repo);
    let mut out: Vec<Problem> = Vec::new();
    let mut i: usize = 0;
    proof {
        reveal_with_fuel(Seq::filter, 2);
        assert(out@ =~= v@.take(0).filter(pred));
    }
    let ghost orig = v@;
    let mut v = v;
    let n_total = v.len();
    while v.len() > 0
        invariant
            n_total == orig.len(),
            i + v@.len() == orig.len(),
            v@ == orig.skip(i as int),
            pred == (|p: Problem| f.spec_accepts(p@.repo)),
            out@ == orig.take(i as int).filter(pred),
        decreases v@.len(),
    {
        let x = v.remove(0);
        proof {
            assert(x == orig[i as int]);
            assert(v@ =~= orig.skip(i as int + 1));
        }
        let keep = f.accepts(x.repo().as_str());
        proof {
            reveal_with_fuel(Seq::filter, 2);
            assert(orig.take(i as int + 1).drop_last() =~= orig.take(i as int));
            assert(orig.take(i as int + 1).last() == orig[i as int]);
        }
        if keep {
            out.push(x);
        }
        i += 1;
    }
    proof {
        assert(orig.take(i as int) =~= orig);
    }
    out
}

/// A predicate that rejects one repository name, as a blacklist entry does.
pub struct BlackListFilter {
    repo_name: String,
}

impl BlackListFilter {
    /// The rejected name.
    pub closed spec fn spec_name(&self) -> Seq<char> {
        self.repo_name@
    }

    pub fn new(repo_name: String) -> (r: BlackListFilter)
        ensures
            r.spec_name() == repo_name@,
    {
        BlackListFilter { repo_name }
    }

    /// Passes everything but the rejected name.
    pub fn filter(&self, element: &String) -> (r: bool)
        ensures
            r == (element@ != self.spec_name()),
    {
        !crate::strutil::str_eq(element.as_str(), self.repo_name.as_str())
    }
}

/// A whitelisted identifier is accepted no matter what the blacklist says.
pub proof fn lemma_whitelist_overrides(
    repo: Seq<char>,
    blacklist: Seq<Seq<char>>,
    whitelist: Seq<Seq<char>>,
)
    requires
        whitelist.contains(repo),
    ensures
        spec_repo_accepted(repo, blacklist, whitelist),
{
}

/// An identifier on the blacklist and not on the whitelist is rejected.
pub proof fn lemma_blacklist_rejects(
    repo: Seq<char>,
    blacklist: Seq<Seq<char>>,
    whitelist: Seq<Seq<char>>,
)
    requires
        !whitelist.contains(repo),
        blacklist.contains(repo),
    ensures
        !spec_repo_accepted(repo, blacklist, whitelist),
{
}

/// An identifier on neither list is accepted.
pub proof fn lemma_unlisted_accepted(
    repo: Seq<char>,
    blacklist: Seq<Seq<char>>,
    whitelist: Seq<Seq<char>>,
)
    requires
        !whitelist.contains(repo),
        !blacklist.contains(repo),
    ensures
        spec_repo_accepted(repo, blacklist, whitelist),
{
}

} // verus!
