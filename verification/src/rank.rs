//! Ranking and selection: stable sorting of records by a string key, and the
//! "latest" reduction that keeps the single best version, by lexicographic or
//! by semantic-version comparison.

use vstd::prelude::*;
use vstd::multiset::Multiset;

use crate::strutil::{
    lex_cmp, lex_le, lemma_lex_cmp_flip, lemma_lex_le_total, lemma_lex_le_trans, str_cmp, Order,
};
use crate::types::Package;
use crate::types::Problem;

verus! {

/// The key packages are sorted by.
#[derive(Clone, Copy, Debug, PartialEq, Eq, Structural)]
pub enum PackageSortMode {
    ByVersion,
    ByRepo,
}

/// The key problem reports are sorted by.
#[derive(Clone, Copy, Debug, PartialEq, Eq, Structural)]
pub enum ProblemSortMode {
    ByMaintainer,
    ByRepo,
}

/// How the "latest" reduction compares two version strings.
#[derive(Clone, Copy, Debug, PartialEq, Eq, Structural)]
pub enum LatestMode {
    Lexicographic,
    Semantic,
}

pub open spec fn package_key(mode: PackageSortMode, p: Package) -> Seq<char> {
    match mode {
        PackageSortMode::ByVersion => p@.version,
        PackageSortMode::ByRepo => p@.repo,
    }
}

pub open spec fn problem_key(mode: ProblemSortMode, p: Problem) -> Seq<char> {
    match mode {
        ProblemSortMode::ByMaintainer => p@.maintainer,
        ProblemSortMode::ByRepo => p@.repo,
    }
}

// ---------------------------------------------------------------------------
// Stable sorting, specified as insertion of each element, in input order,
// after all earlier elements whose key is no later.
// ---------------------------------------------------------------------------

/// Inserts `x` after every element of `s` whose key is less than or equal to
/// the key of `x`.
pub open spec fn insert_by_key<T>(x: T, s: Seq<T>, key: spec_fn(T) -> Seq<char>) -> Seq<T>
    decreases s.len(),
{
    if s.len() == 0 {
        seq![x]
    } else if lex_le(key(s[0]), key(x)) {
        seq![s[0]] + insert_by_key(x, s.drop_first(), key)
    } else {
        seq![x] + s
    }
}

/// The position at which `insert_by_key` places its element.
pub open spec fn insert_pos<T>(x: T, s: Seq<T>, key: spec_fn(T) -> Seq<char>) -> int
    decreases s.len(),
{
    if s.len() == 0 {
        0
    } else if lex_le(key(s[0]), key(x)) {
        1 + insert_pos(x, s.drop_first(), key)
    } else {
        0
    }
}

/// The stable ascending sort of `s` by `key`: each element is inserted, in
/// input order, after all earlier elements with a key no later than its own.
pub open spec fn sort_by_key<T>(s: Seq<T>, key: spec_fn(T) -> Seq<char>) -> Seq<T>
    decreases s.len(),
{
    if s.len() == 0 {
        Seq::empty()
    } else {
        insert_by_key(s.last(), sort_by_key(s.drop_last(), key), key)
    }
}

/// Keys appear in ascending order.
pub open spec fn sorted_by_key<T>(s: Seq<T>, key: spec_fn(T) -> Seq<char>) -> bool {
    forall|i: int, j: int| 0 <= i < j < s.len() ==> lex_le(key(s[i]), key(s[j]))
}

/// Filtering a sequence with no matching element yields the empty sequence.
proof fn lemma_filter_empty<T>(s: Seq<T>, pred: spec_fn(T) -> bool)
    requires
        forall|i: int| 0 <= i < s.len() ==> !pred(s[i]),
    ensures
        s.filter(pred) == Seq::<T>::empty(),
    decreases s.len(),
{
    reveal_with_fuel(Seq::filter, 2);
    if s.len() > 0 {
        lemma_filter_empty(s.drop_last(), pred);
        assert(s.filter(pred) =~= Seq::<T>::empty());
    } else {
        assert(s.filter(pred) =~= Seq::<T>::empty());
    }
}

/// `insert_by_key` splits the sequence at `insert_pos`, with every element
/// before that position keyed no later than the inserted one.
proof fn lemma_insert_shape<T>(x: T, s: Seq<T>, key: spec_fn(T) -> Seq<char>)
    ensures
        0 <= insert_pos(x, s, key) <= s.len(),
        insert_by_key(x, s, key) == s.take(insert_pos(x, s, key)) + seq![x] + s.skip(
            insert_pos(x, s, key),
        ),
        forall|i: int| 0 <= i < insert_pos(x, s, key) ==> lex_le(#[trigger] key(s[i]), key(x)),
        insert_pos(x, s, key) < s.len() ==> !lex_le(key(s[insert_pos(x, s, key)]), key(x)),
    decreases s.len(),
{
    let p = insert_pos(x, s, key);
    if s.len() == 0 {
        assert(insert_by_key(x, s, key) =~= s.take(0) + seq![x] + s.skip(0));
    } else if lex_le(key(s[0]), key(x)) {
        lemma_insert_shape(x, s.drop_first(), key);
        let q = insert_pos(x, s.drop_first(), key);
        assert(p == q + 1);
        assert(s.take(p) =~= seq![s[0]] + s.drop_first().take(q));
        assert(s.skip(p) =~= s.drop_first().skip(q));
        assert(insert_by_key(x, s, key) =~= s.take(p) + seq![x] + s.skip(p));
        assert forall|i: int| 0 <= i < p implies lex_le(#[trigger] key(s[i]), key(x)) by {
            if i > 0 {
                assert(s[i] == s.drop_first()[i - 1]);
            }
        }
    } else {
        assert(insert_by_key(x, s, key) =~= s.take(0) + seq![x] + s.skip(0));
    }
}

/// Inserting adds exactly one occurrence of the inserted element.
proof fn lemma_insert_multiset<T>(x: T, s: Seq<T>, key: spec_fn(T) -> Seq<char>)
    ensures
        insert_by_key(x, s, key).to_multiset() =~= s.to_multiset().insert(x),
{
    broadcast use vstd::seq_lib::group_seq_properties;

    lemma_insert_shape(x, s, key);
    let p = insert_pos(x, s, key);
    vstd::seq_lib::lemma_multiset_commutative(s.take(p) + seq![x], s.skip(p));
    vstd::seq_lib::lemma_multiset_commutative(s.take(p), seq![x]);
    vstd::seq_lib::lemma_multiset_commutative(s.take(p), s.skip(p));
    assert(s.take(p) + s.skip(p) =~= s);
    assert(seq![x] =~= Seq::empty().push(x));
    assert(seq![x].to_multiset() =~= Multiset::empty().insert(x));
}

/// Inserting into a sorted sequence keeps it sorted.
proof fn lemma_insert_sorted<T>(x: T, s: Seq<T>, key: spec_fn(T) -> Seq<char>)
    requires
        sorted_by_key(s, key),
    ensures
        sorted_by_key(insert_by_key(x, s, key), key),
{
    lemma_insert_shape(x, s, key);
    let p = insert_pos(x, s, key);
    let r = insert_by_key(x, s, key);
    assert forall|i: int, j: int| 0 <= i < j < r.len() implies lex_le(key(r[i]), key(r[j])) by {
        let si = if i < p {
            s[i]
        } else if i == p {
            x
        } else {
            s[i - 1]
        };
        let sj = if j < p {
            s[j]
        } else if j == p {
            x
        } else {
            s[j - 1]
        };
        assert(r[i] == si);
        assert(r[j] == sj);
        if i == p && j > p {
            // x precedes the strictly greater element at p and all after it
            lemma_lex_cmp_flip(key(x), key(s[p]));
            if j - 1 > p {
                lemma_lex_le_trans(key(x), key(s[p]), key(s[j - 1]));
            }
        }
    }
}

/// Inserting an element keyed `k` appends it to the key-`k` subsequence; the
/// subsequences of the other keys are untouched.
#[verifier::rlimit(50)]
proof fn lemma_insert_filter<T>(x: T, s: Seq<T>, key: spec_fn(T) -> Seq<char>, k: Seq<char>)
    requires
        sorted_by_key(s, key),
    ensures
        key(x) == k ==> insert_by_key(x, s, key).filter(|y: T| key(y) == k) == s.filter(
            |y: T| key(y) == k,
        ).push(x),
        key(x) != k ==> insert_by_key(x, s, key).filter(|y: T| key(y) == k) == s.filter(
            |y: T| key(y) == k,
        ),
{
    broadcast use vstd::seq_lib::group_seq_properties;

    lemma_insert_shape(x, s, key);
    let p = insert_pos(x, s, key);
    let pred = |y: T| key(y) == k;
    Seq::filter_distributes_over_add(s.take(p) + seq![x], s.skip(p), pred);
    Seq::filter_distributes_over_add(s.take(p), seq![x], pred);
    Seq::filter_distributes_over_add(s.take(p), s.skip(p), pred);
    assert(s.take(p) + s.skip(p) =~= s);
    reveal_with_fuel(Seq::filter, 2);
    assert(seq![x].drop_last() =~= Seq::<T>::empty());
    if key(x) == k {
        assert(seq![x].filter(pred) =~= seq![x]);
        // no element at or after the insertion point carries key k
        assert forall|i: int| 0 <= i < s.skip(p).len() implies !pred(s.skip(p)[i]) by {
            assert(s.skip(p)[i] == s[p + i]);
            if pred(s[p + i]) {
                crate::strutil::lemma_lex_le_refl(key(x));
                if i > 0 {
                    lemma_lex_le_trans(key(s[p]), key(s[p + i]), key(x));
                }
                assert(lex_le(key(s[p]), key(x)));
                assert(false);
            }
        }
        lemma_filter_empty(s.skip(p), pred);
        assert(s.filter(pred) =~= s.take(p).filter(pred));
        assert(insert_by_key(x, s, key).filter(pred) =~= s.filter(pred).push(x));
    } else {
        assert(seq![x].filter(pred) =~= Seq::<T>::empty());
        assert(insert_by_key(x, s, key).filter(pred) =~= s.filter(pred));
    }
}

/// Sorting permutes the input: the multiset of elements is unchanged.
pub proof fn lemma_sort_permutes<T>(s: Seq<T>, key: spec_fn(T) -> Seq<char>)
    ensures
        sort_by_key(s, key).to_multiset() =~= s.to_multiset(),
    decreases s.len(),
{
    broadcast use vstd::seq_lib::group_to_multiset_ensures;

    if s.len() > 0 {
        lemma_sort_permutes(s.drop_last(), key);
        lemma_insert_multiset(s.last(), sort_by_key(s.drop_last(), key), key);
        assert(s =~= s.drop_last().push(s.last()));
        assert(s.drop_last().push(s.last()).to_multiset() =~= s.drop_last().to_multiset().insert(
            s.last(),
        ));
    }
}

/// Sorting yields ascending keys.
pub proof fn lemma_sort_sorted<T>(s: Seq<T>, key: spec_fn(T) -> Seq<char>)
    ensures
        sorted_by_key(sort_by_key(s, key), key),
    decreases s.len(),
{
    if s.len() > 0 {
        lemma_sort_sorted(s.drop_last(), key);
        lemma_insert_sorted(s.last(), sort_by_key(s.drop_last(), key), key);
    }
}

/// Sorting is stable: for every key value, the elements carrying that key
/// appear in the output in their input order.
pub proof fn lemma_sort_stable<T>(s: Seq<T>, key: spec_fn(T) -> Seq<char>, k: Seq<char>)
    ensures
        sort_by_key(s, key).filter(|y: T| key(y) == k) == s.filter(|y: T| key(y) == k),
    decreases s.len(),
{
    reveal_with_fuel(Seq::filter, 2);
    let pred = |y: T| key(y) == k;
    if s.len() == 0 {
        assert(sort_by_key(s, key).filter(pred) =~= s.filter(pred));
    } else {
        lemma_sort_stable(s.drop_last(), key, k);
        lemma_sort_sorted(s.drop_last(), key);
        lemma_insert_filter(s.last(), sort_by_key(s.drop_last(), key), key, k);
        assert(s.filter(pred) == if pred(s.last()) {
            s.drop_last().filter(pred).push(s.last())
        } else {
            s.drop_last().filter(pred)
        });
    }
}

/// `insert_pos` is the first position whose key is later than the key of `x`.
proof fn lemma_insert_pos_of_scan<T>(x: T, s: Seq<T>, key: spec_fn(T) -> Seq<char>, j: int)
    requires
        0 <= j <= s.len(),
        forall|i: int| 0 <= i < j ==> lex_le(#[trigger] key(s[i]), key(x)),
        j < s.len() ==> !lex_le(key(s[j]), key(x)),
    ensures
        insert_pos(x, s, key) == j,
    decreases s.len(),
{
    if s.len() > 0 {
        if j == 0 {
        } else {
            assert(lex_le(key(s[0]), key(x)));
            assert forall|i: int| 0 <= i < j - 1 implies lex_le(
                #[trigger] key(s.drop_first()[i]),
                key(x),
            ) by {
                assert(s.drop_first()[i] == s[i + 1]);
            }
            if j - 1 < s.drop_first().len() {
                assert(s.drop_first()[j - 1] == s[j]);
            }
            lemma_insert_pos_of_scan(x, s.drop_first(), key, j - 1);
        }
    }
}

// ---------------------------------------------------------------------------
// Executable sorting
// ---------------------------------------------------------------------------

/// Whether the sort key of `a` is no later than the sort key of `b`.
fn package_key_le(mode: PackageSortMode, a: &Package, b: &Package) -> (r: bool)
    ensures
        r == lex_le(package_key(mode, *a), package_key(mode, *b)),
{
    let o = match mode {
        PackageSortMode::ByVersion => str_cmp(a.version().as_str(), b.version().as_str()),
        PackageSortMode::ByRepo => str_cmp(a.repo().as_str(), b.repo().as_str()),
    };
    o != Order::Greater
}

fn problem_key_le(mode: ProblemSortMode, a: &Problem, b: &Problem) -> (r: bool)
    ensures
        r == lex_le(problem_key(mode, *a), problem_key(mode, *b)),
{
    let o = match mode {
        ProblemSortMode::ByMaintainer => str_cmp(a.maintainer().as_str(), b.maintainer().as_str()),
        ProblemSortMode::ByRepo => str_cmp(a.repo().as_str(), b.repo().as_str()),
    };
    o != Order::Greater
}

/// Stable ascending sort of packages by the chosen key.
pub fn sort_packages(v: Vec<Package>, mode: PackageSortMode) -> (r: Vec<Package>)
    ensures
        r@ == sort_by_key(v@, |p: Package| package_key(mode, p)),
{
    let ghost key = |p: Package| package_key(mode, p);
    let ghost orig = v@;
    let mut v = v;
    let mut out: Vec<Package> = Vec::new();
    let mut i: usize = 0;
    let n_total = v.len();
    proof {
        assert(orig.take(0) =~= Seq::<Package>::empty());
    }
    while v.len() > 0
        invariant
            n_total == orig.len(),
            i + v@.len() == orig.len(),
            v@ == orig.skip(i as int),
            out@ == sort_by_key(orig.take(i as int), key),
            key == (|p: Package| package_key(mode, p)),
        decreases v@.len(),
    {
        let x = v.remove(0);
        proof {
            assert(x == orig[i as int]);
            assert(v@ =~= orig.skip(i as int + 1));
        }
        let ghost pre = out@;
        let mut j: usize = 0;
        while j < out.len() && package_key_le(mode, &out[j], &x)
            invariant
                j <= out@.len(),
                out@ == pre,
                key == (|p: Package| package_key(mode, p)),
                forall|t: int| 0 <= t < j ==> lex_le(#[trigger] key(out@[t]), key(x)),
            decreases out@.len() - j,
        {
            j += 1;
        }
        out.insert(j, x);
        proof {
            lemma_insert_pos_of_scan(x, pre, key, j as int);
            lemma_insert_shape(x, pre, key);
            assert(pre.insert(j as int, x) =~= pre.take(j as int) + seq![x] + pre.skip(j as int));
            assert(orig.take(i as int + 1).drop_last() =~= orig.take(i as int));
            assert(orig.take(i as int + 1).last() == x);
            assert(out@ == insert_by_key(x, sort_by_key(orig.take(i as int), key), key));
            assert(out@ == sort_by_key(orig.take(i as int + 1), key));
        }
        i += 1;
    }
    proof {
        assert(orig.take(i as int) =~= orig);
    }
    out
}

/// Stable ascending sort of problem reports by the chosen key.
pub fn sort_problems(v: Vec<Problem>, mode: ProblemSortMode) -> (r: Vec<Problem>)
    ensures
        r@ == sort_by_key(v@, |p: Problem| problem_key(mode, p)),
{
    let ghost key = |p: Problem| problem_key(mode, p);
    let ghost orig = v@;
    let mut v = v;
    let mut out: Vec<Problem> = Vec::new();
    let mut i: usize = 0;
    let n_total = v.len();
    proof {
        assert(orig.take(0) =~= Seq::<Problem>::empty());
    }
    while v.len() > 0
        invariant
            n_total == orig.len(),
            i + v@.len() == orig.len(),
            v@ == orig.skip(i as int),
            out@ == sort_by_key(orig.take(i as int), key),
            key == (|p: Problem| problem_key(mode, p)),
        decreases v@.len(),
    {
        let x = v.remove(0);
        proof {
            assert(x == orig[i as int]);
            assert(v@ =~= orig.skip(i as int + 1));
        }
        let ghost pre = out@;
        let mut j: usize = 0;
        while j < out.len() && problem_key_le(mode, &out[j], &x)
            invariant
                j <= out@.len(),
                out@ == pre,
                key == (|p: Problem| problem_key(mode, p)),
                forall|t: int| 0 <= t < j ==> lex_le(#[trigger] key(out@[t]), key(x)),
            decreases out@.len() - j,
        {
            j += 1;
        }
        out.insert(j, x);
        proof {
            lemma_insert_pos_of_scan(x, pre, key, j as int);
            lemma_insert_shape(x, pre, key);
            assert(pre.insert(j as int, x) =~= pre.take(j as int) + seq![x] + pre.skip(j as int));
            assert(orig.take(i as int + 1).drop_last() =~= orig.take(i as int));
            assert(orig.take(i as int + 1).last() == x);
            assert(out@ == insert_by_key(x, sort_by_key(orig.take(i as int), key), key));
            assert(out@ == sort_by_key(orig.take(i as int + 1), key));
        }
        i += 1;
    }
    proof {
        assert(orig.take(i as int) =~= orig);
    }
    out
}

// ---------------------------------------------------------------------------
// "Latest" selection
// ---------------------------------------------------------------------------

/// Whether the string parses as a semantic version. Named for the outcome of
/// `semver::Version::parse`, which depends on the string alone.
pub uninterp spec fn semver_parses(s: Seq<char>) -> bool;

/// The comparison of two version strings that both parse, under semver's
/// total order: precedence, with ties broken by build metadata. Named for
/// the outcome of `Ord` on `semver::Version`, which depends on the two
/// strings alone.
pub uninterp spec fn semver_cmp(a: Seq<char>, b: Seq<char>) -> Order;

/// Relies on `semver::Version::parse` and on `Ord for semver::Version`
/// (semver's total order: precedence, then build metadata): parses both
/// strings, and compares the two versions when both parse. Both outcomes
/// depend on the strings alone.
#[verifier::external_body]
fn semver_compare(a: &str, b: &str) -> (r: Option<Order>)
    ensures
        r is Some <==> (semver_parses(a@) && semver_parses(b@)),
        r is Some ==> r->0 == semver_cmp(a@, b@),
{
    match (semver::Version::parse(a), semver::Version::parse(b)) {
        (Ok(x), Ok(y)) => Some(
            match x.cmp(&y) {
                std::cmp::Ordering::Less => Order::Less,
                std::cmp::Ordering::Equal => Order::Equal,
                std::cmp::Ordering::Greater => Order::Greater,
            },
        ),
        _ => None,
    }
}

/// The comparison the "latest" reduction applies to two version strings: the
/// lexicographic order by default; in semantic mode semver's total order
/// when both strings parse, and `Equal` otherwise — the documented lenient
/// fallback.
pub open spec fn vers_cmp(mode: LatestMode, a: Seq<char>, b: Seq<char>) -> Order {
    match mode {
        LatestMode::Lexicographic => lex_cmp(a, b),
        LatestMode::Semantic => if semver_parses(a) && semver_parses(b) {
            semver_cmp(a, b)
        } else {
            Order::Equal
        },
    }
}

/// Compares two version strings per the chosen mode.
pub fn version_compare(mode: LatestMode, a: &str, b: &str) -> (r: Order)
    ensures
        r == vers_cmp(mode, a@, b@),
{
    match mode {
        LatestMode::Lexicographic => str_cmp(a, b),
        LatestMode::Semantic => match semver_compare(a, b) {
            Some(o) => o,
            None => Order::Equal,
        },
    }
}

/// The record a left-to-right scan holds after starting from `best` and
/// replacing it whenever a later record compares strictly greater.
pub open spec fn latest_from(best: Package, s: Seq<Package>, mode: LatestMode) -> Package
    decreases s.len(),
{
    if s.len() == 0 {
        best
    } else {
        let next = if vers_cmp(mode, s[0]@.version, best@.version) == Order::Greater {
            s[0]
        } else {
            best
        };
        latest_from(next, s.drop_first(), mode)
    }
}

/// The "latest" reduction: at most one record, chosen by the scan.
pub open spec fn spec_latest(s: Seq<Package>, mode: LatestMode) -> Option<Package> {
    if s.len() == 0 {
        None
    } else {
        Some(latest_from(s[0], s.drop_first(), mode))
    }
}

/// The scan result is its starting record or a record of the sequence.
proof fn lemma_latest_from_member(best: Package, s: Seq<Package>, mode: LatestMode)
    ensures
        latest_from(best, s, mode) == best || s.contains(latest_from(best, s, mode)),
    decreases s.len(),
{
    if s.len() > 0 {
        let next = if vers_cmp(mode, s[0]@.version, best@.version) == Order::Greater {
            s[0]
        } else {
            best
        };
        lemma_latest_from_member(next, s.drop_first(), mode);
        let r = latest_from(best, s, mode);
        if r == next {
            if next == s[0] {
                assert(s.contains(r)) by {
                    assert(s[0] == r);
                }
            }
        } else {
            assert(s.drop_first().contains(r));
            let i = choose|i: int| 0 <= i < s.drop_first().len() && s.drop_first()[i] == r;
            assert(s[i + 1] == r);
        }
    }
}

/// In lexicographic mode the scan result's version is an upper bound of the
/// starting record's version and of every version in the sequence.
proof fn lemma_latest_from_lex_max(best: Package, s: Seq<Package>, mode: LatestMode)
    requires
        mode == LatestMode::Lexicographic,
    ensures
        lex_le(best@.version, latest_from(best, s, mode)@.version),
        forall|i: int|
            0 <= i < s.len() ==> lex_le(
                s[i]@.version,
                latest_from(best, s, mode)@.version,
            ),
    decreases s.len(),
{
    if s.len() == 0 {
        crate::strutil::lemma_lex_le_refl(best@.version);
    } else {
        let next = if vers_cmp(mode, s[0]@.version, best@.version) == Order::Greater {
            s[0]
        } else {
            best
        };
        lemma_latest_from_lex_max(next, s.drop_first(), mode);
        let r = latest_from(best, s, mode);
        if lex_cmp(s[0]@.version, best@.version) == Order::Greater {
            lemma_lex_cmp_flip(best@.version, s[0]@.version);
            lemma_lex_le_trans(best@.version, next@.version, r@.version);
        }
        assert forall|i: int| 0 <= i < s.len() implies lex_le(s[i]@.version, r@.version) by {
            if i == 0 {
                lemma_lex_le_total(s[0]@.version, best@.version);
                if lex_cmp(s[0]@.version, best@.version) != Order::Greater {
                    lemma_lex_cmp_flip(s[0]@.version, best@.version);
                    lemma_lex_le_trans(s[0]@.version, next@.version, r@.version);
                }
            } else {
                assert(s.drop_first()[i - 1] == s[i]);
            }
        }
    }
}

/// Reduces the packages to the single latest one. An empty input yields no
/// record; a non-empty input yields exactly one record of the input, whose
/// version, in lexicographic mode, is an upper bound of all input versions.
pub fn latest(v: Vec<Package>, mode: LatestMode) -> (r: Option<Package>)
    ensures
        r == spec_latest(v@, mode),
        r is Some <==> v@.len() > 0,
        r is Some ==> v@.contains(r->0),
        (r is Some && mode == LatestMode::Lexicographic) ==> forall|i: int|
            0 <= i < v@.len() ==> lex_le(v@[i]@.version, r->0@.version),
{
    if v.len() == 0 {
        return None;
    }
    let mut best: usize = 0;
    let mut i: usize = 1;
    while i < v.len()
        invariant
            1 <= i <= v@.len(),
            best < i,
            latest_from(v@[0], v@.skip(1), mode) == latest_from(v@[best as int], v@.skip(i as int), mode),
        decreases v@.len() - i,
    {
        let o = version_compare(mode, v[i].version().as_str(), v[best].version().as_str());
        proof {
            assert(v@.skip(i as int)[0] == v@[i as int]);
            assert(v@.skip(i as int).drop_first() =~= v@.skip(i as int + 1));
        }
        if o == Order::Greater {
            best = i;
        }
        i += 1;
    }
    proof {
        assert(v@.skip(i as int) =~= Seq::<Package>::empty());
        lemma_latest_from_member(v@[0], v@.skip(1), mode);
        if v@.skip(1).contains(latest_from(v@[0], v@.skip(1), mode)) {
            let t = choose|t: int|
                0 <= t < v@.skip(1).len() && v@.skip(1)[t] == latest_from(v@[0], v@.skip(1), mode);
            assert(v@[t + 1] == latest_from(v@[0], v@.skip(1), mode));
            assert(v@.contains(latest_from(v@[0], v@.skip(1), mode)));
        } else {
            assert(v@[0] == latest_from(v@[0], v@.skip(1), mode));
            assert(v@.contains(latest_from(v@[0], v@.skip(1), mode)));
        }
        if mode == LatestMode::Lexicographic {
            lemma_latest_from_lex_max(v@[0], v@.skip(1), mode);
            assert forall|t: int| 0 <= t < v@.len() implies lex_le(
                v@[t]@.version,
                latest_from(v@[0], v@.skip(1), mode)@.version,
            ) by {
                if t > 0 {
                    assert(v@.skip(1)[t - 1] == v@[t]);
                }
            }
        }
    }
    let mut v = v;
    Some(v.swap_remove(best))
}

} // verus!
