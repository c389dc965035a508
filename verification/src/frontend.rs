//! The renderers: line-oriented text, structured JSON, and table cells. Each
//! renderer presents the records in input order and never re-sorts; the
//! compare operation cross-references local packages against upstream data.

use vstd::prelude::*;

use crate::codec::{cmps_view, pkgs_view, probs_view, render_packages_json, render_problems_json};
use crate::error::RepologyError;
use crate::json::{
    json_view_members, json_view_seq, ser_json, Json, JsonV,
};
use crate::source::{spec_text_packages, Backend};
use crate::strutil::{push_str_chars, string_from_chars};
use crate::types::{
    spec_any_name, ComparePackage, CompareV, Package, PackageV, Problem, ProblemV, Repo,
};

verus! {

// ---------------------------------------------------------------------------
// Padding
// ---------------------------------------------------------------------------

/// A run of spaces.
pub open spec fn spaces(n: nat) -> Seq<char>
    decreases n,
{
    if n == 0 {
        Seq::empty()
    } else {
        spaces((n - 1) as nat) + seq![' ']
    }
}

/// The text padded with spaces to a minimum width.
pub open spec fn pad_to(s: Seq<char>, w: int) -> Seq<char> {
    if s.len() < w {
        s + spaces((w - s.len()) as nat)
    } else {
        s
    }
}

/// Appends the text padded to a minimum width.
fn push_padded(out: &mut Vec<char>, s: &str, w: usize)
    ensures
        final(out)@ == old(out)@ + pad_to(s@, w as int),
{
    let n = s.unicode_len();
    push_str_chars(out, s);
    if n < w {
        let mut k: usize = 0;
        proof {
            assert(out@ =~= old(out)@ + s@ + spaces(0));
        }
        while k < w - n
            invariant
                k <= w - n,
                n == s@.len(),
                n < w,
                out@ == old(out)@ + s@ + spaces(k as nat),
            decreases w - n - k,
        {
            out.push(' ');
            proof {
                assert(out@ =~= old(out)@ + s@ + (spaces(k as nat) + seq![' ']));
            }
            k += 1;
        }
        proof {
            assert(out@ =~= old(out)@ + pad_to(s@, w as int));
        }
    } else {
        proof {
            assert(out@ =~= old(out)@ + pad_to(s@, w as int));
        }
    }
}

// ---------------------------------------------------------------------------
// The cell texts of one record
// ---------------------------------------------------------------------------

/// The displayed name: the first present name, or the unknown sentinel.
pub open spec fn spec_name_text(p: PackageV) -> Seq<char> {
    match spec_any_name(p) {
        Some(n) => n,
        None => "<unknown>"@,
    }
}

/// The displayed status: its spelling, or the no-status sentinel.
pub open spec fn spec_status_text(p: PackageV) -> Seq<char> {
    match p.status {
        Some(st) => st.spec_str(),
        None => "No status"@,
    }
}

/// The displayed link: the first web link, or nothing.
pub open spec fn spec_www_text(p: PackageV) -> Seq<char> {
    match p.www {
        Some(l) => if l.len() > 0 {
            l[0]
        } else {
            Seq::empty()
        },
        None => Seq::empty(),
    }
}

fn push_name_text(out: &mut Vec<char>, p: &Package, w: usize)
    ensures
        final(out)@ == old(out)@ + pad_to(spec_name_text(p@), w as int),
{
    match p.any_name() {
        Some(n) => push_padded(out, n.as_str(), w),
        None => push_padded(out, "<unknown>", w),
    }
}

fn push_status_text(out: &mut Vec<char>, p: &Package, w: usize)
    ensures
        final(out)@ == old(out)@ + pad_to(spec_status_text(p@), w as int),
{
    match p.status() {
        Some(st) => push_padded(out, st.as_str(), w),
        None => push_padded(out, "No status", w),
    }
}

fn push_www_text(out: &mut Vec<char>, p: &Package)
    ensures
        final(out)@ == old(out)@ + spec_www_text(p@),
{
    match p.www() {
        Some(l) => {
            if l.len() > 0 {
                proof {
                    assert(l@.map_values(|x: crate::types::Www| x@)[0] == l@[0]@);
                }
                push_str_chars(out, l[0].as_str());
            } else {
                assert(out@ =~= old(out)@ + spec_www_text(p@));
            }
        },
        None => {
            assert(out@ =~= old(out)@ + spec_www_text(p@));
        },
    }
}

// ---------------------------------------------------------------------------
// Line-oriented rendering
// ---------------------------------------------------------------------------

/// One line of the line-oriented package listing.
pub open spec fn spec_package_line(p: PackageV) -> Seq<char> {
    pad_to(spec_name_text(p), 10) + " - "@ + pad_to(p.version, 8) + " - "@ + pad_to(p.repo, 15)
        + " - "@ + pad_to(spec_status_text(p), 5) + " - "@ + spec_www_text(p) + "\n"@
}

/// The line-oriented package listing, one line per record, in input order.
pub open spec fn spec_package_lines(ps: Seq<PackageV>) -> Seq<char>
    decreases ps.len(),
{
    if ps.len() == 0 {
        Seq::empty()
    } else {
        spec_package_lines(ps.drop_last()) + spec_package_line(ps.last())
    }
}

/// One line of the line-oriented problem listing.
pub open spec fn spec_problem_line(p: ProblemV) -> Seq<char> {
    pad_to(p.repo, 10) + " - "@ + pad_to(p.name, 10) + " - "@ + pad_to(p.effname, 10) + " - "@
        + pad_to(p.maintainer, 15) + " - "@ + p.description + "\n"@
}

/// The line-oriented problem listing, in input order.
pub open spec fn spec_problem_lines(ps: Seq<ProblemV>) -> Seq<char>
    decreases ps.len(),
{
    if ps.len() == 0 {
        Seq::empty()
    } else {
        spec_problem_lines(ps.drop_last()) + spec_problem_line(ps.last())
    }
}

fn push_package_line(out: &mut Vec<char>, p: &Package)
    ensures
        final(out)@ == old(out)@ + spec_package_line(p@),
{
    push_name_text(out, p, 10);
    push_str_chars(out, " - ");
    push_padded(out, p.version().as_str(), 8);
    push_str_chars(out, " - ");
    push_padded(out, p.repo().as_str(), 15);
    push_str_chars(out, " - ");
    push_status_text(out, p, 5);
    push_str_chars(out, " - ");
    push_www_text(out, p);
    push_str_chars(out, "\n");
    proof {
        assert(out@ =~= old(out)@ + spec_package_line(p@));
    }
}

fn push_problem_line(out: &mut Vec<char>, p: &Problem)
    ensures
        final(out)@ == old(out)@ + spec_problem_line(p@),
{
    push_padded(out, p.repo().as_str(), 10);
    push_str_chars(out, " - ");
    push_padded(out, p.name().as_str(), 10);
    push_str_chars(out, " - ");
    push_padded(out, p.effname().as_str(), 10);
    push_str_chars(out, " - ");
    push_padded(out, p.maintainer().as_str(), 15);
    push_str_chars(out, " - ");
    push_str_chars(out, p.problem_description().as_str());
    push_str_chars(out, "\n");
    proof {
        assert(out@ =~= old(out)@ + spec_problem_line(p@));
    }
}

// ---------------------------------------------------------------------------
// The compare operation
// ---------------------------------------------------------------------------

/// The view of a repository list.
pub open spec fn repos_view(v: Seq<Repo>) -> Seq<Seq<char>> {
    v.map_values(|r: Repo| r@)
}

/// The (upstream version, repository) pairs of the upstream records whose
/// repository is among the targets, in retrieval order.
pub open spec fn spec_comparisons(ups: Seq<PackageV>, targets: Seq<Seq<char>>) -> Seq<
    (Seq<char>, Seq<char>),
> {
    ups.filter(|p: PackageV| targets.contains(p.repo)).map_values(
        |p: PackageV| (p.version, p.repo),
    )
}

/// The mathematical content of one comparison result.
pub struct PackageCompV {
    pub package_name: Seq<char>,
    pub local_version: Seq<char>,
    pub comparisons: Seq<(Seq<char>, Seq<char>)>,
}

/// The comparison result for one local package: its name, its local version,
/// and one (upstream version, repository) pair per matching upstream record.
/// A local package with no matching upstream record has no pairs; that is
/// not an error.
pub struct PackageComp {
    package_name: String,
    local_version: String,
    comparisons: Vec<(String, String)>,
}

impl View for PackageComp {
    type V = PackageCompV;

    closed spec fn view(&self) -> PackageCompV {
        PackageCompV {
            package_name: self.package_name@,
            local_version: self.local_version@,
            comparisons: self.comparisons@.map_values(|t: (String, String)| (t.0@, t.1@)),
        }
    }
}

impl PackageComp {
    pub fn package_name(&self) -> (r: &String)
        ensures
            r@ == self@.package_name,
    {
        &self.package_name
    }

    pub fn local_version(&self) -> (r: &String)
        ensures
            r@ == self@.local_version,
    {
        &self.local_version
    }

    pub fn comparisons(&self) -> (r: &Vec<(String, String)>)
        ensures
            r@.map_values(|t: (String, String)| (t.0@, t.1@)) == self@.comparisons,
    {
        &self.comparisons
    }
}

/// Whether a repository list holds the identifier.
fn repo_in(targets: &Vec<Repo>, repo: &str) -> (r: bool)
    ensures
        r == repos_view(targets@).contains(repo@),
{
    let ghost tv = repos_view(targets@);
    let mut i: usize = 0;
    proof {
        assert(forall|k: int| 0 <= k < targets@.len() ==> #[trigger] tv[k] == targets@[k]@);
    }
    while i < targets.len()
        invariant
            i <= targets@.len(),
            tv == repos_view(targets@),
            tv.len() == targets@.len(),
            forall|k: int| 0 <= k < targets@.len() ==> #[trigger] tv[k] == targets@[k]@,
            forall|k: int| 0 <= k < i ==> tv[k] != repo@,
        decreases targets@.len() - i,
    {
        if crate::strutil::str_eq(targets[i].as_str(), repo) {
            proof {
                assert(tv[i as int] == repo@);
            }
            return true;
        }
        i += 1;
    }
    proof {
        assert(!tv.contains(repo@));
    }
    false
}

/// Keeps, for each upstream record of a target repository, its version and
/// its repository, in retrieval order.
#[verifier::loop_isolation(false)]
pub fn comparisons_for(ups: Vec<Package>, targets: &Vec<Repo>) -> (r: Vec<(String, String)>)
    ensures
        r@.map_values(|t: (String, String)| (t.0@, t.1@)) == spec_comparisons(
            pkgs_view(ups@),
            repos_view(targets@),
        ),
{
    let ghost orig_pkgs = ups@;
    let ghost orig = pkgs_view(ups@);
    let ghost tv = repos_view(targets@);
    let ghost pred = |p: PackageV| tv.contains(p.repo);
    let ghost tup = |t: (String, String)| (t.0@, t.1@);
    let mut out: Vec<(String, String)> = Vec::new();
    let mut i: usize = 0;
    let mut ups = ups;
    let n_total = ups.len();
    proof {
        reveal_with_fuel(Seq::filter, 2);
        assert(orig.take(0).filter(pred).map_values(|p: PackageV| (p.version, p.repo)) =~= out@.map_values(tup));
    }
    while ups.len() > 0
        invariant
            n_total == orig_pkgs.len(),
            orig.len() == orig_pkgs.len(),
            i + ups@.len() == orig_pkgs.len(),
            ups@ == orig_pkgs.skip(i as int),
            out@.map_values(tup) == orig.take(i as int).filter(pred).map_values(
                |p: PackageV| (p.version, p.repo),
            ),
        decreases ups@.len(),
    {
        let x = ups.remove(0);
        proof {
            assert(x == orig_pkgs[i as int]);
            assert(x@ == orig[i as int]);
            assert(ups@ =~= orig_pkgs.skip(i as int + 1));
        }
        let keep = repo_in(targets, x.repo().as_str());
        proof {
            reveal_with_fuel(Seq::filter, 2);
            assert(orig.take(i as int + 1).drop_last() =~= orig.take(i as int));
            assert(orig.take(i as int + 1).last() == orig[i as int]);
        }
        if keep {
            let ghost pre = out@;
            out.push((String::from_str(x.version().as_str()), String::from_str(x.repo().as_str())));
            proof {
                assert(out@ =~= pre.push(out@[pre.len() as int]));
                assert(out@.map_values(tup) =~= pre.map_values(tup).push((x@.version, x@.repo)));
                assert(out@.map_values(tup) =~= orig.take(i as int + 1).filter(pred).map_values(
                    |p: PackageV| (p.version, p.repo),
                ));
            }
        } else {
            proof {
                assert(out@.map_values(tup) =~= orig.take(i as int + 1).filter(pred).map_values(
                    |p: PackageV| (p.version, p.repo),
                ));
            }
        }
        i += 1;
    }
    proof {
        assert(orig.take(i as int) =~= orig);
    }
    out
}

/// The comparison results a compare run owes: one entry per local package,
/// carrying that package's name and local version, and the matching pairs
/// out of the given upstream records.
pub open spec fn spec_comp_of(
    locals: Seq<CompareV>,
    ups: Seq<PackageV>,
    targets: Seq<Seq<char>>,
) -> Seq<PackageCompV> {
    locals.map_values(
        |c: CompareV| PackageCompV {
            package_name: c.name,
            local_version: c.version,
            comparisons: spec_comparisons(ups, targets),
        },
    )
}

/// Runs the compare operation: for each local package, queries the source
/// for that package's name, keeps the upstream records of the target
/// repositories, and yields one comparison entry. Through a captured source
/// every query parses the same buffer, so the result is pinned to it.
#[verifier::loop_isolation(false)]
pub fn compare_packages(locals: &Vec<ComparePackage>, backend: &Backend, targets: &Vec<Repo>)
    -> (r: Result<Vec<PackageComp>, RepologyError>)
    ensures
        r is Ok ==> (r->Ok_0)@.len() == locals@.len(),
        r is Ok ==> forall|i: int|
            0 <= i < locals@.len() ==> ((r->Ok_0)@[i]@.package_name == locals@[i]@.name
                && (r->Ok_0)@[i]@.local_version == locals@[i]@.version),
        (backend is Buffer && spec_text_packages(backend->Buffer_0.spec_buf()) is Some) ==> (
        r is Ok && (r->Ok_0)@.map_values(|c: PackageComp| c@) == spec_comp_of(
            cmps_view(locals@),
            spec_text_packages(backend->Buffer_0.spec_buf())->0,
            repos_view(targets@),
        )),
        (backend is Buffer && spec_text_packages(backend->Buffer_0.spec_buf()) is None
            && locals@.len() > 0) ==> (r is Err && r->Err_0 is Decode),
        locals@.len() == 0 ==> r is Ok,
        r is Err ==> (r->Err_0 is Transport || r->Err_0 is Decode),
{
    let mut out: Vec<PackageComp> = Vec::new();
    let mut i: usize = 0;
    while i < locals.len()
        invariant
            i <= locals@.len(),
            out@.len() == i,
            forall|t: int|
                0 <= t < i ==> (out@[t]@.package_name == locals@[t]@.name && out@[t]@.local_version
                    == locals@[t]@.version),
            (backend is Buffer && spec_text_packages(backend->Buffer_0.spec_buf()) is Some)
                ==> forall|t: int|
                0 <= t < i ==> out@[t]@.comparisons == spec_comparisons(
                    spec_text_packages(backend->Buffer_0.spec_buf())->0,
                    repos_view(targets@),
                ),
            (backend is Buffer && spec_text_packages(backend->Buffer_0.spec_buf()) is None) ==> i
                == 0,
        decreases locals@.len() - i,
    {
        let local = &locals[i];
        let ups = match backend.project(local.name().as_str()) {
            Ok(v) => v,
            Err(e) => {
                return Err(e);
            },
        };
        let comparisons = comparisons_for(ups, targets);
        out.push(
            PackageComp {
                package_name: String::from_str(local.name().as_str()),
                local_version: String::from_str(local.version().as_str()),
                comparisons,
            },
        );
        i += 1;
    }
    proof {
        if backend is Buffer && spec_text_packages(backend->Buffer_0.spec_buf()) is Some {
            assert(out@.map_values(|c: PackageComp| c@) =~= spec_comp_of(
                cmps_view(locals@),
                spec_text_packages(backend->Buffer_0.spec_buf())->0,
                repos_view(targets@),
            ));
        }
    }
    Ok(out)
}

/// One line per comparison pair: name, local version, repository, upstream
/// version.
pub open spec fn spec_compare_pair_line(c: PackageCompV, pair: (Seq<char>, Seq<char>)) -> Seq<
    char,
> {
    c.package_name + " - "@ + c.local_version + " - "@ + pair.1 + " - "@ + pair.0 + "\n"@
}

pub open spec fn spec_compare_entry_lines_upto(c: PackageCompV, n: int) -> Seq<char>
    decreases n,
{
    if n <= 0 {
        Seq::empty()
    } else {
        spec_compare_entry_lines_upto(c, n - 1) + spec_compare_pair_line(
            c,
            c.comparisons[n - 1],
        )
    }
}

/// The lines of one comparison entry, one per pair.
pub open spec fn spec_compare_entry_lines(c: PackageCompV) -> Seq<char> {
    spec_compare_entry_lines_upto(c, c.comparisons.len() as int)
}

/// The line-oriented compare listing.
pub open spec fn spec_compare_lines(cs: Seq<PackageCompV>) -> Seq<char>
    decreases cs.len(),
{
    if cs.len() == 0 {
        Seq::empty()
    } else {
        spec_compare_lines(cs.drop_last()) + spec_compare_entry_lines(cs.last())
    }
}

#[verifier::loop_isolation(false)]
fn push_compare_entry(out: &mut Vec<char>, c: &PackageComp)
    ensures
        final(out)@ == old(out)@ + spec_compare_entry_lines(c@),
{
    let pairs = c.comparisons();
    let ghost cv = c@;
    let mut k: usize = 0;
    proof {
        assert(cv.comparisons.len() == pairs@.len());
    }
    while k < pairs.len()
        invariant
            k <= pairs@.len(),
            out@ == old(out)@ + spec_compare_entry_lines_upto(cv, k as int),
        decreases pairs@.len() - k,
    {
        let ghost pre = out@;
        push_str_chars(out, c.package_name().as_str());
        push_str_chars(out, " - ");
        push_str_chars(out, c.local_version().as_str());
        push_str_chars(out, " - ");
        push_str_chars(out, pairs[k].1.as_str());
        push_str_chars(out, " - ");
        push_str_chars(out, pairs[k].0.as_str());
        push_str_chars(out, "\n");
        proof {
            assert(cv.comparisons[k as int] == (pairs@[k as int].0@, pairs@[k as int].1@));
            assert(out@ =~= pre + spec_compare_pair_line(cv, cv.comparisons[k as int]));
        }
        k += 1;
    }
}

// ---------------------------------------------------------------------------
// Structured (JSON) rendering of the compare result
// ---------------------------------------------------------------------------

/// The JSON object of one comparison pair.
pub open spec fn spec_pair_json(pair: (Seq<char>, Seq<char>)) -> JsonV {
    JsonV::Obj(seq![("version"@, JsonV::Str(pair.0)), ("repo"@, JsonV::Str(pair.1))])
}

/// The JSON object of one comparison entry: the local name and version, and
/// the nested list of pairs.
pub open spec fn spec_comp_json(c: PackageCompV) -> JsonV {
    JsonV::Obj(
        seq![
            ("package_name"@, JsonV::Str(c.package_name)),
            ("local_version"@, JsonV::Str(c.local_version)),
            (
                "comparisons"@,
                JsonV::Arr(c.comparisons.map_values(|t: (Seq<char>, Seq<char>)| spec_pair_json(t))),
            ),
        ],
    )
}

/// The JSON document of a compare run.
pub open spec fn spec_comps_json(cs: Seq<PackageCompV>) -> JsonV {
    JsonV::Arr(cs.map_values(|c: PackageCompV| spec_comp_json(c)))
}

fn pair_to_json(version: &String, repo: &String) -> (r: Json)
    ensures
        r@ == spec_pair_json((version@, repo@)),
{
    let mut members: Vec<(Vec<char>, Json)> = Vec::new();
    proof {
        assert(json_view_members(members@) =~= Seq::<(Seq<char>, JsonV)>::empty());
    }
    crate::codec::push_member(&mut members, "version", Json::Str(crate::strutil::chars_of(version.as_str())));
    crate::codec::push_member(&mut members, "repo", Json::Str(crate::strutil::chars_of(repo.as_str())));
    let r = Json::Obj(members);
    proof {
        assert(json_view_members(members@) =~= spec_pair_json((version@, repo@))->Obj_0);
    }
    r
}

fn comp_to_json(c: &PackageComp) -> (r: Json)
    ensures
        r@ == spec_comp_json(c@),
{
    let ghost cv = c@;
    let pairs = c.comparisons();
    let ghost target = cv.comparisons.map_values(|t: (Seq<char>, Seq<char>)| spec_pair_json(t));
    let mut items: Vec<Json> = Vec::new();
    let mut k: usize = 0;
    proof {
        assert(cv.comparisons.len() == pairs@.len());
        assert(json_view_seq(items@) =~= target.take(0));
    }
    while k < pairs.len()
        invariant
            k <= pairs@.len(),
            cv == c@,
            target == cv.comparisons.map_values(|t: (Seq<char>, Seq<char>)| spec_pair_json(t)),
            cv.comparisons.len() == pairs@.len(),
            pairs@.map_values(|t: (String, String)| (t.0@, t.1@)) == cv.comparisons,
            json_view_seq(items@) == target.take(k as int),
        decreases pairs@.len() - k,
    {
        let ghost pre = items@;
        items.push(pair_to_json(&pairs[k].0, &pairs[k].1));
        proof {
            assert(items@ =~= pre.push(items@[pre.len() as int]));
            crate::codec::lemma_json_view_seq_push(pre, items@[pre.len() as int]);
            assert(cv.comparisons[k as int] == (pairs@[k as int].0@, pairs@[k as int].1@));
            assert(json_view_seq(items@) =~= target.take(k as int + 1));
        }
        k += 1;
    }
    proof {
        assert(target.take(k as int) =~= target);
    }
    let mut members: Vec<(Vec<char>, Json)> = Vec::new();
    proof {
        assert(json_view_members(members@) =~= Seq::<(Seq<char>, JsonV)>::empty());
    }
    crate::codec::push_member(
        &mut members,
        "package_name",
        Json::Str(crate::strutil::chars_of(c.package_name().as_str())),
    );
    crate::codec::push_member(
        &mut members,
        "local_version",
        Json::Str(crate::strutil::chars_of(c.local_version().as_str())),
    );
    crate::codec::push_member(&mut members, "comparisons", Json::Arr(items));
    let r = Json::Obj(members);
    proof {
        assert(json_view_members(members@) =~= spec_comp_json(cv)->Obj_0);
    }
    r
}

/// The compare document serialized for the structured renderer.
pub fn render_compare_json(cs: &Vec<PackageComp>) -> (r: String)
    ensures
        r@ == ser_json(spec_comps_json(cs@.map_values(|c: PackageComp| c@))),
{
    let ghost target = cs@.map_values(|c: PackageComp| c@).map_values(
        |c: PackageCompV| spec_comp_json(c),
    );
    let mut items: Vec<Json> = Vec::new();
    let mut k: usize = 0;
    proof {
        assert(json_view_seq(items@) =~= target.take(0));
    }
    while k < cs.len()
        invariant
            k <= cs@.len(),
            target == cs@.map_values(|c: PackageComp| c@).map_values(
                |c: PackageCompV| spec_comp_json(c),
            ),
            target.len() == cs@.len(),
            json_view_seq(items@) == target.take(k as int),
        decreases cs@.len() - k,
    {
        let ghost pre = items@;
        items.push(comp_to_json(&cs[k]));
        proof {
            assert(items@ =~= pre.push(items@[pre.len() as int]));
            crate::codec::lemma_json_view_seq_push(pre, items@[pre.len() as int]);
            assert(target[k as int] == spec_comp_json(cs@[k as int]@));
            assert(json_view_seq(items@) =~= target.take(k as int + 1));
        }
        k += 1;
    }
    proof {
        assert(target.take(k as int) =~= target);
    }
    let j = Json::Arr(items);
    let chars = crate::json::to_chars(&j);
    string_from_chars(chars.as_slice())
}

/// The compare entries rendered as lines.
pub fn render_compare_lines(cs: &Vec<PackageComp>) -> (r: String)
    ensures
        r@ == spec_compare_lines(cs@.map_values(|c: PackageComp| c@)),
{
    let ghost target = cs@.map_values(|c: PackageComp| c@);
    let mut out: Vec<char> = Vec::new();
    let mut k: usize = 0;
    proof {
        assert(out@ =~= spec_compare_lines(target.take(0)));
    }
    while k < cs.len()
        invariant
            k <= cs@.len(),
            target == cs@.map_values(|c: PackageComp| c@),
            target.len() == cs@.len(),
            out@ == spec_compare_lines(target.take(k as int)),
        decreases cs@.len() - k,
    {
        push_compare_entry(&mut out, &cs[k]);
        proof {
            assert(target.take(k as int + 1).drop_last() =~= target.take(k as int));
            assert(target.take(k as int + 1).last() == target[k as int]);
            assert(target[k as int] == cs@[k as int]@);
        }
        k += 1;
    }
    proof {
        assert(target.take(k as int) =~= target);
    }
    string_from_chars(out.as_slice())
}

// ---------------------------------------------------------------------------
// The three frontends
// ---------------------------------------------------------------------------

/// The line-oriented renderer: dash-separated fixed-width text, one line per
/// record.
pub struct ListFrontend;

impl ListFrontend {
    pub fn new() -> (r: ListFrontend) {
        ListFrontend
    }

    /// The listing text, one line per package, in input order.
    pub fn list_packages(&self, packages: &Vec<Package>) -> (r: String)
        ensures
            r@ == spec_package_lines(pkgs_view(packages@)),
    {
        let ghost target = pkgs_view(packages@);
        let mut out: Vec<char> = Vec::new();
        let mut k: usize = 0;
        proof {
            assert(out@ =~= spec_package_lines(target.take(0)));
        }
        while k < packages.len()
            invariant
                k <= packages@.len(),
                target == pkgs_view(packages@),
                target.len() == packages@.len(),
                out@ == spec_package_lines(target.take(k as int)),
            decreases packages@.len() - k,
        {
            push_package_line(&mut out, &packages[k]);
            proof {
                assert(target.take(k as int + 1).drop_last() =~= target.take(k as int));
                assert(target.take(k as int + 1).last() == target[k as int]);
                assert(target[k as int] == packages@[k as int]@);
            }
            k += 1;
        }
        proof {
            assert(target.take(k as int) =~= target);
        }
        string_from_chars(out.as_slice())
    }

    /// The listing text, one line per problem report, in input order.
    pub fn list_problems(&self, problems: &Vec<Problem>) -> (r: String)
        ensures
            r@ == spec_problem_lines(probs_view(problems@)),
    {
        let ghost target = probs_view(problems@);
        let mut out: Vec<char> = Vec::new();
        let mut k: usize = 0;
        proof {
            assert(out@ =~= spec_problem_lines(target.take(0)));
        }
        while k < problems.len()
            invariant
                k <= problems@.len(),
                target == probs_view(problems@),
                target.len() == problems@.len(),
                out@ == spec_problem_lines(target.take(k as int)),
            decreases problems@.len() - k,
        {
            push_problem_line(&mut out, &problems[k]);
            proof {
                assert(target.take(k as int + 1).drop_last() =~= target.take(k as int));
                assert(target.take(k as int + 1).last() == target[k as int]);
                assert(target[k as int] == problems@[k as int]@);
            }
            k += 1;
        }
        proof {
            assert(target.take(k as int) =~= target);
        }
        string_from_chars(out.as_slice())
    }

    /// Runs the compare operation and renders its entries as lines.
    pub fn compare_packages(
        &self,
        packages: &Vec<ComparePackage>,
        backend: &Backend,
        filter_repos: &Vec<Repo>,
    ) -> (r: Result<String, RepologyError>)
        ensures
            (backend is Buffer && spec_text_packages(backend->Buffer_0.spec_buf()) is Some) ==> (
            r is Ok && (r->Ok_0)@ == spec_compare_lines(
                spec_comp_of(
                    cmps_view(packages@),
                    spec_text_packages(backend->Buffer_0.spec_buf())->0,
                    repos_view(filter_repos@),
                ),
            )),
            (backend is Buffer && spec_text_packages(backend->Buffer_0.spec_buf()) is None
                && packages@.len() > 0) ==> (r is Err && r->Err_0 is Decode),
            packages@.len() == 0 ==> r is Ok,
            r is Err ==> (r->Err_0 is Transport || r->Err_0 is Decode),
    {
        match compare_packages(packages, backend, filter_repos) {
            Ok(cs) => Ok(render_compare_lines(&cs)),
            Err(e) => Err(e),
        }
    }
}

/// The structured renderer: compact JSON for machine consumers.
pub struct JsonFrontend;

impl JsonFrontend {
    pub fn new() -> (r: JsonFrontend) {
        JsonFrontend
    }

    /// The package list as a JSON array of records.
    pub fn list_packages(&self, packages: &Vec<Package>) -> (r: String)
        ensures
            r@ == ser_json(crate::codec::spec_packages_json(pkgs_view(packages@))),
    {
        render_packages_json(packages)
    }

    /// The problem list as a JSON array of records.
    pub fn list_problems(&self, problems: &Vec<Problem>) -> (r: String)
        ensures
            r@ == ser_json(crate::codec::spec_problems_json(probs_view(problems@))),
    {
        render_problems_json(problems)
    }

    /// Runs the compare operation and renders one JSON object per local
    /// package, each holding the nested list of comparison pairs.
    pub fn compare_packages(
        &self,
        packages: &Vec<ComparePackage>,
        backend: &Backend,
        filter_repos: &Vec<Repo>,
    ) -> (r: Result<String, RepologyError>)
        ensures
            (backend is Buffer && spec_text_packages(backend->Buffer_0.spec_buf()) is Some) ==> (
            r is Ok && (r->Ok_0)@ == ser_json(
                spec_comps_json(
                    spec_comp_of(
                        cmps_view(packages@),
                        spec_text_packages(backend->Buffer_0.spec_buf())->0,
                        repos_view(filter_repos@),
                    ),
                ),
            )),
            (backend is Buffer && spec_text_packages(backend->Buffer_0.spec_buf()) is None
                && packages@.len() > 0) ==> (r is Err && r->Err_0 is Decode),
            packages@.len() == 0 ==> r is Ok,
            r is Err ==> (r->Err_0 is Transport || r->Err_0 is Decode),
    {
        match compare_packages(packages, backend, filter_repos) {
            Ok(cs) => Ok(render_compare_json(&cs)),
            Err(e) => Err(e),
        }
    }
}

/// The view of a table: its rows of cell texts.
pub open spec fn rows_view(rows: Seq<Vec<String>>) -> Seq<Seq<Seq<char>>> {
    rows.map_values(|row: Vec<String>| row@.map_values(|c: String| c@))
}

/// The cells of one package row.
pub open spec fn spec_package_cells(p: PackageV) -> Seq<Seq<char>> {
    seq![spec_name_text(p), p.version, p.repo, spec_status_text(p), spec_www_text(p)]
}

/// The cells of one problem row.
pub open spec fn spec_problem_cells(p: ProblemV) -> Seq<Seq<char>> {
    seq![p.repo, p.name, p.effname, p.maintainer, p.description]
}

/// The tabular renderer: it computes the cell texts; drawing the table is
/// the caller's presentation concern.
pub struct TableFrontend;

impl TableFrontend {
    pub fn new() -> (r: TableFrontend) {
        TableFrontend
    }

    /// The column titles of the package table.
    pub fn titles(&self) -> (r: Vec<String>)
        ensures
            r@.map_values(|c: String| c@) == seq!["Name"@, "Version"@, "Repo"@, "Status"@, "URL"@],
    {
        let mut r: Vec<String> = Vec::new();
        r.push(String::from_str("Name"));
        r.push(String::from_str("Version"));
        r.push(String::from_str("Repo"));
        r.push(String::from_str("Status"));
        r.push(String::from_str("URL"));
        proof {
            assert(r@.map_values(|c: String| c@) =~= seq![
                "Name"@,
                "Version"@,
                "Repo"@,
                "Status"@,
                "URL"@,
            ]);
        }
        r
    }

    /// One row of cells per package, in input order.
    pub fn list_packages(&self, packages: &Vec<Package>) -> (r: Vec<Vec<String>>)
        ensures
            rows_view(r@) == pkgs_view(packages@).map_values(|p: PackageV| spec_package_cells(p)),
    {
        let ghost target = pkgs_view(packages@).map_values(|p: PackageV| spec_package_cells(p));
        let mut rows: Vec<Vec<String>> = Vec::new();
        let mut k: usize = 0;
        proof {
            assert(rows_view(rows@) =~= target.take(0));
        }
        while k < packages.len()
            invariant
                k <= packages@.len(),
                target == pkgs_view(packages@).map_values(|p: PackageV| spec_package_cells(p)),
                target.len() == packages@.len(),
                rows_view(rows@) == target.take(k as int),
            decreases packages@.len() - k,
        {
            let p = &packages[k];
            let mut row: Vec<String> = Vec::new();
            let name_cell = match p.any_name() {
                Some(n) => String::from_str(n.as_str()),
                None => String::from_str("<unknown>"),
            };
            row.push(name_cell);
            row.push(String::from_str(p.version().as_str()));
            row.push(String::from_str(p.repo().as_str()));
            let status_cell = match p.status() {
                Some(st) => String::from_str(st.as_str()),
                None => String::from_str("No status"),
            };
            row.push(status_cell);
            let www_cell = match p.www() {
                Some(l) => {
                    if l.len() > 0 {
                        proof {
                            assert(l@.map_values(|x: crate::types::Www| x@)[0] == l@[0]@);
                        }
                        String::from_str(l[0].as_str())
                    } else {
                        String::new()
                    }
                },
                None => String::new(),
            };
            row.push(www_cell);
            proof {
                assert(row@.map_values(|c: String| c@) =~= spec_package_cells(
                    packages@[k as int]@,
                ));
            }
            let ghost pre = rows@;
            rows.push(row);
            proof {
                assert(rows@ =~= pre.push(rows@[pre.len() as int]));
                assert(rows_view(rows@) =~= rows_view(pre).push(
                    rows@[pre.len() as int]@.map_values(|c: String| c@),
                ));
                assert(rows_view(rows@) =~= target.take(k as int + 1));
            }
            k += 1;
        }
        proof {
            assert(target.take(k as int) =~= target);
        }
        rows
    }

    /// One row of cells per problem report, in input order.
    pub fn list_problems(&self, problems: &Vec<Problem>) -> (r: Vec<Vec<String>>)
        ensures
            rows_view(r@) == probs_view(problems@).map_values(|p: ProblemV| spec_problem_cells(p)),
    {
        let ghost target = probs_view(problems@).map_values(|p: ProblemV| spec_problem_cells(p));
        let mut rows: Vec<Vec<String>> = Vec::new();
        let mut k: usize = 0;
        proof {
            assert(rows_view(rows@) =~= target.take(0));
        }
        while k < problems.len()
            invariant
                k <= problems@.len(),
                target == probs_view(problems@).map_values(|p: ProblemV| spec_problem_cells(p)),
                target.len() == problems@.len(),
                rows_view(rows@) == target.take(k as int),
            decreases problems@.len() - k,
        {
            let p = &problems[k];
            let mut row: Vec<String> = Vec::new();
            row.push(String::from_str(p.repo().as_str()));
            row.push(String::from_str(p.name().as_str()));
            row.push(String::from_str(p.effname().as_str()));
            row.push(String::from_str(p.maintainer().as_str()));
            row.push(String::from_str(p.problem_description().as_str()));
            proof {
                assert(row@.map_values(|c: String| c@) =~= spec_problem_cells(
                    problems@[k as int]@,
                ));
            }
            let ghost pre = rows@;
            rows.push(row);
            proof {
                assert(rows@ =~= pre.push(rows@[pre.len() as int]));
                assert(rows_view(rows@) =~= rows_view(pre).push(
                    rows@[pre.len() as int]@.map_values(|c: String| c@),
                ));
                assert(rows_view(rows@) =~= target.take(k as int + 1));
            }
            k += 1;
        }
        proof {
            assert(target.take(k as int) =~= target);
        }
        rows
    }

    /// Runs the compare operation; one row of cells per comparison pair.
    pub fn compare_packages(
        &self,
        packages: &Vec<ComparePackage>,
        backend: &Backend,
        filter_repos: &Vec<Repo>,
    ) -> (r: Result<Vec<PackageComp>, RepologyError>)
        ensures
            (backend is Buffer && spec_text_packages(backend->Buffer_0.spec_buf()) is Some) ==> (
            r is Ok && (r->Ok_0)@.map_values(|c: PackageComp| c@) == spec_comp_of(
                cmps_view(packages@),
                spec_text_packages(backend->Buffer_0.spec_buf())->0,
                repos_view(filter_repos@),
            )),
            (backend is Buffer && spec_text_packages(backend->Buffer_0.spec_buf()) is None
                && packages@.len() > 0) ==> (r is Err && r->Err_0 is Decode),
            packages@.len() == 0 ==> r is Ok,
            r is Err ==> (r->Err_0 is Transport || r->Err_0 is Decode),
    {
        compare_packages(packages, backend, filter_repos)
    }
}

/// The output formats a run can select.
#[derive(Clone, Copy, Debug, PartialEq, Eq, Structural)]
pub enum FrontendKind {
    Lines,
    Json,
    Table,
}

/// Selects the output format by name: `lines`, `json` or `table`; any other
/// name is an unknown format, a hard error.
pub fn frontend_kind_of(name: &str) -> (r: Result<FrontendKind, RepologyError>)
    ensures
        name@ == "lines"@ ==> r == Result::<FrontendKind, RepologyError>::Ok(FrontendKind::Lines),
        name@ == "json"@ ==> r == Result::<FrontendKind, RepologyError>::Ok(FrontendKind::Json),
        name@ == "table"@ ==> r == Result::<FrontendKind, RepologyError>::Ok(FrontendKind::Table),
        (name@ != "lines"@ && name@ != "json"@ && name@ != "table"@) ==> (r is Err
            && r->Err_0 is UnknownFormat),
{
    proof {
        reveal_strlit("lines");
        reveal_strlit("json");
        reveal_strlit("table");
        assert((("lines"@)[0]) != (("json"@)[0]));
        assert("lines"@ != "json"@);
        assert((("lines"@)[0]) != (("table"@)[0]));
        assert("lines"@ != "table"@);
        assert((("json"@)[0]) != (("table"@)[0]));
        assert("json"@ != "table"@);
    }
    if crate::strutil::str_eq(name, "lines") {
        Ok(FrontendKind::Lines)
    } else if crate::strutil::str_eq(name, "json") {
        Ok(FrontendKind::Json)
    } else if crate::strutil::str_eq(name, "table") {
        Ok(FrontendKind::Table)
    } else {
        Err(RepologyError::UnknownFormat(String::from_str(name)))
    }
}

} // verus!
