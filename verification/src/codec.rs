//! Conversion between the library's records and the JSON wire format: the
//! shapes the package-tracking service sends, and the shape the structured
//! renderer writes. Parsing is lenient about unknown members and strict about
//! the type of every known member.

use vstd::prelude::*;

use crate::error::RepologyError;
use crate::json::{
    json_view_members, json_view_seq, lemma_json_view_members, lemma_json_view_seq, spec_parse_json,
    ser_json, wf_json, Json, JsonV,
};
use crate::strutil::{chars_eq_str, chars_of, string_from_chars};
use crate::types::{
    opt_list_view, opt_view, spec_status_of, CompareV, ComparePackage, Download, License,
    Maintainer, Name, Package, PackageV, Problem, ProblemV, Repo, Status, Summary, Version, Www,
};

verus! {

// ---------------------------------------------------------------------------
// Object member lookup
// ---------------------------------------------------------------------------

/// The value of the first member with the given key, if any.
pub open spec fn spec_lookup(ms: Seq<(Seq<char>, JsonV)>, key: Seq<char>) -> Option<JsonV>
    decreases ms.len(),
{
    if ms.len() == 0 {
        None
    } else if ms[0].0 == key {
        Some(ms[0].1)
    } else {
        spec_lookup(ms.drop_first(), key)
    }
}

/// Lookup finds the member at the first position carrying the key.
proof fn lemma_lookup_at(ms: Seq<(Seq<char>, JsonV)>, key: Seq<char>, k: int)
    requires
        0 <= k < ms.len(),
        ms[k].0 == key,
        forall|j: int| 0 <= j < k ==> ms[j].0 != key,
    ensures
        spec_lookup(ms, key) == Some(ms[k].1),
    decreases k,
{
    if k > 0 {
        assert(forall|j: int| 0 <= j < k - 1 ==> ms.drop_first()[j] == ms[j + 1]);
        assert(ms.drop_first()[k - 1] == ms[k]);
        lemma_lookup_at(ms.drop_first(), key, k - 1);
    }
}

/// The first member with the given key, if any.
fn lookup<'a>(members: &'a Vec<(Vec<char>, Json)>, key: &str) -> (r: Option<&'a Json>)
    ensures
        (match spec_lookup(json_view_members(members@), key@) {
            Some(v) => r is Some && (r->0)@ == v,
            None => r is None,
        }),
{
    proof {
        lemma_json_view_members(members@);
    }
    let ghost mv = json_view_members(members@);
    let mut i: usize = 0;
    proof {
        assert(mv.skip(0) =~= mv);
    }
    while i < members.len()
        invariant
            i <= members@.len(),
            mv == json_view_members(members@),
            mv.len() == members@.len(),
            forall|t: int|
                0 <= t < members@.len() ==> mv[t] == (members@[t].0@, crate::json::json_view(
                    members@[t].1,
                )),
            spec_lookup(mv, key@) == spec_lookup(mv.skip(i as int), key@),
        decreases members@.len() - i,
    {
        proof {
            assert(mv.skip(i as int)[0] == mv[i as int]);
            assert(mv.skip(i as int).drop_first() =~= mv.skip(i as int + 1));
        }
        if chars_eq_str(members[i].0.as_slice(), key) {
            return Some(&members[i].1);
        }
        i += 1;
    }
    proof {
        assert(mv.skip(i as int).len() == 0);
    }
    None
}

// ---------------------------------------------------------------------------
// Member readings: a missing or null member is "no data"; a member of the
// wrong type is a decode failure.
// ---------------------------------------------------------------------------

/// A required string member.
pub open spec fn req_str_field(ms: Seq<(Seq<char>, JsonV)>, key: Seq<char>) -> Option<Seq<char>> {
    match spec_lookup(ms, key) {
        Some(JsonV::Str(s)) => Some(s),
        _ => None,
    }
}

/// An optional string member: missing or null is no data.
pub open spec fn opt_str_field(ms: Seq<(Seq<char>, JsonV)>, key: Seq<char>) -> Option<
    Option<Seq<char>>,
> {
    match spec_lookup(ms, key) {
        None => Some(None),
        Some(JsonV::Null) => Some(None),
        Some(JsonV::Str(s)) => Some(Some(s)),
        Some(_) => None,
    }
}

/// The strings of an array of strings.
pub open spec fn str_list_of(items: Seq<JsonV>) -> Option<Seq<Seq<char>>>
    decreases items.len(),
{
    if items.len() == 0 {
        Some(Seq::empty())
    } else {
        match items[0] {
            JsonV::Str(s) => match str_list_of(items.drop_first()) {
                Some(t) => Some(seq![s] + t),
                None => None,
            },
            _ => None,
        }
    }
}

/// An optional list-of-strings member.
pub open spec fn opt_list_field(ms: Seq<(Seq<char>, JsonV)>, key: Seq<char>) -> Option<
    Option<Seq<Seq<char>>>,
> {
    match spec_lookup(ms, key) {
        None => Some(None),
        Some(JsonV::Null) => Some(None),
        Some(JsonV::Arr(items)) => match str_list_of(items) {
            Some(l) => Some(Some(l)),
            None => None,
        },
        Some(_) => None,
    }
}

/// An optional status member: a string that must spell a known status.
pub open spec fn opt_status_field(ms: Seq<(Seq<char>, JsonV)>, key: Seq<char>) -> Option<
    Option<Status>,
> {
    match spec_lookup(ms, key) {
        None => Some(None),
        Some(JsonV::Null) => Some(None),
        Some(JsonV::Str(s)) => match spec_status_of(s) {
            Some(st) => Some(Some(st)),
            None => None,
        },
        Some(_) => None,
    }
}

fn decode_err() -> (r: RepologyError)
    ensures
        r is Decode,
{
    RepologyError::Decode(String::from_str("malformed record"))
}

fn get_req_str(members: &Vec<(Vec<char>, Json)>, key: &str) -> (r: Result<String, RepologyError>)
    ensures
        (match req_str_field(json_view_members(members@), key@) {
            Some(s) => r is Ok && (r->Ok_0)@ == s,
            None => r is Err && r->Err_0 is Decode,
        }),
{
    match lookup(members, key) {
        Some(Json::Str(cs)) => Ok(string_from_chars(cs.as_slice())),
        _ => Err(decode_err()),
    }
}

fn get_opt_str(members: &Vec<(Vec<char>, Json)>, key: &str) -> (r: Result<
    Option<String>,
    RepologyError,
>)
    ensures
        (match opt_str_field(json_view_members(members@), key@) {
            Some(o) => r is Ok && opt_view(r->Ok_0) == o,
            None => r is Err && r->Err_0 is Decode,
        }),
{
    match lookup(members, key) {
        None => Ok(None),
        Some(Json::Null) => Ok(None),
        Some(Json::Str(cs)) => Ok(Some(string_from_chars(cs.as_slice()))),
        Some(_) => Err(decode_err()),
    }
}

fn get_str_list(items: &Vec<Json>) -> (r: Result<Vec<String>, RepologyError>)
    ensures
        (match str_list_of(json_view_seq(items@)) {
            Some(l) => r is Ok && (r->Ok_0)@.map_values(|x: String| x@) == l,
            None => r is Err && r->Err_0 is Decode,
        }),
{
    proof {
        lemma_json_view_seq(items@);
    }
    let ghost iv = json_view_seq(items@);
    let mut out: Vec<String> = Vec::new();
    let mut i: usize = 0;
    proof {
        assert(iv.skip(0) =~= iv);
        assert(out@.map_values(|x: String| x@) =~= Seq::<Seq<char>>::empty());
    }
    while i < items.len()
        invariant
            i <= items@.len(),
            iv == json_view_seq(items@),
            iv.len() == items@.len(),
            forall|t: int|
                0 <= t < items@.len() ==> iv[t] == crate::json::json_view(items@[t]),
            (match str_list_of(iv.skip(i as int)) {
                Some(t) => str_list_of(iv) == Some(out@.map_values(|x: String| x@) + t),
                None => str_list_of(iv) is None,
            }),
        decreases items@.len() - i,
    {
        proof {
            assert(iv.skip(i as int)[0] == iv[i as int]);
            assert(iv.skip(i as int).drop_first() =~= iv.skip(i as int + 1));
        }
        let ghost pre = out@;
        match &items[i] {
            Json::Str(cs) => {
                out.push(string_from_chars(cs.as_slice()));
                proof {
                    assert(out@ =~= pre.push(out@[pre.len() as int]));
                    assert(out@.map_values(|x: String| x@) =~= pre.map_values(|x: String| x@)
                        + seq![cs@]);
                    if str_list_of(iv.skip(i as int + 1)) is Some {
                        assert(pre.map_values(|x: String| x@) + (seq![cs@] + str_list_of(
                            iv.skip(i as int + 1),
                        )->0) =~= out@.map_values(|x: String| x@) + str_list_of(
                            iv.skip(i as int + 1),
                        )->0);
                    }
                }
            },
            _ => {
                return Err(decode_err());
            },
        }
        i += 1;
    }
    proof {
        assert(iv.skip(i as int).len() == 0);
        assert(out@.map_values(|x: String| x@) + Seq::<Seq<char>>::empty() =~= out@.map_values(
            |x: String| x@,
        ));
    }
    Ok(out)
}

fn get_opt_list(members: &Vec<(Vec<char>, Json)>, key: &str) -> (r: Result<
    Option<Vec<String>>,
    RepologyError,
>)
    ensures
        (match opt_list_field(json_view_members(members@), key@) {
            Some(o) => r is Ok && (match r->Ok_0 {
                Some(v) => o is Some && v@.map_values(|x: String| x@) == o->0,
                None => o is None,
            }),
            None => r is Err && r->Err_0 is Decode,
        }),
{
    match lookup(members, key) {
        None => Ok(None),
        Some(Json::Null) => Ok(None),
        Some(Json::Arr(items)) => match get_str_list(items) {
            Ok(l) => Ok(Some(l)),
            Err(e) => Err(e),
        },
        Some(_) => Err(decode_err()),
    }
}

fn get_opt_status(members: &Vec<(Vec<char>, Json)>, key: &str) -> (r: Result<
    Option<Status>,
    RepologyError,
>)
    ensures
        (match opt_status_field(json_view_members(members@), key@) {
            Some(o) => r is Ok && r->Ok_0 == o,
            None => r is Err && r->Err_0 is Decode,
        }),
{
    match lookup(members, key) {
        None => Ok(None),
        Some(Json::Null) => Ok(None),
        Some(Json::Str(cs)) => match crate::types::status_of_chars(cs.as_slice()) {
            Some(st) => Ok(Some(st)),
            None => Err(decode_err()),
        },
        Some(_) => Err(decode_err()),
    }
}

// ---------------------------------------------------------------------------
// Package
// ---------------------------------------------------------------------------

/// The package a JSON value describes: an object with string members `repo`
/// and `version`, optional string name and summary members, an optional
/// status member, and optional lists of license, maintainer and link strings.
/// Unknown members are ignored.
pub open spec fn spec_package_of_json(v: JsonV) -> Option<PackageV> {
    match v {
        JsonV::Obj(ms) => {
            if req_str_field(ms, "repo"@) is Some && opt_str_field(ms, "name"@) is Some
                && opt_str_field(ms, "srcname"@) is Some && opt_str_field(ms, "binname"@) is Some
                && opt_str_field(ms, "visiblename"@) is Some && req_str_field(ms, "version"@)
                is Some && opt_status_field(ms, "status"@) is Some && opt_str_field(ms, "summary"@)
                is Some && opt_list_field(ms, "licenses"@) is Some && opt_list_field(
                ms,
                "maintainers"@,
            ) is Some && opt_list_field(ms, "www"@) is Some && opt_list_field(ms, "downloads"@)
                is Some {
                Some(
                    PackageV {
                        repo: req_str_field(ms, "repo"@)->0,
                        name: opt_str_field(ms, "name"@)->0,
                        srcname: opt_str_field(ms, "srcname"@)->0,
                        binname: opt_str_field(ms, "binname"@)->0,
                        visiblename: opt_str_field(ms, "visiblename"@)->0,
                        version: req_str_field(ms, "version"@)->0,
                        status: opt_status_field(ms, "status"@)->0,
                        summary: opt_str_field(ms, "summary"@)->0,
                        licenses: opt_list_field(ms, "licenses"@)->0,
                        maintainers: opt_list_field(ms, "maintainers"@)->0,
                        www: opt_list_field(ms, "www"@)->0,
                        downloads: opt_list_field(ms, "downloads"@)->0,
                    },
                )
            } else {
                None
            }
        },
        _ => None,
    }
}

/// Reads one package record out of a JSON value.
pub fn package_of_json(j: &Json) -> (r: Result<Package, RepologyError>)
    ensures
        (match spec_package_of_json(j@) {
            Some(pv) => r is Ok && (r->Ok_0)@ == pv,
            None => r is Err && r->Err_0 is Decode,
        }),
{
    match j {
        Json::Obj(members) => {
            let repo = match get_req_str(members, "repo") {
                Ok(v) => v,
                Err(e) => {
                    return Err(e);
                },
            };
            let name = match get_opt_str(members, "name") {
                Ok(v) => v,
                Err(e) => {
                    return Err(e);
                },
            };
            let srcname = match get_opt_str(members, "srcname") {
                Ok(v) => v,
                Err(e) => {
                    return Err(e);
                },
            };
            let binname = match get_opt_str(members, "binname") {
                Ok(v) => v,
                Err(e) => {
                    return Err(e);
                },
            };
            let visiblename = match get_opt_str(members, "visiblename") {
                Ok(v) => v,
                Err(e) => {
                    return Err(e);
                },
            };
            let version = match get_req_str(members, "version") {
                Ok(v) => v,
                Err(e) => {
                    return Err(e);
                },
            };
            let status = match get_opt_status(members, "status") {
                Ok(v) => v,
                Err(e) => {
                    return Err(e);
                },
            };
            let summary = match get_opt_str(members, "summary") {
                Ok(v) => v,
                Err(e) => {
                    return Err(e);
                },
            };
            let licenses = match get_opt_list(members, "licenses") {
                Ok(v) => v,
                Err(e) => {
                    return Err(e);
                },
            };
            let maintainers = match get_opt_list(members, "maintainers") {
                Ok(v) => v,
                Err(e) => {
                    return Err(e);
                },
            };
            let www = match get_opt_list(members, "www") {
                Ok(v) => v,
                Err(e) => {
                    return Err(e);
                },
            };
            let downloads = match get_opt_list(members, "downloads") {
                Ok(v) => v,
                Err(e) => {
                    return Err(e);
                },
            };
            Ok(
                Package::new(
                    Repo::new(repo),
                    wrap_opt_name(name),
                    wrap_opt_name(srcname),
                    wrap_opt_name(binname),
                    wrap_opt_name(visiblename),
                    Version::new(version),
                    status,
                    wrap_opt_summary(summary),
                    wrap_licenses(licenses),
                    wrap_maintainers(maintainers),
                    wrap_www(www),
                    wrap_downloads(downloads),
                ),
            )
        },
        _ => Err(decode_err()),
    }
}

fn wrap_opt_name(o: Option<String>) -> (r: Option<Name>)
    ensures
        opt_view(r) == opt_view(o),
{
    match o {
        Some(s) => Some(Name::new(s)),
        None => None,
    }
}

fn wrap_opt_summary(o: Option<String>) -> (r: Option<Summary>)
    ensures
        opt_view(r) == opt_view(o),
{
    match o {
        Some(s) => Some(Summary::new(s)),
        None => None,
    }
}

fn wrap_licenses(o: Option<Vec<String>>) -> (r: Option<Vec<License>>)
    ensures
        (match o {
            Some(v) => r is Some && opt_list_view(r) == Some(v@.map_values(|x: String| x@)),
            None => r is None,
        }),
{
    match o {
        Some(v) => {
            let mut out: Vec<License> = Vec::new();
            let mut i: usize = 0;
            proof {
                assert(out@.map_values(|x: License| x@) =~= v@.map_values(|x: String| x@).take(0));
            }
            while i < v.len()
                invariant
                    i <= v@.len(),
                    out@.map_values(|x: License| x@) == v@.map_values(|x: String| x@).take(
                        i as int,
                    ),
                decreases v@.len() - i,
            {
                let ghost pre = out@;
                out.push(License::new(v[i].clone()));
                proof {
                    assert(out@ =~= pre.push(out@[pre.len() as int]));
                    assert(out@.map_values(|x: License| x@) =~= pre.map_values(|x: License| x@)
                        + seq![v@[i as int]@]);
                    assert(out@.map_values(|x: License| x@) =~= v@.map_values(|x: String| x@).take(
                        i as int + 1,
                    ));
                }
                i += 1;
            }
            proof {
                assert(v@.map_values(|x: String| x@).take(i as int) =~= v@.map_values(
                    |x: String| x@,
                ));
            }
            Some(out)
        },
        None => None,
    }
}

fn wrap_maintainers(o: Option<Vec<String>>) -> (r: Option<Vec<Maintainer>>)
    ensures
        (match o {
            Some(v) => r is Some && opt_list_view(r) == Some(v@.map_values(|x: String| x@)),
            None => r is None,
        }),
{
    match o {
        Some(v) => {
            let mut out: Vec<Maintainer> = Vec::new();
            let mut i: usize = 0;
            proof {
                assert(out@.map_values(|x: Maintainer| x@) =~= v@.map_values(|x: String| x@).take(
                    0,
                ));
            }
            while i < v.len()
                invariant
                    i <= v@.len(),
                    out@.map_values(|x: Maintainer| x@) == v@.map_values(|x: String| x@).take(
                        i as int,
                    ),
                decreases v@.len() - i,
            {
                let ghost pre = out@;
                out.push(Maintainer::new(v[i].clone()));
                proof {
                    assert(out@ =~= pre.push(out@[pre.len() as int]));
                    assert(out@.map_values(|x: Maintainer| x@) =~= pre.map_values(
                        |x: Maintainer| x@,
                    ) + seq![v@[i as int]@]);
                    assert(out@.map_values(|x: Maintainer| x@) =~= v@.map_values(
                        |x: String| x@,
                    ).take(i as int + 1));
                }
                i += 1;
            }
            proof {
                assert(v@.map_values(|x: String| x@).take(i as int) =~= v@.map_values(
                    |x: String| x@,
                ));
            }
            Some(out)
        },
        None => None,
    }
}

fn wrap_www(o: Option<Vec<String>>) -> (r: Option<Vec<Www>>)
    ensures
        (match o {
            Some(v) => r is Some && opt_list_view(r) == Some(v@.map_values(|x: String| x@)),
            None => r is None,
        }),
{
    match o {
        Some(v) => {
            let mut out: Vec<Www> = Vec::new();
            let mut i: usize = 0;
            proof {
                assert(out@.map_values(|x: Www| x@) =~= v@.map_values(|x: String| x@).take(0));
            }
            while i < v.len()
                invariant
                    i <= v@.len(),
                    out@.map_values(|x: Www| x@) == v@.map_values(|x: String| x@).take(i as int),
                decreases v@.len() - i,
            {
                let ghost pre = out@;
                out.push(Www::new(v[i].clone()));
                proof {
                    assert(out@ =~= pre.push(out@[pre.len() as int]));
                    assert(out@.map_values(|x: Www| x@) =~= pre.map_values(|x: Www| x@) + seq![
                        v@[i as int]@,
                    ]);
                    assert(out@.map_values(|x: Www| x@) =~= v@.map_values(|x: String| x@).take(
                        i as int + 1,
                    ));
                }
                i += 1;
            }
            proof {
                assert(v@.map_values(|x: String| x@).take(i as int) =~= v@.map_values(
                    |x: String| x@,
                ));
            }
            Some(out)
        },
        None => None,
    }
}

fn wrap_downloads(o: Option<Vec<String>>) -> (r: Option<Vec<Download>>)
    ensures
        (match o {
            Some(v) => r is Some && opt_list_view(r) == Some(v@.map_values(|x: String| x@)),
            None => r is None,
        }),
{
    match o {
        Some(v) => {
            let mut out: Vec<Download> = Vec::new();
            let mut i: usize = 0;
            proof {
                assert(out@.map_values(|x: Download| x@) =~= v@.map_values(|x: String| x@).take(
                    0,
                ));
            }
            while i < v.len()
                invariant
                    i <= v@.len(),
                    out@.map_values(|x: Download| x@) == v@.map_values(|x: String| x@).take(
                        i as int,
                    ),
                decreases v@.len() - i,
            {
                let ghost pre = out@;
                out.push(Download::new(v[i].clone()));
                proof {
                    assert(out@ =~= pre.push(out@[pre.len() as int]));
                    assert(out@.map_values(|x: Download| x@) =~= pre.map_values(|x: Download| x@)
                        + seq![v@[i as int]@]);
                    assert(out@.map_values(|x: Download| x@) =~= v@.map_values(
                        |x: String| x@,
                    ).take(i as int + 1));
                }
                i += 1;
            }
            proof {
                assert(v@.map_values(|x: String| x@).take(i as int) =~= v@.map_values(
                    |x: String| x@,
                ));
            }
            Some(out)
        },
        None => None,
    }
}

// ---------------------------------------------------------------------------
// Package to JSON
// ---------------------------------------------------------------------------

/// An optional string as JSON: absent data is written as null.
pub open spec fn json_of_opt_str(o: Option<Seq<char>>) -> JsonV {
    match o {
        Some(s) => JsonV::Str(s),
        None => JsonV::Null,
    }
}

/// A list of strings as a JSON array of strings.
pub open spec fn json_of_list(l: Seq<Seq<char>>) -> Seq<JsonV> {
    l.map_values(|s: Seq<char>| JsonV::Str(s))
}

/// An optional list of strings as JSON: absent data is written as null.
pub open spec fn json_of_opt_list(o: Option<Seq<Seq<char>>>) -> JsonV {
    match o {
        Some(l) => JsonV::Arr(json_of_list(l)),
        None => JsonV::Null,
    }
}

/// An optional status as JSON: its canonical spelling, or null.
pub open spec fn json_of_opt_status(o: Option<Status>) -> JsonV {
    match o {
        Some(st) => JsonV::Str(st.spec_str()),
        None => JsonV::Null,
    }
}

/// The JSON object the structured renderer writes for one package: every
/// member present, with null standing for absent data.
pub open spec fn spec_package_json(p: PackageV) -> JsonV {
    JsonV::Obj(
        seq![
            ("repo"@, JsonV::Str(p.repo)),
            ("name"@, json_of_opt_str(p.name)),
            ("srcname"@, json_of_opt_str(p.srcname)),
            ("binname"@, json_of_opt_str(p.binname)),
            ("visiblename"@, json_of_opt_str(p.visiblename)),
            ("version"@, JsonV::Str(p.version)),
            ("status"@, json_of_opt_status(p.status)),
            ("summary"@, json_of_opt_str(p.summary)),
            ("licenses"@, json_of_opt_list(p.licenses)),
            ("maintainers"@, json_of_opt_list(p.maintainers)),
            ("www"@, json_of_opt_list(p.www)),
            ("downloads"@, json_of_opt_list(p.downloads)),
        ],
    )
}

fn opt_name_json(o: Option<&Name>) -> (r: Json)
    ensures
        (o is Some ==> r@ == json_of_opt_str(Some(o->0@))),
        (o is None ==> r@ == JsonV::Null),
{
    match o {
        Some(n) => Json::Str(chars_of(n.as_str())),
        None => Json::Null,
    }
}

fn strings_json(v: Vec<String>) -> (r: Json)
    ensures
        r@ == JsonV::Arr(json_of_list(v@.map_values(|x: String| x@))),
{
    let mut items: Vec<Json> = Vec::new();
    let mut i: usize = 0;
    proof {
        lemma_json_view_seq(items@);
        assert(json_view_seq(items@) =~= json_of_list(v@.map_values(|x: String| x@).take(0)));
    }
    while i < v.len()
        invariant
            i <= v@.len(),
            json_view_seq(items@) == json_of_list(v@.map_values(|x: String| x@).take(i as int)),
            items@.len() == i,
        decreases v@.len() - i,
    {
        let ghost pre = items@;
        items.push(Json::Str(chars_of(v[i].as_str())));
        proof {
            assert(items@ =~= pre.push(items@[pre.len() as int]));
            lemma_json_view_seq_push(pre, items@[pre.len() as int]);
            assert(json_view_seq(items@) =~= json_view_seq(pre) + seq![
                crate::json::json_view(items@[pre.len() as int]),
            ]);
            assert(json_view_seq(items@) =~= json_of_list(
                v@.map_values(|x: String| x@).take(i as int + 1),
            ));
        }
        i += 1;
    }
    proof {
        assert(v@.map_values(|x: String| x@).take(i as int) =~= v@.map_values(|x: String| x@));
    }
    Json::Arr(items)
}

/// Appending one tree appends its content.
pub proof fn lemma_json_view_seq_push(s: Seq<Json>, x: Json)
    ensures
        json_view_seq(s.push(x)) == json_view_seq(s) + seq![crate::json::json_view(x)],
    decreases s.len(),
{
    reveal_with_fuel(json_view_seq, 2);
    if s.len() == 0 {
        assert(s.push(x)[0] == x);
        assert(s.push(x).drop_first() =~= Seq::<Json>::empty());
        assert(json_view_seq(s.push(x)) =~= seq![crate::json::json_view(x)]);
        assert(json_view_seq(s) + seq![crate::json::json_view(x)] =~= seq![
            crate::json::json_view(x),
        ]);
    } else {
        lemma_json_view_seq_push(s.drop_first(), x);
        assert(s.push(x).drop_first() =~= s.drop_first().push(x));
        assert(s.push(x)[0] == s[0]);
        assert(json_view_seq(s) + seq![crate::json::json_view(x)] =~= seq![
            crate::json::json_view(s[0]),
        ] + (json_view_seq(s.drop_first()) + seq![crate::json::json_view(x)]));
    }
}

/// Appending one member appends its content.
proof fn lemma_json_view_members_push(s: Seq<(Vec<char>, Json)>, x: (Vec<char>, Json))
    ensures
        json_view_members(s.push(x)) == json_view_members(s) + seq![
            (x.0@, crate::json::json_view(x.1)),
        ],
    decreases s.len(),
{
    reveal_with_fuel(json_view_members, 2);
    if s.len() == 0 {
        assert(s.push(x)[0] == x);
        assert(s.push(x).drop_first() =~= Seq::<(Vec<char>, Json)>::empty());
        assert(json_view_members(s.push(x)) =~= seq![(x.0@, crate::json::json_view(x.1))]);
        assert(json_view_members(s) + seq![(x.0@, crate::json::json_view(x.1))] =~= seq![
            (x.0@, crate::json::json_view(x.1)),
        ]);
    } else {
        lemma_json_view_members_push(s.drop_first(), x);
        assert(s.push(x).drop_first() =~= s.drop_first().push(x));
        assert(s.push(x)[0] == s[0]);
        assert(json_view_members(s) + seq![(x.0@, crate::json::json_view(x.1))] =~= seq![
            (s[0].0@, crate::json::json_view(s[0].1)),
        ] + (json_view_members(s.drop_first()) + seq![(x.0@, crate::json::json_view(x.1))]));
    }
}

pub fn push_member(members: &mut Vec<(Vec<char>, Json)>, key: &str, value: Json)
    ensures
        json_view_members(final(members)@) == json_view_members(old(members)@) + seq![
            (key@, crate::json::json_view(value)),
        ],
{
    let ghost pre = members@;
    let ghost gv = value;
    members.push((chars_of(key), value));
    proof {
        assert(members@ =~= pre.push(members@[pre.len() as int]));
        lemma_json_view_members_push(pre, members@[pre.len() as int]);
        assert(members@[pre.len() as int].0@ == key@);
        assert(members@[pre.len() as int].1 == gv);
    }
}

/// Writes one package as the JSON object of the structured renderer.
pub fn package_to_json(p: &Package) -> (r: Json)
    ensures
        r@ == spec_package_json(p@),
{
    let mut members: Vec<(Vec<char>, Json)> = Vec::new();
    proof {
        assert(json_view_members(members@) =~= Seq::<(Seq<char>, JsonV)>::empty());
    }
    push_member(&mut members, "repo", Json::Str(chars_of(p.repo().as_str())));
    push_member(&mut members, "name", opt_name_json(p.name()));
    push_member(&mut members, "srcname", opt_name_json(p.srcname()));
    push_member(&mut members, "binname", opt_name_json(p.binname()));
    push_member(&mut members, "visiblename", opt_name_json(p.visiblename()));
    push_member(&mut members, "version", Json::Str(chars_of(p.version().as_str())));
    let status_json = match p.status() {
        Some(st) => Json::Str(chars_of(st.as_str())),
        None => Json::Null,
    };
    push_member(&mut members, "status", status_json);
    let summary_json = match p.summary() {
        Some(s) => Json::Str(chars_of(s.as_str())),
        None => Json::Null,
    };
    push_member(&mut members, "summary", summary_json);
    let licenses_json = match p.licenses() {
        Some(v) => {
            let mut strs: Vec<String> = Vec::new();
            let mut i: usize = 0;
            proof {
                assert(strs@.map_values(|x: String| x@) =~= v@.map_values(|x: License| x@).take(
                    0,
                ));
            }
            while i < v.len()
                invariant
                    i <= v@.len(),
                    strs@.map_values(|x: String| x@) == v@.map_values(|x: License| x@).take(
                        i as int,
                    ),
                decreases v@.len() - i,
            {
                let ghost pre = strs@;
                strs.push(String::from_str(v[i].as_str()));
                proof {
                    assert(strs@ =~= pre.push(strs@[pre.len() as int]));
                    assert(strs@.map_values(|x: String| x@) =~= pre.map_values(|x: String| x@)
                        + seq![v@[i as int]@]);
                    assert(strs@.map_values(|x: String| x@) =~= v@.map_values(
                        |x: License| x@,
                    ).take(i as int + 1));
                }
                i += 1;
            }
            proof {
                assert(v@.map_values(|x: License| x@).take(i as int) =~= v@.map_values(
                    |x: License| x@,
                ));
            }
            strings_json(strs)
        },
        None => Json::Null,
    };
    push_member(&mut members, "licenses", licenses_json);
    let maintainers_json = match p.maintainers() {
        Some(v) => {
            let mut strs: Vec<String> = Vec::new();
            let mut i: usize = 0;
            proof {
                assert(strs@.map_values(|x: String| x@) =~= v@.map_values(
                    |x: Maintainer| x@,
                ).take(0));
            }
            while i < v.len()
                invariant
                    i <= v@.len(),
                    strs@.map_values(|x: String| x@) == v@.map_values(|x: Maintainer| x@).take(
                        i as int,
                    ),
                decreases v@.len() - i,
            {
                let ghost pre = strs@;
                strs.push(String::from_str(v[i].as_str()));
                proof {
                    assert(strs@ =~= pre.push(strs@[pre.len() as int]));
                    assert(strs@.map_values(|x: String| x@) =~= pre.map_values(|x: String| x@)
                        + seq![v@[i as int]@]);
                    assert(strs@.map_values(|x: String| x@) =~= v@.map_values(
                        |x: Maintainer| x@,
                    ).take(i as int + 1));
                }
                i += 1;
            }
            proof {
                assert(v@.map_values(|x: Maintainer| x@).take(i as int) =~= v@.map_values(
                    |x: Maintainer| x@,
                ));
            }
            strings_json(strs)
        },
        None => Json::Null,
    };
    push_member(&mut members, "maintainers", maintainers_json);
    let www_json = match p.www() {
        Some(v) => {
            let mut strs: Vec<String> = Vec::new();
            let mut i: usize = 0;
            proof {
                assert(strs@.map_values(|x: String| x@) =~= v@.map_values(|x: Www| x@).take(0));
            }
            while i < v.len()
                invariant
                    i <= v@.len(),
                    strs@.map_values(|x: String| x@) == v@.map_values(|x: Www| x@).take(i as int),
                decreases v@.len() - i,
            {
                let ghost pre = strs@;
                strs.push(String::from_str(v[i].as_str()));
                proof {
                    assert(strs@ =~= pre.push(strs@[pre.len() as int]));
                    assert(strs@.map_values(|x: String| x@) =~= pre.map_values(|x: String| x@)
                        + seq![v@[i as int]@]);
                    assert(strs@.map_values(|x: String| x@) =~= v@.map_values(|x: Www| x@).take(
                        i as int + 1,
                    ));
                }
                i += 1;
            }
            proof {
                assert(v@.map_values(|x: Www| x@).take(i as int) =~= v@.map_values(|x: Www| x@));
            }
            strings_json(strs)
        },
        None => Json::Null,
    };
    push_member(&mut members, "www", www_json);
    let downloads_json = match p.downloads() {
        Some(v) => {
            let mut strs: Vec<String> = Vec::new();
            let mut i: usize = 0;
            proof {
                assert(strs@.map_values(|x: String| x@) =~= v@.map_values(|x: Download| x@).take(
                    0,
                ));
            }
            while i < v.len()
                invariant
                    i <= v@.len(),
                    strs@.map_values(|x: String| x@) == v@.map_values(|x: Download| x@).take(
                        i as int,
                    ),
                decreases v@.len() - i,
            {
                let ghost pre = strs@;
                strs.push(String::from_str(v[i].as_str()));
                proof {
                    assert(strs@ =~= pre.push(strs@[pre.len() as int]));
                    assert(strs@.map_values(|x: String| x@) =~= pre.map_values(|x: String| x@)
                        + seq![v@[i as int]@]);
                    assert(strs@.map_values(|x: String| x@) =~= v@.map_values(
                        |x: Download| x@,
                    ).take(i as int + 1));
                }
                i += 1;
            }
            proof {
                assert(v@.map_values(|x: Download| x@).take(i as int) =~= v@.map_values(
                    |x: Download| x@,
                ));
            }
            strings_json(strs)
        },
        None => Json::Null,
    };
    push_member(&mut members, "downloads", downloads_json);
    let r = Json::Obj(members);
    proof {
        assert(json_view_members(members@) =~= spec_package_json(p@)->Obj_0);
        assert(r@ == spec_package_json(p@));
    }
    r
}

// ---------------------------------------------------------------------------
// Round trips at the record level
// ---------------------------------------------------------------------------

/// A list of strings written as JSON strings reads back unchanged.
proof fn lemma_str_list_round_trip(l: Seq<Seq<char>>)
    ensures
        str_list_of(json_of_list(l)) == Some(l),
    decreases l.len(),
{
    if l.len() == 0 {
        assert(json_of_list(l) =~= Seq::<JsonV>::empty());
        assert(Seq::<Seq<char>>::empty() =~= l);
    } else {
        lemma_str_list_round_trip(l.drop_first());
        assert(json_of_list(l)[0] == JsonV::Str(l[0]));
        assert(json_of_list(l).drop_first() =~= json_of_list(l.drop_first()));
        assert(seq![l[0]] + l.drop_first() =~= l);
    }
}

/// A status spelled canonically reads back as itself.
proof fn lemma_status_round_trip(st: Status)
    ensures
        spec_status_of(st.spec_str()) == Some(st),
{
    reveal_strlit("newest");
    reveal_strlit("devel");
    reveal_strlit("unique");
    reveal_strlit("outdated");
    reveal_strlit("legacy");
    reveal_strlit("rolling");
    reveal_strlit("noscheme");
    reveal_strlit("incorrect");
    reveal_strlit("untrusted");
    reveal_strlit("ignored");
    assert((("newest"@)[0]) != (("devel"@)[0]));
    assert("newest"@ != "devel"@);
    assert((("newest"@)[0]) != (("unique"@)[0]));
    assert("newest"@ != "unique"@);
    assert((("devel"@)[0]) != (("unique"@)[0]));
    assert("devel"@ != "unique"@);
    assert((("newest"@)[0]) != (("outdated"@)[0]));
    assert("newest"@ != "outdated"@);
    assert((("devel"@)[0]) != (("outdated"@)[0]));
    assert("devel"@ != "outdated"@);
    assert((("unique"@)[0]) != (("outdated"@)[0]));
    assert("unique"@ != "outdated"@);
    assert((("newest"@)[0]) != (("legacy"@)[0]));
    assert("newest"@ != "legacy"@);
    assert((("devel"@)[0]) != (("legacy"@)[0]));
    assert("devel"@ != "legacy"@);
    assert((("unique"@)[0]) != (("legacy"@)[0]));
    assert("unique"@ != "legacy"@);
    assert((("outdated"@)[0]) != (("legacy"@)[0]));
    assert("outdated"@ != "legacy"@);
    assert((("newest"@)[0]) != (("rolling"@)[0]));
    assert("newest"@ != "rolling"@);
    assert((("devel"@)[0]) != (("rolling"@)[0]));
    assert("devel"@ != "rolling"@);
    assert((("unique"@)[0]) != (("rolling"@)[0]));
    assert("unique"@ != "rolling"@);
    assert((("outdated"@)[0]) != (("rolling"@)[0]));
    assert("outdated"@ != "rolling"@);
    assert((("legacy"@)[0]) != (("rolling"@)[0]));
    assert("legacy"@ != "rolling"@);
    assert((("newest"@)[1]) != (("noscheme"@)[1]));
    assert("newest"@ != "noscheme"@);
    assert((("devel"@)[0]) != (("noscheme"@)[0]));
    assert("devel"@ != "noscheme"@);
    assert((("unique"@)[0]) != (("noscheme"@)[0]));
    assert("unique"@ != "noscheme"@);
    assert((("outdated"@)[0]) != (("noscheme"@)[0]));
    assert("outdated"@ != "noscheme"@);
    assert((("legacy"@)[0]) != (("noscheme"@)[0]));
    assert("legacy"@ != "noscheme"@);
    assert((("rolling"@)[0]) != (("noscheme"@)[0]));
    assert("rolling"@ != "noscheme"@);
    assert((("newest"@)[0]) != (("incorrect"@)[0]));
    assert("newest"@ != "incorrect"@);
    assert((("devel"@)[0]) != (("incorrect"@)[0]));
    assert("devel"@ != "incorrect"@);
    assert((("unique"@)[0]) != (("incorrect"@)[0]));
    assert("unique"@ != "incorrect"@);
    assert((("outdated"@)[0]) != (("incorrect"@)[0]));
    assert("outdated"@ != "incorrect"@);
    assert((("legacy"@)[0]) != (("incorrect"@)[0]));
    assert("legacy"@ != "incorrect"@);
    assert((("rolling"@)[0]) != (("incorrect"@)[0]));
    assert("rolling"@ != "incorrect"@);
    assert((("noscheme"@)[0]) != (("incorrect"@)[0]));
    assert("noscheme"@ != "incorrect"@);
    assert((("newest"@)[0]) != (("untrusted"@)[0]));
    assert("newest"@ != "untrusted"@);
    assert((("devel"@)[0]) != (("untrusted"@)[0]));
    assert("devel"@ != "untrusted"@);
    assert((("unique"@)[2]) != (("untrusted"@)[2]));
    assert("unique"@ != "untrusted"@);
    assert((("outdated"@)[0]) != (("untrusted"@)[0]));
    assert("outdated"@ != "untrusted"@);
    assert((("legacy"@)[0]) != (("untrusted"@)[0]));
    assert("legacy"@ != "untrusted"@);
    assert((("rolling"@)[0]) != (("untrusted"@)[0]));
    assert("rolling"@ != "untrusted"@);
    assert((("noscheme"@)[0]) != (("untrusted"@)[0]));
    assert("noscheme"@ != "untrusted"@);
    assert((("incorrect"@)[0]) != (("untrusted"@)[0]));
    assert("incorrect"@ != "untrusted"@);
    assert((("newest"@)[0]) != (("ignored"@)[0]));
    assert("newest"@ != "ignored"@);
    assert((("devel"@)[0]) != (("ignored"@)[0]));
    assert("devel"@ != "ignored"@);
    assert((("unique"@)[0]) != (("ignored"@)[0]));
    assert("unique"@ != "ignored"@);
    assert((("outdated"@)[0]) != (("ignored"@)[0]));
    assert("outdated"@ != "ignored"@);
    assert((("legacy"@)[0]) != (("ignored"@)[0]));
    assert("legacy"@ != "ignored"@);
    assert((("rolling"@)[0]) != (("ignored"@)[0]));
    assert("rolling"@ != "ignored"@);
    assert((("noscheme"@)[0]) != (("ignored"@)[0]));
    assert("noscheme"@ != "ignored"@);
    assert((("incorrect"@)[1]) != (("ignored"@)[1]));
    assert("incorrect"@ != "ignored"@);
    assert((("untrusted"@)[0]) != (("ignored"@)[0]));
    assert("untrusted"@ != "ignored"@);
}

/// The JSON written for an optional list of strings is well-formed.
proof fn lemma_opt_list_wf(o: Option<Seq<Seq<char>>>)
    ensures
        wf_json(json_of_opt_list(o)),
{
    match o {
        Some(l) => {
            assert forall|k: int| 0 <= k < json_of_list(l).len() implies wf_json(
                #[trigger] json_of_list(l)[k],
            ) by {
                assert(json_of_list(l)[k] == JsonV::Str(l[k]));
            }
        },
        None => {},
    }
}

/// The JSON written for a package is well-formed.
proof fn lemma_package_json_wf(p: PackageV)
    ensures
        wf_json(spec_package_json(p)),
{
    let ms = spec_package_json(p)->Obj_0;
    lemma_opt_list_wf(p.licenses);
    lemma_opt_list_wf(p.maintainers);
    lemma_opt_list_wf(p.www);
    lemma_opt_list_wf(p.downloads);
    assert forall|i: int| 0 <= i < ms.len() implies wf_json(#[trigger] ms[i].1) by {
        if i == 0 {
        } else if i == 1 {
        } else if i == 2 {
        } else if i == 3 {
        } else if i == 4 {
        } else if i == 5 {
        } else if i == 6 {
        } else if i == 7 {
        } else if i == 8 {
        } else if i == 9 {
        } else if i == 10 {
        } else if i == 11 {
        }
    }
}

/// Reading back the JSON written for a package yields the package.
pub proof fn lemma_package_round_trip(p: PackageV)
    ensures
        spec_package_of_json(spec_package_json(p)) == Some(p),
{
    let ms = spec_package_json(p)->Obj_0;
    reveal_strlit("repo");
    reveal_strlit("name");
    reveal_strlit("srcname");
    reveal_strlit("binname");
    reveal_strlit("visiblename");
    reveal_strlit("version");
    reveal_strlit("status");
    reveal_strlit("summary");
    reveal_strlit("licenses");
    reveal_strlit("maintainers");
    reveal_strlit("www");
    reveal_strlit("downloads");
    assert((("repo"@)[0]) != (("name"@)[0]));
    assert("repo"@ != "name"@);
    assert((("repo"@)[0]) != (("srcname"@)[0]));
    assert("repo"@ != "srcname"@);
    assert((("name"@)[0]) != (("srcname"@)[0]));
    assert("name"@ != "srcname"@);
    assert((("repo"@)[0]) != (("binname"@)[0]));
    assert("repo"@ != "binname"@);
    assert((("name"@)[0]) != (("binname"@)[0]));
    assert("name"@ != "binname"@);
    assert((("srcname"@)[0]) != (("binname"@)[0]));
    assert("srcname"@ != "binname"@);
    assert((("repo"@)[0]) != (("visiblename"@)[0]));
    assert("repo"@ != "visiblename"@);
    assert((("name"@)[0]) != (("visiblename"@)[0]));
    assert("name"@ != "visiblename"@);
    assert((("srcname"@)[0]) != (("visiblename"@)[0]));
    assert("srcname"@ != "visiblename"@);
    assert((("binname"@)[0]) != (("visiblename"@)[0]));
    assert("binname"@ != "visiblename"@);
    assert((("repo"@)[0]) != (("version"@)[0]));
    assert("repo"@ != "version"@);
    assert((("name"@)[0]) != (("version"@)[0]));
    assert("name"@ != "version"@);
    assert((("srcname"@)[0]) != (("version"@)[0]));
    assert("srcname"@ != "version"@);
    assert((("binname"@)[0]) != (("version"@)[0]));
    assert("binname"@ != "version"@);
    assert((("visiblename"@)[1]) != (("version"@)[1]));
    assert("visiblename"@ != "version"@);
    assert((("repo"@)[0]) != (("status"@)[0]));
    assert("repo"@ != "status"@);
    assert((("name"@)[0]) != (("status"@)[0]));
    assert("name"@ != "status"@);
    assert((("srcname"@)[1]) != (("status"@)[1]));
    assert("srcname"@ != "status"@);
    assert((("binname"@)[0]) != (("status"@)[0]));
    assert("binname"@ != "status"@);
    assert((("visiblename"@)[0]) != (("status"@)[0]));
    assert("visiblename"@ != "status"@);
    assert((("version"@)[0]) != (("status"@)[0]));
    assert("version"@ != "status"@);
    assert((("repo"@)[0]) != (("summary"@)[0]));
    assert("repo"@ != "summary"@);
    assert((("name"@)[0]) != (("summary"@)[0]));
    assert("name"@ != "summary"@);
    assert((("srcname"@)[1]) != (("summary"@)[1]));
    assert("srcname"@ != "summary"@);
    assert((("binname"@)[0]) != (("summary"@)[0]));
    assert("binname"@ != "summary"@);
    assert((("visiblename"@)[0]) != (("summary"@)[0]));
    assert("visiblename"@ != "summary"@);
    assert((("version"@)[0]) != (("summary"@)[0]));
    assert("version"@ != "summary"@);
    assert((("status"@)[1]) != (("summary"@)[1]));
    assert("status"@ != "summary"@);
    assert((("repo"@)[0]) != (("licenses"@)[0]));
    assert("repo"@ != "licenses"@);
    assert((("name"@)[0]) != (("licenses"@)[0]));
    assert("name"@ != "licenses"@);
    assert((("srcname"@)[0]) != (("licenses"@)[0]));
    assert("srcname"@ != "licenses"@);
    assert((("binname"@)[0]) != (("licenses"@)[0]));
    assert("binname"@ != "licenses"@);
    assert((("visiblename"@)[0]) != (("licenses"@)[0]));
    assert("visiblename"@ != "licenses"@);
    assert((("version"@)[0]) != (("licenses"@)[0]));
    assert("version"@ != "licenses"@);
    assert((("status"@)[0]) != (("licenses"@)[0]));
    assert("status"@ != "licenses"@);
    assert((("summary"@)[0]) != (("licenses"@)[0]));
    assert("summary"@ != "licenses"@);
    assert((("repo"@)[0]) != (("maintainers"@)[0]));
    assert("repo"@ != "maintainers"@);
    assert((("name"@)[0]) != (("maintainers"@)[0]));
    assert("name"@ != "maintainers"@);
    assert((("srcname"@)[0]) != (("maintainers"@)[0]));
    assert("srcname"@ != "maintainers"@);
    assert((("binname"@)[0]) != (("maintainers"@)[0]));
    assert("binname"@ != "maintainers"@);
    assert((("visiblename"@)[0]) != (("maintainers"@)[0]));
    assert("visiblename"@ != "maintainers"@);
    assert((("version"@)[0]) != (("maintainers"@)[0]));
    assert("version"@ != "maintainers"@);
    assert((("status"@)[0]) != (("maintainers"@)[0]));
    assert("status"@ != "maintainers"@);
    assert((("summary"@)[0]) != (("maintainers"@)[0]));
    assert("summary"@ != "maintainers"@);
    assert((("licenses"@)[0]) != (("maintainers"@)[0]));
    assert("licenses"@ != "maintainers"@);
    assert((("repo"@)[0]) != (("www"@)[0]));
    assert("repo"@ != "www"@);
    assert((("name"@)[0]) != (("www"@)[0]));
    assert("name"@ != "www"@);
    assert((("srcname"@)[0]) != (("www"@)[0]));
    assert("srcname"@ != "www"@);
    assert((("binname"@)[0]) != (("www"@)[0]));
    assert("binname"@ != "www"@);
    assert((("visiblename"@)[0]) != (("www"@)[0]));
    assert("visiblename"@ != "www"@);
    assert((("version"@)[0]) != (("www"@)[0]));
    assert("version"@ != "www"@);
    assert((("status"@)[0]) != (("www"@)[0]));
    assert("status"@ != "www"@);
    assert((("summary"@)[0]) != (("www"@)[0]));
    assert("summary"@ != "www"@);
    assert((("licenses"@)[0]) != (("www"@)[0]));
    assert("licenses"@ != "www"@);
    assert((("maintainers"@)[0]) != (("www"@)[0]));
    assert("maintainers"@ != "www"@);
    assert((("repo"@)[0]) != (("downloads"@)[0]));
    assert("repo"@ != "downloads"@);
    assert((("name"@)[0]) != (("downloads"@)[0]));
    assert("name"@ != "downloads"@);
    assert((("srcname"@)[0]) != (("downloads"@)[0]));
    assert("srcname"@ != "downloads"@);
    assert((("binname"@)[0]) != (("downloads"@)[0]));
    assert("binname"@ != "downloads"@);
    assert((("visiblename"@)[0]) != (("downloads"@)[0]));
    assert("visiblename"@ != "downloads"@);
    assert((("version"@)[0]) != (("downloads"@)[0]));
    assert("version"@ != "downloads"@);
    assert((("status"@)[0]) != (("downloads"@)[0]));
    assert("status"@ != "downloads"@);
    assert((("summary"@)[0]) != (("downloads"@)[0]));
    assert("summary"@ != "downloads"@);
    assert((("licenses"@)[0]) != (("downloads"@)[0]));
    assert("licenses"@ != "downloads"@);
    assert((("maintainers"@)[0]) != (("downloads"@)[0]));
    assert("maintainers"@ != "downloads"@);
    assert((("www"@)[0]) != (("downloads"@)[0]));
    assert("www"@ != "downloads"@);
    assert(ms[0].0 == "repo"@);
    assert(ms[1].0 == "name"@);
    assert(ms[2].0 == "srcname"@);
    assert(ms[3].0 == "binname"@);
    assert(ms[4].0 == "visiblename"@);
    assert(ms[5].0 == "version"@);
    assert(ms[6].0 == "status"@);
    assert(ms[7].0 == "summary"@);
    assert(ms[8].0 == "licenses"@);
    assert(ms[9].0 == "maintainers"@);
    assert(ms[10].0 == "www"@);
    assert(ms[11].0 == "downloads"@);
    lemma_lookup_at(ms, "repo"@, 0);
    assert forall|j: int| 0 <= j < 1 implies ms[j].0 != "name"@ by {
        if j == 0 {
        }
    }
    lemma_lookup_at(ms, "name"@, 1);
    assert forall|j: int| 0 <= j < 2 implies ms[j].0 != "srcname"@ by {
        if j == 0 {
        } else if j == 1 {
        }
    }
    lemma_lookup_at(ms, "srcname"@, 2);
    assert forall|j: int| 0 <= j < 3 implies ms[j].0 != "binname"@ by {
        if j == 0 {
        } else if j == 1 {
        } else if j == 2 {
        }
    }
    lemma_lookup_at(ms, "binname"@, 3);
    assert forall|j: int| 0 <= j < 4 implies ms[j].0 != "visiblename"@ by {
        if j == 0 {
        } else if j == 1 {
        } else if j == 2 {
        } else if j == 3 {
        }
    }
    lemma_lookup_at(ms, "visiblename"@, 4);
    assert forall|j: int| 0 <= j < 5 implies ms[j].0 != "version"@ by {
        if j == 0 {
        } else if j == 1 {
        } else if j == 2 {
        } else if j == 3 {
        } else if j == 4 {
        }
    }
    lemma_lookup_at(ms, "version"@, 5);
    assert forall|j: int| 0 <= j < 6 implies ms[j].0 != "status"@ by {
        if j == 0 {
        } else if j == 1 {
        } else if j == 2 {
        } else if j == 3 {
        } else if j == 4 {
        } else if j == 5 {
        }
    }
    lemma_lookup_at(ms, "status"@, 6);
    assert forall|j: int| 0 <= j < 7 implies ms[j].0 != "summary"@ by {
        if j == 0 {
        } else if j == 1 {
        } else if j == 2 {
        } else if j == 3 {
        } else if j == 4 {
        } else if j == 5 {
        } else if j == 6 {
        }
    }
    lemma_lookup_at(ms, "summary"@, 7);
    assert forall|j: int| 0 <= j < 8 implies ms[j].0 != "licenses"@ by {
        if j == 0 {
        } else if j == 1 {
        } else if j == 2 {
        } else if j == 3 {
        } else if j == 4 {
        } else if j == 5 {
        } else if j == 6 {
        } else if j == 7 {
        }
    }
    lemma_lookup_at(ms, "licenses"@, 8);
    assert forall|j: int| 0 <= j < 9 implies ms[j].0 != "maintainers"@ by {
        if j == 0 {
        } else if j == 1 {
        } else if j == 2 {
        } else if j == 3 {
        } else if j == 4 {
        } else if j == 5 {
        } else if j == 6 {
        } else if j == 7 {
        } else if j == 8 {
        }
    }
    lemma_lookup_at(ms, "maintainers"@, 9);
    assert forall|j: int| 0 <= j < 10 implies ms[j].0 != "www"@ by {
        if j == 0 {
        } else if j == 1 {
        } else if j == 2 {
        } else if j == 3 {
        } else if j == 4 {
        } else if j == 5 {
        } else if j == 6 {
        } else if j == 7 {
        } else if j == 8 {
        } else if j == 9 {
        }
    }
    lemma_lookup_at(ms, "www"@, 10);
    assert forall|j: int| 0 <= j < 11 implies ms[j].0 != "downloads"@ by {
        if j == 0 {
        } else if j == 1 {
        } else if j == 2 {
        } else if j == 3 {
        } else if j == 4 {
        } else if j == 5 {
        } else if j == 6 {
        } else if j == 7 {
        } else if j == 8 {
        } else if j == 9 {
        } else if j == 10 {
        }
    }
    lemma_lookup_at(ms, "downloads"@, 11);
    assert(req_str_field(ms, "repo"@) == Some(p.repo));
    assert(opt_str_field(ms, "name"@) == Some(p.name));
    assert(opt_str_field(ms, "srcname"@) == Some(p.srcname));
    assert(opt_str_field(ms, "binname"@) == Some(p.binname));
    assert(opt_str_field(ms, "visiblename"@) == Some(p.visiblename));
    assert(req_str_field(ms, "version"@) == Some(p.version));
    assert(opt_status_field(ms, "status"@) == Some(p.status)) by {
        match p.status {
            Some(st) => {
                lemma_status_round_trip(st);
            },
            None => {},
        }
    }
    assert(opt_str_field(ms, "summary"@) == Some(p.summary));
    assert(opt_list_field(ms, "licenses"@) == Some(p.licenses)) by {
        match p.licenses {
            Some(l) => {
                lemma_str_list_round_trip(l);
            },
            None => {},
        }
    }
    assert(opt_list_field(ms, "maintainers"@) == Some(p.maintainers)) by {
        match p.maintainers {
            Some(l) => {
                lemma_str_list_round_trip(l);
            },
            None => {},
        }
    }
    assert(opt_list_field(ms, "www"@) == Some(p.www)) by {
        match p.www {
            Some(l) => {
                lemma_str_list_round_trip(l);
            },
            None => {},
        }
    }
    assert(opt_list_field(ms, "downloads"@) == Some(p.downloads)) by {
        match p.downloads {
            Some(l) => {
                lemma_str_list_round_trip(l);
            },
            None => {},
        }
    }
    assert(spec_package_of_json(spec_package_json(p))->0 == p);
}

// ---------------------------------------------------------------------------
// Problem
// ---------------------------------------------------------------------------

/// The problem report a JSON value describes: an object with the five string
/// members `repo`, `name`, `effname`, `maintainer` and `problem`.
pub open spec fn spec_problem_of_json(v: JsonV) -> Option<ProblemV> {
    match v {
        JsonV::Obj(ms) => {
            if req_str_field(ms, "repo"@) is Some && req_str_field(ms, "name"@) is Some
                && req_str_field(ms, "effname"@) is Some && req_str_field(ms, "maintainer"@)
                is Some && req_str_field(ms, "problem"@) is Some {
                Some(
                    ProblemV {
                        repo: req_str_field(ms, "repo"@)->0,
                        name: req_str_field(ms, "name"@)->0,
                        effname: req_str_field(ms, "effname"@)->0,
                        maintainer: req_str_field(ms, "maintainer"@)->0,
                        description: req_str_field(ms, "problem"@)->0,
                    },
                )
            } else {
                None
            }
        },
        _ => None,
    }
}

/// Reads one problem report out of a JSON value.
pub fn problem_of_json(j: &Json) -> (r: Result<Problem, RepologyError>)
    ensures
        (match spec_problem_of_json(j@) {
            Some(pv) => r is Ok && (r->Ok_0)@ == pv,
            None => r is Err && r->Err_0 is Decode,
        }),
{
    match j {
        Json::Obj(members) => {
            let repo = match get_req_str(members, "repo") {
                Ok(v) => v,
                Err(e) => {
                    return Err(e);
                },
            };
            let name = match get_req_str(members, "name") {
                Ok(v) => v,
                Err(e) => {
                    return Err(e);
                },
            };
            let effname = match get_req_str(members, "effname") {
                Ok(v) => v,
                Err(e) => {
                    return Err(e);
                },
            };
            let maintainer = match get_req_str(members, "maintainer") {
                Ok(v) => v,
                Err(e) => {
                    return Err(e);
                },
            };
            let problem = match get_req_str(members, "problem") {
                Ok(v) => v,
                Err(e) => {
                    return Err(e);
                },
            };
            Ok(
                Problem::new(
                    Repo::new(repo),
                    Name::new(name),
                    crate::types::EffName::new(effname),
                    Maintainer::new(maintainer),
                    problem,
                ),
            )
        },
        _ => Err(decode_err()),
    }
}

/// The JSON object the structured renderer writes for one problem report.
pub open spec fn spec_problem_json(p: ProblemV) -> JsonV {
    JsonV::Obj(
        seq![
            ("repo"@, JsonV::Str(p.repo)),
            ("name"@, JsonV::Str(p.name)),
            ("effname"@, JsonV::Str(p.effname)),
            ("maintainer"@, JsonV::Str(p.maintainer)),
            ("problem"@, JsonV::Str(p.description)),
        ],
    )
}

/// Writes one problem report as a JSON object.
pub fn problem_to_json(p: &Problem) -> (r: Json)
    ensures
        r@ == spec_problem_json(p@),
{
    let mut members: Vec<(Vec<char>, Json)> = Vec::new();
    proof {
        assert(json_view_members(members@) =~= Seq::<(Seq<char>, JsonV)>::empty());
    }
    push_member(&mut members, "repo", Json::Str(chars_of(p.repo().as_str())));
    push_member(&mut members, "name", Json::Str(chars_of(p.name().as_str())));
    push_member(&mut members, "effname", Json::Str(chars_of(p.effname().as_str())));
    push_member(&mut members, "maintainer", Json::Str(chars_of(p.maintainer().as_str())));
    push_member(&mut members, "problem", Json::Str(chars_of(p.problem_description().as_str())));
    let r = Json::Obj(members);
    proof {
        assert(json_view_members(members@) =~= spec_problem_json(p@)->Obj_0);
    }
    r
}

/// The JSON written for a problem report is well-formed.
proof fn lemma_problem_json_wf(p: ProblemV)
    ensures
        wf_json(spec_problem_json(p)),
{
    let ms = spec_problem_json(p)->Obj_0;
    assert forall|i: int| 0 <= i < ms.len() implies wf_json(#[trigger] ms[i].1) by {
        if i == 0 {
        } else if i == 1 {
        } else if i == 2 {
        } else if i == 3 {
        } else if i == 4 {
        }
    }
}

/// Reading back the JSON written for a problem report yields the report.
pub proof fn lemma_problem_round_trip(p: ProblemV)
    ensures
        spec_problem_of_json(spec_problem_json(p)) == Some(p),
{
    let ms = spec_problem_json(p)->Obj_0;
    reveal_strlit("repo");
    reveal_strlit("name");
    reveal_strlit("effname");
    reveal_strlit("maintainer");
    reveal_strlit("problem");
    assert((("repo"@)[0]) != (("name"@)[0]));
    assert("repo"@ != "name"@);
    assert((("repo"@)[0]) != (("effname"@)[0]));
    assert("repo"@ != "effname"@);
    assert((("name"@)[0]) != (("effname"@)[0]));
    assert("name"@ != "effname"@);
    assert((("repo"@)[0]) != (("maintainer"@)[0]));
    assert("repo"@ != "maintainer"@);
    assert((("name"@)[0]) != (("maintainer"@)[0]));
    assert("name"@ != "maintainer"@);
    assert((("effname"@)[0]) != (("maintainer"@)[0]));
    assert("effname"@ != "maintainer"@);
    assert((("repo"@)[0]) != (("problem"@)[0]));
    assert("repo"@ != "problem"@);
    assert((("name"@)[0]) != (("problem"@)[0]));
    assert("name"@ != "problem"@);
    assert((("effname"@)[0]) != (("problem"@)[0]));
    assert("effname"@ != "problem"@);
    assert((("maintainer"@)[0]) != (("problem"@)[0]));
    assert("maintainer"@ != "problem"@);
    assert(ms[0].0 == "repo"@);
    assert(ms[1].0 == "name"@);
    assert(ms[2].0 == "effname"@);
    assert(ms[3].0 == "maintainer"@);
    assert(ms[4].0 == "problem"@);
    lemma_lookup_at(ms, "repo"@, 0);
    assert forall|j: int| 0 <= j < 1 implies ms[j].0 != "name"@ by {
        if j == 0 {
        }
    }
    lemma_lookup_at(ms, "name"@, 1);
    assert forall|j: int| 0 <= j < 2 implies ms[j].0 != "effname"@ by {
        if j == 0 {
        } else if j == 1 {
        }
    }
    lemma_lookup_at(ms, "effname"@, 2);
    assert forall|j: int| 0 <= j < 3 implies ms[j].0 != "maintainer"@ by {
        if j == 0 {
        } else if j == 1 {
        } else if j == 2 {
        }
    }
    lemma_lookup_at(ms, "maintainer"@, 3);
    assert forall|j: int| 0 <= j < 4 implies ms[j].0 != "problem"@ by {
        if j == 0 {
        } else if j == 1 {
        } else if j == 2 {
        } else if j == 3 {
        }
    }
    lemma_lookup_at(ms, "problem"@, 4);
    assert(spec_problem_of_json(spec_problem_json(p))->0 == p);
}

// ---------------------------------------------------------------------------
// ComparePackage
// ---------------------------------------------------------------------------

/// The local package a JSON value describes: an object with string members
/// `name` and `version`; other members, such as a comment, are ignored.
pub open spec fn spec_compare_of_json(v: JsonV) -> Option<CompareV> {
    match v {
        JsonV::Obj(ms) => {
            if req_str_field(ms, "name"@) is Some && req_str_field(ms, "version"@) is Some {
                Some(
                    CompareV {
                        name: req_str_field(ms, "name"@)->0,
                        version: req_str_field(ms, "version"@)->0,
                    },
                )
            } else {
                None
            }
        },
        _ => None,
    }
}

/// Reads one local package out of a JSON value.
pub fn compare_of_json(j: &Json) -> (r: Result<ComparePackage, RepologyError>)
    ensures
        (match spec_compare_of_json(j@) {
            Some(cv) => r is Ok && (r->Ok_0)@ == cv,
            None => r is Err && r->Err_0 is Decode,
        }),
{
    match j {
        Json::Obj(members) => {
            let name = match get_req_str(members, "name") {
                Ok(v) => v,
                Err(e) => {
                    return Err(e);
                },
            };
            let version = match get_req_str(members, "version") {
                Ok(v) => v,
                Err(e) => {
                    return Err(e);
                },
            };
            Ok(ComparePackage::new(name, version))
        },
        _ => Err(decode_err()),
    }
}

// ---------------------------------------------------------------------------
// Record lists
// ---------------------------------------------------------------------------

/// The packages of a JSON array, all of which must be package objects.
pub open spec fn spec_packages_of_items(items: Seq<JsonV>) -> Option<Seq<PackageV>>
    decreases items.len(),
{
    if items.len() == 0 {
        Some(Seq::empty())
    } else {
        match spec_package_of_json(items[0]) {
            Some(p) => match spec_packages_of_items(items.drop_first()) {
                Some(t) => Some(seq![p] + t),
                None => None,
            },
            None => None,
        }
    }
}

pub open spec fn spec_packages_of_json(v: JsonV) -> Option<Seq<PackageV>> {
    match v {
        JsonV::Arr(items) => spec_packages_of_items(items),
        _ => None,
    }
}

/// The contents of a list of package records.
pub open spec fn pkgs_view(s: Seq<Package>) -> Seq<PackageV> {
    s.map_values(|p: Package| p@)
}

/// The contents of a list of problem records.
pub open spec fn probs_view(s: Seq<Problem>) -> Seq<ProblemV> {
    s.map_values(|p: Problem| p@)
}

/// The contents of a list of local packages.
pub open spec fn cmps_view(s: Seq<ComparePackage>) -> Seq<CompareV> {
    s.map_values(|p: ComparePackage| p@)
}

/// The JSON array the structured renderer writes for a package list.
pub open spec fn spec_packages_json(ps: Seq<PackageV>) -> JsonV {
    JsonV::Arr(ps.map_values(|p: PackageV| spec_package_json(p)))
}

/// The JSON array the structured renderer writes for a problem list.
pub open spec fn spec_problems_json(ps: Seq<ProblemV>) -> JsonV {
    JsonV::Arr(ps.map_values(|p: ProblemV| spec_problem_json(p)))
}

/// Reads a package list out of a JSON value.
#[verifier::loop_isolation(false)]
pub fn packages_of_json(j: &Json) -> (r: Result<Vec<Package>, RepologyError>)
    ensures
        (match spec_packages_of_json(j@) {
            Some(ps) => r is Ok && pkgs_view((r->Ok_0)@) == ps,
            None => r is Err && r->Err_0 is Decode,
        }),
{
    match j {
        Json::Arr(items) => {
            proof {
                lemma_json_view_seq(items@);
            }
            let ghost iv = json_view_seq(items@);
            let mut out: Vec<Package> = Vec::new();
            let mut i: usize = 0;
            proof {
                assert(iv.skip(0) =~= iv);
                assert(pkgs_view(out@) =~= Seq::<PackageV>::empty());
            }
            while i < items.len()
                invariant
                    i <= items@.len(),
                    iv == json_view_seq(items@),
                    iv.len() == items@.len(),
                    forall|t: int|
                        0 <= t < items@.len() ==> iv[t] == crate::json::json_view(items@[t]),
                    (match spec_packages_of_items(iv.skip(i as int)) {
                        Some(t) => spec_packages_of_items(iv) == Some(pkgs_view(out@) + t),
                        None => spec_packages_of_items(iv) is None,
                    }),
                decreases items@.len() - i,
            {
                proof {
                    assert(iv.skip(i as int)[0] == iv[i as int]);
                    assert(iv.skip(i as int).drop_first() =~= iv.skip(i as int + 1));
                }
                let ghost pre = out@;
                match package_of_json(&items[i]) {
                    Ok(p) => {
                        out.push(p);
                        proof {
                            assert(out@ =~= pre.push(out@[pre.len() as int]));
                            assert(pkgs_view(out@) =~= pkgs_view(pre) + seq![
                                out@[pre.len() as int]@,
                            ]);
                            if spec_packages_of_items(iv.skip(i as int + 1)) is Some {
                                assert(pkgs_view(pre) + (seq![out@[pre.len() as int]@]
                                    + spec_packages_of_items(iv.skip(i as int + 1))->0)
                                    =~= pkgs_view(out@) + spec_packages_of_items(
                                    iv.skip(i as int + 1),
                                )->0);
                            }
                        }
                    },
                    Err(e) => {
                        return Err(e);
                    },
                }
                i += 1;
            }
            proof {
                assert(iv.skip(i as int).len() == 0);
                assert(pkgs_view(out@) + Seq::<PackageV>::empty() =~= pkgs_view(out@));
            }
            Ok(out)
        },
        _ => Err(decode_err()),
    }
}

/// The problem reports of a JSON array.
pub open spec fn spec_problems_of_items(items: Seq<JsonV>) -> Option<Seq<ProblemV>>
    decreases items.len(),
{
    if items.len() == 0 {
        Some(Seq::empty())
    } else {
        match spec_problem_of_json(items[0]) {
            Some(p) => match spec_problems_of_items(items.drop_first()) {
                Some(t) => Some(seq![p] + t),
                None => None,
            },
            None => None,
        }
    }
}

pub open spec fn spec_problems_of_json(v: JsonV) -> Option<Seq<ProblemV>> {
    match v {
        JsonV::Arr(items) => spec_problems_of_items(items),
        _ => None,
    }
}

/// Reads a problem list out of a JSON value.
#[verifier::loop_isolation(false)]
pub fn problems_of_json(j: &Json) -> (r: Result<Vec<Problem>, RepologyError>)
    ensures
        (match spec_problems_of_json(j@) {
            Some(ps) => r is Ok && probs_view((r->Ok_0)@) == ps,
            None => r is Err && r->Err_0 is Decode,
        }),
{
    match j {
        Json::Arr(items) => {
            proof {
                lemma_json_view_seq(items@);
            }
            let ghost iv = json_view_seq(items@);
            let mut out: Vec<Problem> = Vec::new();
            let mut i: usize = 0;
            proof {
                assert(iv.skip(0) =~= iv);
                assert(probs_view(out@) =~= Seq::<ProblemV>::empty());
            }
            while i < items.len()
                invariant
                    i <= items@.len(),
                    iv == json_view_seq(items@),
                    iv.len() == items@.len(),
                    forall|t: int|
                        0 <= t < items@.len() ==> iv[t] == crate::json::json_view(items@[t]),
                    (match spec_problems_of_items(iv.skip(i as int)) {
                        Some(t) => spec_problems_of_items(iv) == Some(probs_view(out@) + t),
                        None => spec_problems_of_items(iv) is None,
                    }),
                decreases items@.len() - i,
            {
                proof {
                    assert(iv.skip(i as int)[0] == iv[i as int]);
                    assert(iv.skip(i as int).drop_first() =~= iv.skip(i as int + 1));
                }
                let ghost pre = out@;
                match problem_of_json(&items[i]) {
                    Ok(p) => {
                        out.push(p);
                        proof {
                            assert(out@ =~= pre.push(out@[pre.len() as int]));
                            assert(probs_view(out@) =~= probs_view(pre) + seq![
                                out@[pre.len() as int]@,
                            ]);
                            if spec_problems_of_items(iv.skip(i as int + 1)) is Some {
                                assert(probs_view(pre) + (seq![out@[pre.len() as int]@]
                                    + spec_problems_of_items(iv.skip(i as int + 1))->0)
                                    =~= probs_view(out@) + spec_problems_of_items(
                                    iv.skip(i as int + 1),
                                )->0);
                            }
                        }
                    },
                    Err(e) => {
                        return Err(e);
                    },
                }
                i += 1;
            }
            proof {
                assert(iv.skip(i as int).len() == 0);
                assert(probs_view(out@) + Seq::<ProblemV>::empty() =~= probs_view(out@));
            }
            Ok(out)
        },
        _ => Err(decode_err()),
    }
}

/// The local packages of a JSON array.
pub open spec fn spec_compares_of_items(items: Seq<JsonV>) -> Option<Seq<CompareV>>
    decreases items.len(),
{
    if items.len() == 0 {
        Some(Seq::empty())
    } else {
        match spec_compare_of_json(items[0]) {
            Some(p) => match spec_compares_of_items(items.drop_first()) {
                Some(t) => Some(seq![p] + t),
                None => None,
            },
            None => None,
        }
    }
}

pub open spec fn spec_compares_of_json(v: JsonV) -> Option<Seq<CompareV>> {
    match v {
        JsonV::Arr(items) => spec_compares_of_items(items),
        _ => None,
    }
}

/// Reads a local-package list out of a JSON value.
#[verifier::loop_isolation(false)]
pub fn compares_of_json(j: &Json) -> (r: Result<Vec<ComparePackage>, RepologyError>)
    ensures
        (match spec_compares_of_json(j@) {
            Some(ps) => r is Ok && cmps_view((r->Ok_0)@) == ps,
            None => r is Err && r->Err_0 is Decode,
        }),
{
    match j {
        Json::Arr(items) => {
            proof {
                lemma_json_view_seq(items@);
            }
            let ghost iv = json_view_seq(items@);
            let mut out: Vec<ComparePackage> = Vec::new();
            let mut i: usize = 0;
            proof {
                assert(iv.skip(0) =~= iv);
                assert(cmps_view(out@) =~= Seq::<CompareV>::empty());
            }
            while i < items.len()
                invariant
                    i <= items@.len(),
                    iv == json_view_seq(items@),
                    iv.len() == items@.len(),
                    forall|t: int|
                        0 <= t < items@.len() ==> iv[t] == crate::json::json_view(items@[t]),
                    (match spec_compares_of_items(iv.skip(i as int)) {
                        Some(t) => spec_compares_of_items(iv) == Some(cmps_view(out@) + t),
                        None => spec_compares_of_items(iv) is None,
                    }),
                decreases items@.len() - i,
            {
                proof {
                    assert(iv.skip(i as int)[0] == iv[i as int]);
                    assert(iv.skip(i as int).drop_first() =~= iv.skip(i as int + 1));
                }
                let ghost pre = out@;
                match compare_of_json(&items[i]) {
                    Ok(p) => {
                        out.push(p);
                        proof {
                            assert(out@ =~= pre.push(out@[pre.len() as int]));
                            assert(cmps_view(out@) =~= cmps_view(pre) + seq![
                                out@[pre.len() as int]@,
                            ]);
                            if spec_compares_of_items(iv.skip(i as int + 1)) is Some {
                                assert(cmps_view(pre) + (seq![out@[pre.len() as int]@]
                                    + spec_compares_of_items(iv.skip(i as int + 1))->0)
                                    =~= cmps_view(out@) + spec_compares_of_items(
                                    iv.skip(i as int + 1),
                                )->0);
                            }
                        }
                    },
                    Err(e) => {
                        return Err(e);
                    },
                }
                i += 1;
            }
            proof {
                assert(iv.skip(i as int).len() == 0);
                assert(cmps_view(out@) + Seq::<CompareV>::empty() =~= cmps_view(out@));
            }
            Ok(out)
        },
        _ => Err(decode_err()),
    }
}

/// Writes a package list as a JSON array.
pub fn packages_to_json(ps: &Vec<Package>) -> (r: Json)
    ensures
        r@ == spec_packages_json(pkgs_view(ps@)),
{
    let mut items: Vec<Json> = Vec::new();
    let mut i: usize = 0;
    let ghost target = pkgs_view(ps@).map_values(|p: PackageV| spec_package_json(p));
    proof {
        assert(json_view_seq(items@) =~= target.take(0));
    }
    while i < ps.len()
        invariant
            i <= ps@.len(),
            target == pkgs_view(ps@).map_values(|p: PackageV| spec_package_json(p)),
            target.len() == ps@.len(),
            json_view_seq(items@) == target.take(i as int),
        decreases ps@.len() - i,
    {
        let ghost pre = items@;
        items.push(package_to_json(&ps[i]));
        proof {
            assert(items@ =~= pre.push(items@[pre.len() as int]));
            lemma_json_view_seq_push(pre, items@[pre.len() as int]);
            assert(target[i as int] == spec_package_json(ps@[i as int]@));
            assert(json_view_seq(items@) =~= target.take(i as int + 1));
        }
        i += 1;
    }
    proof {
        assert(target.take(i as int) =~= target);
    }
    Json::Arr(items)
}

/// Writes a problem list as a JSON array.
pub fn problems_to_json(ps: &Vec<Problem>) -> (r: Json)
    ensures
        r@ == spec_problems_json(probs_view(ps@)),
{
    let mut items: Vec<Json> = Vec::new();
    let mut i: usize = 0;
    let ghost target = probs_view(ps@).map_values(|p: ProblemV| spec_problem_json(p));
    proof {
        assert(json_view_seq(items@) =~= target.take(0));
    }
    while i < ps.len()
        invariant
            i <= ps@.len(),
            target == probs_view(ps@).map_values(|p: ProblemV| spec_problem_json(p)),
            target.len() == ps@.len(),
            json_view_seq(items@) == target.take(i as int),
        decreases ps@.len() - i,
    {
        let ghost pre = items@;
        items.push(problem_to_json(&ps[i]));
        proof {
            assert(items@ =~= pre.push(items@[pre.len() as int]));
            lemma_json_view_seq_push(pre, items@[pre.len() as int]);
            assert(target[i as int] == spec_problem_json(ps@[i as int]@));
            assert(json_view_seq(items@) =~= target.take(i as int + 1));
        }
        i += 1;
    }
    proof {
        assert(target.take(i as int) =~= target);
    }
    Json::Arr(items)
}

/// Reading back the JSON written for a package list yields the same records,
/// field for field, presence and absence preserved.
pub proof fn lemma_packages_round_trip(ps: Seq<PackageV>)
    ensures
        spec_packages_of_json(spec_packages_json(ps)) == Some(ps),
    decreases ps.len(),
{
    let items = ps.map_values(|p: PackageV| spec_package_json(p));
    if ps.len() == 0 {
        assert(items =~= Seq::<JsonV>::empty());
        assert(Seq::<PackageV>::empty() =~= ps);
    } else {
        lemma_package_round_trip(ps[0]);
        assert(items[0] == spec_package_json(ps[0]));
        assert(items.drop_first() =~= ps.drop_first().map_values(
            |p: PackageV| spec_package_json(p),
        ));
        lemma_packages_round_trip(ps.drop_first());
        assert(spec_packages_of_items(items.drop_first()) == Some(ps.drop_first()));
        assert(seq![ps[0]] + ps.drop_first() =~= ps);
    }
}

/// The JSON written for a package list is well-formed.
pub proof fn lemma_packages_json_wf(ps: Seq<PackageV>)
    ensures
        wf_json(spec_packages_json(ps)),
{
    let items = ps.map_values(|p: PackageV| spec_package_json(p));
    assert forall|i: int| 0 <= i < items.len() implies wf_json(#[trigger] items[i]) by {
        lemma_package_json_wf(ps[i]);
    }
}

// ---------------------------------------------------------------------------
// Whole documents
// ---------------------------------------------------------------------------

/// Parses a JSON document as a package list. Invalid JSON, or a document
/// that is not an array of package objects, is a decode error.
pub fn parse_packages(text: &str) -> (r: Result<Vec<Package>, RepologyError>)
    ensures
        (match spec_parse_json(text@) {
            Some(v) => match spec_packages_of_json(v) {
                Some(ps) => r is Ok && pkgs_view((r->Ok_0)@) == ps,
                None => r is Err && r->Err_0 is Decode,
            },
            None => r is Err && r->Err_0 is Decode,
        }),
{
    let cs = chars_of(text);
    match crate::json::parse_json(cs.as_slice()) {
        Some(j) => packages_of_json(&j),
        None => Err(decode_err()),
    }
}

/// Parses a JSON document as a problem list.
pub fn parse_problems(text: &str) -> (r: Result<Vec<Problem>, RepologyError>)
    ensures
        (match spec_parse_json(text@) {
            Some(v) => match spec_problems_of_json(v) {
                Some(ps) => r is Ok && probs_view((r->Ok_0)@) == ps,
                None => r is Err && r->Err_0 is Decode,
            },
            None => r is Err && r->Err_0 is Decode,
        }),
{
    let cs = chars_of(text);
    match crate::json::parse_json(cs.as_slice()) {
        Some(j) => problems_of_json(&j),
        None => Err(decode_err()),
    }
}

/// Parses a JSON document as a local-package list.
pub fn parse_compare_list_json(text: &str) -> (r: Result<Vec<ComparePackage>, RepologyError>)
    ensures
        (match spec_parse_json(text@) {
            Some(v) => match spec_compares_of_json(v) {
                Some(ps) => r is Ok && cmps_view((r->Ok_0)@) == ps,
                None => r is Err && r->Err_0 is Decode,
            },
            None => r is Err && r->Err_0 is Decode,
        }),
{
    let cs = chars_of(text);
    match crate::json::parse_json(cs.as_slice()) {
        Some(j) => compares_of_json(&j),
        None => Err(decode_err()),
    }
}

/// The text the structured renderer writes for a package list.
pub fn render_packages_json(ps: &Vec<Package>) -> (r: String)
    ensures
        r@ == ser_json(spec_packages_json(pkgs_view(ps@))),
{
    let j = packages_to_json(ps);
    let cs = crate::json::to_chars(&j);
    string_from_chars(cs.as_slice())
}

/// The text the structured renderer writes for a problem list.
pub fn render_problems_json(ps: &Vec<Problem>) -> (r: String)
    ensures
        r@ == ser_json(spec_problems_json(probs_view(ps@))),
{
    let j = problems_to_json(ps);
    let cs = crate::json::to_chars(&j);
    string_from_chars(cs.as_slice())
}

/// The round trip of the structured renderer: serializing a package list and
/// parsing the text back yields the same records, field for field.
pub proof fn lemma_packages_text_round_trip(ps: Seq<PackageV>)
    ensures
        spec_parse_json(ser_json(spec_packages_json(ps))) == Some(spec_packages_json(ps)),
        spec_packages_of_json(spec_packages_json(ps)) == Some(ps),
{
    lemma_packages_json_wf(ps);
    crate::json::lemma_json_round_trip(spec_packages_json(ps));
    lemma_packages_round_trip(ps);
}

/// Reading back the JSON written for a problem list yields the same records.
pub proof fn lemma_problems_round_trip(ps: Seq<ProblemV>)
    ensures
        spec_problems_of_json(spec_problems_json(ps)) == Some(ps),
    decreases ps.len(),
{
    let items = ps.map_values(|p: ProblemV| spec_problem_json(p));
    if ps.len() == 0 {
        assert(items =~= Seq::<JsonV>::empty());
        assert(Seq::<ProblemV>::empty() =~= ps);
    } else {
        lemma_problem_round_trip(ps[0]);
        assert(items[0] == spec_problem_json(ps[0]));
        assert(items.drop_first() =~= ps.drop_first().map_values(
            |p: ProblemV| spec_problem_json(p),
        ));
        lemma_problems_round_trip(ps.drop_first());
        assert(spec_problems_of_items(items.drop_first()) == Some(ps.drop_first()));
        assert(seq![ps[0]] + ps.drop_first() =~= ps);
    }
}

/// The JSON written for a problem list is well-formed.
pub proof fn lemma_problems_json_wf(ps: Seq<ProblemV>)
    ensures
        wf_json(spec_problems_json(ps)),
{
    let items = ps.map_values(|p: ProblemV| spec_problem_json(p));
    assert forall|i: int| 0 <= i < items.len() implies wf_json(#[trigger] items[i]) by {
        lemma_problem_json_wf(ps[i]);
    }
}

/// The round trip of the structured renderer for problem lists.
pub proof fn lemma_problems_text_round_trip(ps: Seq<ProblemV>)
    ensures
        spec_parse_json(ser_json(spec_problems_json(ps))) == Some(spec_problems_json(ps)),
        spec_problems_of_json(spec_problems_json(ps)) == Some(ps),
{
    lemma_problems_json_wf(ps);
    crate::json::lemma_json_round_trip(spec_problems_json(ps));
    lemma_problems_round_trip(ps);
}

// ---------------------------------------------------------------------------
// The compare-list file: semicolon-delimited rows with a header line, or the
// JSON array handled above; the format is chosen by the file extension.
// ---------------------------------------------------------------------------

/// The input up to the first separator, and the input after it if one occurs.
pub open spec fn split_first_at(s: Seq<char>, sep: char) -> (Seq<char>, Option<Seq<char>>)
    decreases s.len(),
{
    if s.len() == 0 {
        (Seq::empty(), None)
    } else if s[0] == sep {
        (Seq::empty(), Some(s.drop_first()))
    } else {
        let (f, r) = split_first_at(s.drop_first(), sep);
        (seq![s[0]] + f, r)
    }
}

proof fn lemma_split_first_len(s: Seq<char>, sep: char)
    ensures
        split_first_at(s, sep).1 is Some ==> split_first_at(s, sep).1->0.len() < s.len(),
    decreases s.len(),
{
    if s.len() > 0 && s[0] != sep {
        lemma_split_first_len(s.drop_first(), sep);
    }
}

/// A line with its trailing carriage return removed.
pub open spec fn trim_cr(l: Seq<char>) -> Seq<char> {
    if l.len() > 0 && l.last() == '\r' {
        l.drop_last()
    } else {
        l
    }
}

/// One data row: a name, a semicolon, a version, and an ignored remainder.
/// A row without a semicolon is malformed.
pub open spec fn spec_csv_row(line: Seq<char>) -> Option<CompareV> {
    let (name, rest) = split_first_at(line, ';');
    match rest {
        None => None,
        Some(r) => {
            let (version, _) = split_first_at(r, ';');
            Some(CompareV { name, version })
        },
    }
}

/// The rows of the data section: one record per non-empty line.
pub open spec fn spec_csv_rows(s: Seq<char>) -> Option<Seq<CompareV>>
    decreases s.len(),
    via spec_csv_rows_decreases
{
    if s.len() == 0 {
        Some(Seq::empty())
    } else {
        let (line, rest) = split_first_at(s, '\n');
        let tail = match rest {
            Some(r) => spec_csv_rows(r),
            None => Some(Seq::empty()),
        };
        let lt = trim_cr(line);
        if lt.len() == 0 {
            tail
        } else {
            match spec_csv_row(lt) {
                Some(c) => match tail {
                    Some(t) => Some(seq![c] + t),
                    None => None,
                },
                None => None,
            }
        }
    }
}

#[via_fn]
proof fn spec_csv_rows_decreases(s: Seq<char>) {
    if s.len() > 0 {
        lemma_split_first_len(s, '\n');
    }
}

/// A whole compare-list file in the delimiter-separated format: a header
/// line, then one row per local package.
pub open spec fn spec_parse_compare_csv(s: Seq<char>) -> Option<Seq<CompareV>> {
    let (_, rest) = split_first_at(s, '\n');
    match rest {
        Some(r) => spec_csv_rows(r),
        None => Some(Seq::empty()),
    }
}

/// Splits off the field before the first separator.
fn split_first_exec<'a>(s: &'a [char], sep: char) -> (r: (Vec<char>, Option<&'a [char]>))
    ensures
        r.0@ == split_first_at(s@, sep).0,
        (match split_first_at(s@, sep).1 {
            Some(t) => r.1 is Some && (r.1)->0@ == t && t.len() < s@.len(),
            None => r.1 is None,
        }),
{
    let mut i: usize = 0;
    proof {
        assert(s@.skip(0) =~= s@);
        assert(s@.subrange(0, 0) =~= Seq::<char>::empty());
    }
    while i < s.len() && s[i] != sep
        invariant
            i <= s@.len(),
            forall|k: int| 0 <= k < i ==> s@[k] != sep,
            split_first_at(s@, sep).0 == s@.subrange(0, i as int) + split_first_at(
                s@.skip(i as int),
                sep,
            ).0,
            split_first_at(s@, sep).1 == split_first_at(s@.skip(i as int), sep).1,
        decreases s@.len() - i,
    {
        proof {
            assert(s@.skip(i as int)[0] == s@[i as int]);
            assert(s@.skip(i as int).drop_first() =~= s@.skip(i as int + 1));
            assert(s@.subrange(0, i as int) + (seq![s@[i as int]] + split_first_at(
                s@.skip(i as int + 1),
                sep,
            ).0) =~= s@.subrange(0, i as int + 1) + split_first_at(s@.skip(i as int + 1), sep).0);
        }
        i += 1;
    }
    let field = copy_char_range(s, 0, i);
    if i < s.len() {
        proof {
            assert(s@.skip(i as int)[0] == sep);
            assert(s@.skip(i as int).drop_first() =~= s@.skip(i as int + 1));
            assert(split_first_at(s@.skip(i as int), sep).0 =~= Seq::<char>::empty());
            assert(s@.subrange(0, i as int) + Seq::<char>::empty() =~= s@.subrange(0, i as int));
        }
        let rest: &[char] = &s[i + 1..s.len()];
        proof {
            assert(rest@ =~= s@.skip(i as int + 1));
        }
        (field, Some(rest))
    } else {
        proof {
            assert(s@.skip(i as int).len() == 0);
            assert(s@.subrange(0, i as int) + Seq::<char>::empty() =~= s@.subrange(0, i as int));
        }
        (field, None)
    }
}

/// Copies a range of the slice.
fn copy_char_range(s: &[char], from: usize, to: usize) -> (r: Vec<char>)
    requires
        from <= to <= s@.len(),
    ensures
        r@ == s@.subrange(from as int, to as int),
{
    let mut r: Vec<char> = Vec::new();
    let mut i: usize = from;
    while i < to
        invariant
            from <= i <= to <= s@.len(),
            r@ == s@.subrange(from as int, i as int),
        decreases to - i,
    {
        r.push(s[i]);
        i += 1;
        assert(r@ =~= s@.subrange(from as int, i as int));
    }
    r
}

/// Reads one data row.
fn csv_row_exec(line: &[char]) -> (r: Option<ComparePackage>)
    ensures
        (match spec_csv_row(line@) {
            Some(c) => r is Some && (r->0)@ == c,
            None => r is None,
        }),
{
    let (name, rest) = split_first_exec(line, ';');
    match rest {
        None => None,
        Some(rr) => {
            let (version, _) = split_first_exec(rr, ';');
            Some(
                ComparePackage::new(
                    string_from_chars(name.as_slice()),
                    string_from_chars(version.as_slice()),
                ),
            )
        },
    }
}

/// Reads the data rows.
fn csv_rows_exec(s: &[char]) -> (r: Result<Vec<ComparePackage>, RepologyError>)
    ensures
        (match spec_csv_rows(s@) {
            Some(t) => r is Ok && cmps_view((r->Ok_0)@) == t,
            None => r is Err && r->Err_0 is Decode,
        }),
    decreases s@.len(),
{
    if s.len() == 0 {
        let out: Vec<ComparePackage> = Vec::new();
        proof {
            assert(cmps_view(out@) =~= Seq::<CompareV>::empty());
        }
        return Ok(out);
    }
    let (line, rest) = split_first_exec(s, '\n');
    let tail = match rest {
        Some(rr) => {
            match csv_rows_exec(rr) {
                Ok(t) => t,
                Err(e) => {
                    return Err(e);
                },
            }
        },
        None => Vec::new(),
    };
    proof {
        if rest is None {
            assert(cmps_view(Seq::<ComparePackage>::empty()) =~= Seq::<CompareV>::empty());
        }
    }
    let line_t: &[char] = if line.len() > 0 && line[line.len() - 1] == '\r' {
        let lt: &[char] = &line.as_slice()[0..line.len() - 1];
        proof {
            assert(lt@ =~= trim_cr(line@));
        }
        lt
    } else {
        let lt: &[char] = line.as_slice();
        lt
    };
    if line_t.len() == 0 {
        Ok(tail)
    } else {
        match csv_row_exec(line_t) {
            Some(c) => {
                let mut out = tail;
                let ghost pre = out@;
                out.insert(0, c);
                proof {
                    assert(out@ =~= seq![c] + pre);
                    assert(cmps_view(out@) =~= seq![c@] + cmps_view(pre));
                }
                Ok(out)
            },
            None => Err(decode_err()),
        }
    }
}

/// Parses a compare-list file in the delimiter-separated format: the header
/// line is skipped, empty lines are skipped, and every other line must hold
/// a name and a version separated by a semicolon.
pub fn parse_compare_csv(text: &str) -> (r: Result<Vec<ComparePackage>, RepologyError>)
    ensures
        (match spec_parse_compare_csv(text@) {
            Some(t) => r is Ok && cmps_view((r->Ok_0)@) == t,
            None => r is Err && r->Err_0 is Decode,
        }),
{
    let cs = chars_of(text);
    let (_, rest) = split_first_exec(cs.as_slice(), '\n');
    match rest {
        Some(rr) => csv_rows_exec(rr),
        None => {
            let out: Vec<ComparePackage> = Vec::new();
            proof {
                assert(cmps_view(out@) =~= Seq::<CompareV>::empty());
            }
            Ok(out)
        },
    }
}

/// The file extension: the characters after the last dot, if any.
pub open spec fn spec_ext_of(s: Seq<char>) -> Option<Seq<char>>
    decreases s.len(),
{
    if s.len() == 0 {
        None
    } else if s.last() == '.' {
        Some(Seq::empty())
    } else {
        match spec_ext_of(s.drop_last()) {
            Some(e) => Some(e.push(s.last())),
            None => None,
        }
    }
}

/// The extension is the suffix after the last dot.
proof fn lemma_ext_at(s: Seq<char>, k: int)
    requires
        0 <= k < s.len(),
        s[k] == '.',
        forall|t: int| k < t < s.len() ==> s[t] != '.',
    ensures
        spec_ext_of(s) == Some(s.subrange(k + 1, s.len() as int)),
    decreases s.len(),
{
    if k == s.len() - 1 {
        assert(s.subrange(k + 1, s.len() as int) =~= Seq::<char>::empty());
    } else {
        assert(s.drop_last()[k] == s[k]);
        assert(forall|t: int| k < t < s.drop_last().len() ==> s.drop_last()[t] == s[t]);
        lemma_ext_at(s.drop_last(), k);
        assert(s.drop_last().subrange(k + 1, s.drop_last().len() as int).push(s.last()) =~= s.subrange(
            k + 1,
            s.len() as int,
        ));
    }
}

/// A string without a dot has no extension.
proof fn lemma_ext_none(s: Seq<char>)
    requires
        forall|t: int| 0 <= t < s.len() ==> s[t] != '.',
    ensures
        spec_ext_of(s) is None,
    decreases s.len(),
{
    if s.len() > 0 {
        assert(forall|t: int| 0 <= t < s.drop_last().len() ==> s.drop_last()[t] == s[t]);
        lemma_ext_none(s.drop_last());
    }
}

/// The file extension of a path string.
fn ext_of(path: &str) -> (r: Option<Vec<char>>)
    ensures
        (match spec_ext_of(path@) {
            Some(e) => r is Some && (r->0)@ == e,
            None => r is None,
        }),
{
    let cs = chars_of(path);
    let n = cs.len();
    let mut j: usize = n;
    while j > 0
        invariant
            j <= n,
            n == cs@.len(),
            cs@ == path@,
            forall|t: int| j <= t < n ==> cs@[t] != '.',
        decreases j,
    {
        if cs[j - 1] == '.' {
            proof {
                lemma_ext_at(path@, j - 1);
            }
            return Some(copy_char_range(cs.as_slice(), j, n));
        }
        j -= 1;
    }
    proof {
        lemma_ext_none(path@);
    }
    None
}

/// Reads a compare-list file: the format is chosen by the file extension,
/// `json` or `csv`; a path without one of those extensions is an unknown
/// format, a hard error.
pub fn deserialize_package_list(content: &str, filepath: &str) -> (r: Result<
    Vec<ComparePackage>,
    RepologyError,
>)
    ensures
        (match spec_ext_of(filepath@) {
            Some(e) => {
                if e == "json"@ {
                    (match spec_parse_json(content@) {
                        Some(v) => match spec_compares_of_json(v) {
                            Some(ps) => r is Ok && cmps_view((r->Ok_0)@) == ps,
                            None => r is Err && r->Err_0 is Decode,
                        },
                        None => r is Err && r->Err_0 is Decode,
                    })
                } else if e == "csv"@ {
                    (match spec_parse_compare_csv(content@) {
                        Some(t) => r is Ok && cmps_view((r->Ok_0)@) == t,
                        None => r is Err && r->Err_0 is Decode,
                    })
                } else {
                    r is Err && r->Err_0 is UnknownFormat
                }
            },
            None => r is Err && r->Err_0 is UnknownFormat,
        }),
{
    match ext_of(filepath) {
        Some(e) => {
            if chars_eq_str(e.as_slice(), "json") {
                parse_compare_list_json(content)
            } else if chars_eq_str(e.as_slice(), "csv") {
                parse_compare_csv(content)
            } else {
                Err(RepologyError::UnknownFormat(string_from_chars(e.as_slice())))
            }
        },
        None => Err(RepologyError::UnknownFormat(String::from_str(filepath))),
    }
}

} // verus!
