//! Value records returned by the package-tracking service: `Package` and
//! `Problem`, together with the string-wrapper identifier types they are
//! built from. Records are immutable once constructed.

use vstd::prelude::*;

verus! {

// ---------------------------------------------------------------------------
// String-wrapper identifier types. Equality and ordering always delegate to
// the wrapped string.
// ---------------------------------------------------------------------------

/// Name of the repository holding a package.
#[derive(Clone, Debug, PartialEq, Eq)]
pub struct Repo(String);

impl View for Repo {
    type V = Seq<char>;

    closed spec fn view(&self) -> Seq<char> {
        self.0@
    }
}

impl Repo {
    pub fn new(s: String) -> (r: Repo)
        ensures
            r@ == s@,
    {
        Repo(s)
    }

    pub fn as_str(&self) -> (r: &str)
        ensures
            r@ == self@,
    {
        self.0.as_str()
    }
}

/// Package name as used in a repository.
#[derive(Clone, Debug, PartialEq, Eq)]
pub struct Name(String);

impl View for Name {
    type V = Seq<char>;

    closed spec fn view(&self) -> Seq<char> {
        self.0@
    }
}

impl Name {
    pub fn new(s: String) -> (r: Name)
        ensures
            r@ == s@,
    {
        Name(s)
    }

    pub fn as_str(&self) -> (r: &str)
        ensures
            r@ == self@,
    {
        self.0.as_str()
    }
}

/// Package version, kept as the raw string the service reported.
#[derive(Clone, Debug, PartialEq, Eq)]
pub struct Version(String);

impl View for Version {
    type V = Seq<char>;

    closed spec fn view(&self) -> Seq<char> {
        self.0@
    }
}

impl Version {
    pub fn new(s: String) -> (r: Version)
        ensures
            r@ == s@,
    {
        Version(s)
    }

    pub fn as_str(&self) -> (r: &str)
        ensures
            r@ == self@,
    {
        self.0.as_str()
    }
}

/// One-line description of a package.
#[derive(Clone, Debug, PartialEq, Eq)]
pub struct Summary(String);

impl View for Summary {
    type V = Seq<char>;

    closed spec fn view(&self) -> Seq<char> {
        self.0@
    }
}

impl Summary {
    pub fn new(s: String) -> (r: Summary)
        ensures
            r@ == s@,
    {
        Summary(s)
    }

    pub fn as_str(&self) -> (r: &str)
        ensures
            r@ == self@,
    {
        self.0.as_str()
    }
}

/// A package category label.
#[derive(Clone, Debug, PartialEq, Eq)]
pub struct Category(String);

impl View for Category {
    type V = Seq<char>;

    closed spec fn view(&self) -> Seq<char> {
        self.0@
    }
}

impl Category {
    pub fn new(s: String) -> (r: Category)
        ensures
            r@ == s@,
    {
        Category(s)
    }

    pub fn as_str(&self) -> (r: &str)
        ensures
            r@ == self@,
    {
        self.0.as_str()
    }
}

/// A package license label.
#[derive(Clone, Debug, PartialEq, Eq)]
pub struct License(String);

impl View for License {
    type V = Seq<char>;

    closed spec fn view(&self) -> Seq<char> {
        self.0@
    }
}

impl License {
    pub fn new(s: String) -> (r: License)
        ensures
            r@ == s@,
    {
        License(s)
    }

    pub fn as_str(&self) -> (r: &str)
        ensures
            r@ == self@,
    {
        self.0.as_str()
    }
}

/// A package maintainer identifier.
#[derive(Clone, Debug, PartialEq, Eq)]
pub struct Maintainer(String);

impl View for Maintainer {
    type V = Seq<char>;

    closed spec fn view(&self) -> Seq<char> {
        self.0@
    }
}

impl Maintainer {
    pub fn new(s: String) -> (r: Maintainer)
        ensures
            r@ == s@,
    {
        Maintainer(s)
    }

    pub fn as_str(&self) -> (r: &str)
        ensures
            r@ == self@,
    {
        self.0.as_str()
    }
}

/// A package web page link, kept as an opaque string.
#[derive(Clone, Debug, PartialEq, Eq)]
pub struct Www(String);

impl View for Www {
    type V = Seq<char>;

    closed spec fn view(&self) -> Seq<char> {
        self.0@
    }
}

impl Www {
    pub fn new(s: String) -> (r: Www)
        ensures
            r@ == s@,
    {
        Www(s)
    }

    pub fn as_str(&self) -> (r: &str)
        ensures
            r@ == self@,
    {
        self.0.as_str()
    }
}

/// A package download link, kept as an opaque string.
#[derive(Clone, Debug, PartialEq, Eq)]
pub struct Download(String);

impl View for Download {
    type V = Seq<char>;

    closed spec fn view(&self) -> Seq<char> {
        self.0@
    }
}

impl Download {
    pub fn new(s: String) -> (r: Download)
        ensures
            r@ == s@,
    {
        Download(s)
    }

    pub fn as_str(&self) -> (r: &str)
        ensures
            r@ == self@,
    {
        self.0.as_str()
    }
}

/// The cross-repository grouping key of a project.
#[derive(Clone, Debug, PartialEq, Eq)]
pub struct EffName(String);

impl View for EffName {
    type V = Seq<char>;

    closed spec fn view(&self) -> Seq<char> {
        self.0@
    }
}

impl EffName {
    pub fn new(s: String) -> (r: EffName)
        ensures
            r@ == s@,
    {
        EffName(s)
    }

    pub fn as_str(&self) -> (r: &str)
        ensures
            r@ == self@,
    {
        self.0.as_str()
    }
}

// ---------------------------------------------------------------------------
// Package status
// ---------------------------------------------------------------------------

/// The status the service assigns to a package entry. An absent status means
/// "unknown", never a default.
#[derive(Clone, Copy, Debug, PartialEq, Eq, Structural)]
pub enum Status {
    Newest,
    Devel,
    Unique,
    Outdated,
    Legacy,
    Rolling,
    Noscheme,
    Incorrect,
    Untrusted,
    Ignored,
}

impl Status {
    /// The canonical lower-case spelling of the status.
    pub open spec fn spec_str(&self) -> Seq<char> {
        match self {
            Status::Newest => "newest"@,
            Status::Devel => "devel"@,
            Status::Unique => "unique"@,
            Status::Outdated => "outdated"@,
            Status::Legacy => "legacy"@,
            Status::Rolling => "rolling"@,
            Status::Noscheme => "noscheme"@,
            Status::Incorrect => "incorrect"@,
            Status::Untrusted => "untrusted"@,
            Status::Ignored => "ignored"@,
        }
    }

    pub fn as_str(&self) -> (r: &'static str)
        ensures
            r@ == self.spec_str(),
    {
        match self {
            Status::Newest => "newest",
            Status::Devel => "devel",
            Status::Unique => "unique",
            Status::Outdated => "outdated",
            Status::Legacy => "legacy",
            Status::Rolling => "rolling",
            Status::Noscheme => "noscheme",
            Status::Incorrect => "incorrect",
            Status::Untrusted => "untrusted",
            Status::Ignored => "ignored",
        }
    }
}

/// The status whose canonical spelling is `s`, if any.
pub open spec fn spec_status_of(s: Seq<char>) -> Option<Status> {
    if s == "newest"@ {
        Some(Status::Newest)
    } else if s == "devel"@ {
        Some(Status::Devel)
    } else if s == "unique"@ {
        Some(Status::Unique)
    } else if s == "outdated"@ {
        Some(Status::Outdated)
    } else if s == "legacy"@ {
        Some(Status::Legacy)
    } else if s == "rolling"@ {
        Some(Status::Rolling)
    } else if s == "noscheme"@ {
        Some(Status::Noscheme)
    } else if s == "incorrect"@ {
        Some(Status::Incorrect)
    } else if s == "untrusted"@ {
        Some(Status::Untrusted)
    } else if s == "ignored"@ {
        Some(Status::Ignored)
    } else {
        None
    }
}

/// Reads a status from its canonical spelling.
pub fn status_of_chars(s: &[char]) -> (r: Option<Status>)
    ensures
        r == spec_status_of(s@),
{
    if crate::strutil::chars_eq_str(s, "newest") {
        Some(Status::Newest)
    } else if crate::strutil::chars_eq_str(s, "devel") {
        Some(Status::Devel)
    } else if crate::strutil::chars_eq_str(s, "unique") {
        Some(Status::Unique)
    } else if crate::strutil::chars_eq_str(s, "outdated") {
        Some(Status::Outdated)
    } else if crate::strutil::chars_eq_str(s, "legacy") {
        Some(Status::Legacy)
    } else if crate::strutil::chars_eq_str(s, "rolling") {
        Some(Status::Rolling)
    } else if crate::strutil::chars_eq_str(s, "noscheme") {
        Some(Status::Noscheme)
    } else if crate::strutil::chars_eq_str(s, "incorrect") {
        Some(Status::Incorrect)
    } else if crate::strutil::chars_eq_str(s, "untrusted") {
        Some(Status::Untrusted)
    } else if crate::strutil::chars_eq_str(s, "ignored") {
        Some(Status::Ignored)
    } else {
        None
    }
}

// ---------------------------------------------------------------------------
// Package
// ---------------------------------------------------------------------------

/// The mathematical content of a `Package` record.
pub struct PackageV {
    pub repo: Seq<char>,
    pub name: Option<Seq<char>>,
    pub srcname: Option<Seq<char>>,
    pub binname: Option<Seq<char>>,
    pub visiblename: Option<Seq<char>>,
    pub version: Seq<char>,
    pub status: Option<Status>,
    pub summary: Option<Seq<char>>,
    pub licenses: Option<Seq<Seq<char>>>,
    pub maintainers: Option<Seq<Seq<char>>>,
    pub www: Option<Seq<Seq<char>>>,
    pub downloads: Option<Seq<Seq<char>>>,
}

/// The view of an optional string-wrapper value.
pub open spec fn opt_view<T: View<V = Seq<char>>>(o: Option<T>) -> Option<Seq<char>> {
    match o {
        Some(v) => Some(v@),
        None => None,
    }
}

/// The view of an optional list of string-wrapper values.
pub open spec fn opt_list_view<T: View<V = Seq<char>>>(o: Option<Vec<T>>) -> Option<
    Seq<Seq<char>>,
> {
    match o {
        Some(v) => Some(v@.map_values(|x: T| x@)),
        None => None,
    }
}

/// One entry of a project's package list: an immutable record describing the
/// package in one repository. Every field except `repo` and `version` is
/// optional; absence means "no data", which is distinct from an empty list.
#[derive(Clone, Debug, PartialEq, Eq)]
pub struct Package {
    repo: Repo,
    name: Option<Name>,
    srcname: Option<Name>,
    binname: Option<Name>,
    visiblename: Option<Name>,
    version: Version,
    status: Option<Status>,
    summary: Option<Summary>,
    licenses: Option<Vec<License>>,
    maintainers: Option<Vec<Maintainer>>,
    www: Option<Vec<Www>>,
    downloads: Option<Vec<Download>>,
}

impl View for Package {
    type V = PackageV;

    closed spec fn view(&self) -> PackageV {
        PackageV {
            repo: self.repo@,
            name: opt_view(self.name),
            srcname: opt_view(self.srcname),
            binname: opt_view(self.binname),
            visiblename: opt_view(self.visiblename),
            version: self.version@,
            status: self.status,
            summary: opt_view(self.summary),
            licenses: opt_list_view(self.licenses),
            maintainers: opt_list_view(self.maintainers),
            www: opt_list_view(self.www),
            downloads: opt_list_view(self.downloads),
        }
    }
}

/// The first present name, in the order: name, source name, binary name,
/// display name.
pub open spec fn spec_any_name(p: PackageV) -> Option<Seq<char>> {
    if p.name is Some {
        p.name
    } else if p.srcname is Some {
        p.srcname
    } else if p.binname is Some {
        p.binname
    } else {
        p.visiblename
    }
}

impl Package {
    pub fn new(
        repo: Repo,
        name: Option<Name>,
        srcname: Option<Name>,
        binname: Option<Name>,
        visiblename: Option<Name>,
        version: Version,
        status: Option<Status>,
        summary: Option<Summary>,
        licenses: Option<Vec<License>>,
        maintainers: Option<Vec<Maintainer>>,
        www: Option<Vec<Www>>,
        downloads: Option<Vec<Download>>,
    ) -> (r: Package)
        ensures
            r@ == (PackageV {
                repo: repo@,
                name: opt_view(name),
                srcname: opt_view(srcname),
                binname: opt_view(binname),
                visiblename: opt_view(visiblename),
                version: version@,
                status,
                summary: opt_view(summary),
                licenses: opt_list_view(licenses),
                maintainers: opt_list_view(maintainers),
                www: opt_list_view(www),
                downloads: opt_list_view(downloads),
            }),
    {
        Package {
            repo,
            name,
            srcname,
            binname,
            visiblename,
            version,
            status,
            summary,
            licenses,
            maintainers,
            www,
            downloads,
        }
    }

    pub fn repo(&self) -> (r: &Repo)
        ensures
            r@ == self@.repo,
    {
        &self.repo
    }

    pub fn name(&self) -> (r: Option<&Name>)
        ensures
            r is Some <==> self@.name is Some,
            r is Some ==> r->0@ == self@.name->0,
    {
        self.name.as_ref()
    }

    pub fn srcname(&self) -> (r: Option<&Name>)
        ensures
            r is Some <==> self@.srcname is Some,
            r is Some ==> r->0@ == self@.srcname->0,
    {
        self.srcname.as_ref()
    }

    pub fn binname(&self) -> (r: Option<&Name>)
        ensures
            r is Some <==> self@.binname is Some,
            r is Some ==> r->0@ == self@.binname->0,
    {
        self.binname.as_ref()
    }

    pub fn visiblename(&self) -> (r: Option<&Name>)
        ensures
            r is Some <==> self@.visiblename is Some,
            r is Some ==> r->0@ == self@.visiblename->0,
    {
        self.visiblename.as_ref()
    }

    /// The first present of name, source name, binary name and display name.
    pub fn any_name(&self) -> (r: Option<&Name>)
        ensures
            r is Some <==> spec_any_name(self@) is Some,
            r is Some ==> r->0@ == spec_any_name(self@)->0,
    {
        if self.name.is_some() {
            self.name.as_ref()
        } else if self.srcname.is_some() {
            self.srcname.as_ref()
        } else if self.binname.is_some() {
            self.binname.as_ref()
        } else {
            self.visiblename.as_ref()
        }
    }

    pub fn version(&self) -> (r: &Version)
        ensures
            r@ == self@.version,
    {
        &self.version
    }

    pub fn status(&self) -> (r: Option<&Status>)
        ensures
            r is Some <==> self@.status is Some,
            r is Some ==> *r->0 == self@.status->0,
    {
        self.status.as_ref()
    }

    pub fn summary(&self) -> (r: Option<&Summary>)
        ensures
            r is Some <==> self@.summary is Some,
            r is Some ==> r->0@ == self@.summary->0,
    {
        self.summary.as_ref()
    }

    pub fn licenses(&self) -> (r: Option<&Vec<License>>)
        ensures
            r is Some <==> self@.licenses is Some,
            r is Some ==> r->0@.map_values(|x: License| x@) == self@.licenses->0,
    {
        self.licenses.as_ref()
    }

    pub fn maintainers(&self) -> (r: Option<&Vec<Maintainer>>)
        ensures
            r is Some <==> self@.maintainers is Some,
            r is Some ==> r->0@.map_values(|x: Maintainer| x@) == self@.maintainers->0,
    {
        self.maintainers.as_ref()
    }

    pub fn www(&self) -> (r: Option<&Vec<Www>>)
        ensures
            r is Some <==> self@.www is Some,
            r is Some ==> r->0@.map_values(|x: Www| x@) == self@.www->0,
    {
        self.www.as_ref()
    }

    pub fn downloads(&self) -> (r: Option<&Vec<Download>>)
        ensures
            r is Some <==> self@.downloads is Some,
            r is Some ==> r->0@.map_values(|x: Download| x@) == self@.downloads->0,
    {
        self.downloads.as_ref()
    }
}

// ---------------------------------------------------------------------------
// Problem
// ---------------------------------------------------------------------------

/// The mathematical content of a `Problem` record.
pub struct ProblemV {
    pub repo: Seq<char>,
    pub name: Seq<char>,
    pub effname: Seq<char>,
    pub maintainer: Seq<char>,
    pub description: Seq<char>,
}

/// A known-problem report for one package in one repository.
#[derive(Clone, Debug, PartialEq, Eq)]
pub struct Problem {
    repo: Repo,
    name: Name,
    effname: EffName,
    maintainer: Maintainer,
    problem: String,
}

impl View for Problem {
    type V = ProblemV;

    closed spec fn view(&self) -> ProblemV {
        ProblemV {
            repo: self.repo@,
            name: self.name@,
            effname: self.effname@,
            maintainer: self.maintainer@,
            description: self.problem@,
        }
    }
}

impl Problem {
    pub fn new(repo: Repo, name: Name, effname: EffName, maintainer: Maintainer, problem: String)
        -> (r: Problem)
        ensures
            r@ == (ProblemV {
                repo: repo@,
                name: name@,
                effname: effname@,
                maintainer: maintainer@,
                description: problem@,
            }),
    {
        Problem { repo, name, effname, maintainer, problem }
    }

    pub fn repo(&self) -> (r: &Repo)
        ensures
            r@ == self@.repo,
    {
        &self.repo
    }

    pub fn name(&self) -> (r: &Name)
        ensures
            r@ == self@.name,
    {
        &self.name
    }

    pub fn effname(&self) -> (r: &EffName)
        ensures
            r@ == self@.effname,
    {
        &self.effname
    }

    pub fn maintainer(&self) -> (r: &Maintainer)
        ensures
            r@ == self@.maintainer,
    {
        &self.maintainer
    }

    pub fn problem_description(&self) -> (r: &String)
        ensures
            r@ == self@.description,
    {
        &self.problem
    }
}

// ---------------------------------------------------------------------------
// ComparePackage
// ---------------------------------------------------------------------------

/// The mathematical content of a `ComparePackage` record.
pub struct CompareV {
    pub name: Seq<char>,
    pub version: Seq<char>,
}

/// A locally known package, read from a caller-supplied compare list: a name
/// and the locally installed version.
#[derive(Clone, Debug, PartialEq, Eq)]
pub struct ComparePackage {
    name: String,
    version: String,
}

impl View for ComparePackage {
    type V = CompareV;

    closed spec fn view(&self) -> CompareV {
        CompareV { name: self.name@, version: self.version@ }
    }
}

impl ComparePackage {
    pub fn new(name: String, version: String) -> (r: ComparePackage)
        ensures
            r@ == (CompareV { name: name@, version: version@ }),
    {
        ComparePackage { name, version }
    }

    pub fn name(&self) -> (r: &String)
        ensures
            r@ == self@.name,
    {
        &self.name
    }

    pub fn version(&self) -> (r: &String)
        ensures
            r@ == self@.version,
    {
        &self.version
    }
}

} // verus!
