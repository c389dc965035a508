//! Single-field package predicates: each filter holds one expected value and
//! accepts the packages whose field equals it. A filter over an absent field
//! or an absent list never matches.

use vstd::prelude::*;

use crate::strutil::str_eq;
use crate::types::{License, Maintainer, Name, Package, PackageV, Repo, Status, Version};

verus! {

/// Accepts the packages of one repository.
pub struct PackageRepoNameFilter(Repo);

impl PackageRepoNameFilter {
    pub closed spec fn spec_value(&self) -> Seq<char> {
        self.0@
    }

    pub fn new(repo: Repo) -> (r: PackageRepoNameFilter)
        ensures
            r.spec_value() == repo@,
    {
        PackageRepoNameFilter(repo)
    }

    /// Accepts on equality of the repository identifier.
    pub fn filter(&self, package: &Package) -> (r: bool)
        ensures
            r == (self.spec_value() == package@.repo),
    {
        str_eq(self.0.as_str(), package.repo().as_str())
    }
}

/// Accepts the packages with one exact name.
pub struct PackageNameFilter(Name);

impl PackageNameFilter {
    pub closed spec fn spec_value(&self) -> Seq<char> {
        self.0@
    }

    pub fn new(name: Name) -> (r: PackageNameFilter)
        ensures
            r.spec_value() == name@,
    {
        PackageNameFilter(name)
    }

    /// Accepts on equality of the name; a package without a name never
    /// matches.
    pub fn filter(&self, package: &Package) -> (r: bool)
        ensures
            r == (package@.name is Some && self.spec_value() == package@.name->0),
    {
        match package.name() {
            Some(n) => str_eq(self.0.as_str(), n.as_str()),
            None => false,
        }
    }
}

/// Accepts the packages with one exact version string.
pub struct PackageVersionFilter(Version);

impl PackageVersionFilter {
    pub closed spec fn spec_value(&self) -> Seq<char> {
        self.0@
    }

    pub fn new(version: Version) -> (r: PackageVersionFilter)
        ensures
            r.spec_value() == version@,
    {
        PackageVersionFilter(version)
    }

    /// Accepts on equality of the version string.
    pub fn filter(&self, package: &Package) -> (r: bool)
        ensures
            r == (self.spec_value() == package@.version),
    {
        str_eq(self.0.as_str(), package.version().as_str())
    }
}

/// Accepts the packages with one exact status.
pub struct PackageStatusFilter(Status);

impl PackageStatusFilter {
    pub closed spec fn spec_value(&self) -> Status {
        self.0
    }

    pub fn new(status: Status) -> (r: PackageStatusFilter)
        ensures
            r.spec_value() == status,
    {
        PackageStatusFilter(status)
    }

    /// Accepts on equality of the status; a package without a status never
    /// matches.
    pub fn filter(&self, package: &Package) -> (r: bool)
        ensures
            r == (package@.status is Some && self.spec_value() == package@.status->0),
    {
        match package.status() {
            Some(st) => self.0 == *st,
            None => false,
        }
    }
}

/// Accepts the packages carrying one license.
pub struct PackageLicenseFilter(License);

impl PackageLicenseFilter {
    pub closed spec fn spec_value(&self) -> Seq<char> {
        self.0@
    }

    pub fn new(license: License) -> (r: PackageLicenseFilter)
        ensures
            r.spec_value() == license@,
    {
        PackageLicenseFilter(license)
    }

    /// Accepts when the license list is present and holds the value; an
    /// absent list never matches.
    #[verifier::loop_isolation(false)]
    pub fn filter(&self, package: &Package) -> (r: bool)
        ensures
            r == (package@.licenses is Some && package@.licenses->0.contains(self.spec_value())),
    {
        match package.licenses() {
            Some(v) => {
                let ghost lv = package@.licenses->0;
                let mut i: usize = 0;
                proof {
                    assert(v@.map_values(|x: License| x@) == lv);
                }
                while i < v.len()
                    invariant
                        i <= v@.len(),
                        lv == v@.map_values(|x: License| x@),
                        lv == package@.licenses->0,
                        forall|k: int| 0 <= k < i ==> lv[k] != self.spec_value(),
                    decreases v@.len() - i,
                {
                    if str_eq(self.0.as_str(), v[i].as_str()) {
                        proof {
                            assert(lv[i as int] == self.spec_value());
                            assert(lv.contains(self.spec_value()));
                        }
                        return true;
                    }
                    i += 1;
                }
                proof {
                    assert(!lv.contains(self.spec_value()));
                }
                false
            },
            None => false,
        }
    }
}

/// Accepts the packages carrying one maintainer.
pub struct PackageMaintainerFilter(Maintainer);

impl PackageMaintainerFilter {
    pub closed spec fn spec_value(&self) -> Seq<char> {
        self.0@
    }

    pub fn new(maintainer: Maintainer) -> (r: PackageMaintainerFilter)
        ensures
            r.spec_value() == maintainer@,
    {
        PackageMaintainerFilter(maintainer)
    }

    /// Accepts when the maintainer list is present and holds the value; an
    /// absent list never matches.
    #[verifier::loop_isolation(false)]
    pub fn filter(&self, package: &Package) -> (r: bool)
        ensures
            r == (package@.maintainers is Some && package@.maintainers->0.contains(
                self.spec_value(),
            )),
    {
        match package.maintainers() {
            Some(v) => {
                let ghost lv = package@.maintainers->0;
                let mut i: usize = 0;
                proof {
                    assert(v@.map_values(|x: Maintainer| x@) == lv);
                }
                while i < v.len()
                    invariant
                        i <= v@.len(),
                        lv == v@.map_values(|x: Maintainer| x@),
                        lv == package@.maintainers->0,
                        forall|k: int| 0 <= k < i ==> lv[k] != self.spec_value(),
                    decreases v@.len() - i,
                {
                    if str_eq(self.0.as_str(), v[i].as_str()) {
                        proof {
                            assert(lv[i as int] == self.spec_value());
                            assert(lv.contains(self.spec_value()));
                        }
                        return true;
                    }
                    i += 1;
                }
                proof {
                    assert(!lv.contains(self.spec_value()));
                }
                false
            },
            None => false,
        }
    }
}

} // verus!
