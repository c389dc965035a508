use repolocli::filter::{BlackListFilter, RepoFilter};
use repolocli::packagefilters::{
    PackageLicenseFilter, PackageMaintainerFilter, PackageNameFilter, PackageRepoNameFilter,
    PackageStatusFilter, PackageVersionFilter,
};
use repolocli::types::{
    License, Maintainer, Name, Package, Repo, Status, Summary, Version,
};

fn pkg(repo: &str, name: Option<&str>, version: &str, status: Option<Status>) -> Package {
    Package::new(
        Repo::new(repo.to_string()),
        name.map(|n| Name::new(n.to_string())),
        None,
        None,
        None,
        Version::new(version.to_string()),
        status,
        Some(Summary::new("a package".to_string())),
        Some(vec![License::new("MIT".to_string()), License::new("GPL-2.0".to_string())]),
        Some(vec![Maintainer::new("alice@example.org".to_string())]),
        None,
        None,
    )
}

#[test]
fn whitelist_overrides_blacklist() {
    // the same identifier on both lists is accepted
    let f = RepoFilter::new(
        vec!["debian".to_string(), "arch".to_string()],
        vec!["debian".to_string()],
    );
    assert!(f.accepts("debian"));
}

#[test]
fn blacklist_rejects_unlisted_in_whitelist() {
    let f = RepoFilter::new(vec!["arch".to_string()], vec!["debian".to_string()]);
    assert!(!f.accepts("arch"));
}

#[test]
fn unlisted_repo_is_accepted() {
    let f = RepoFilter::new(vec!["arch".to_string()], vec!["debian".to_string()]);
    assert!(f.accepts("fedora"));
}

#[test]
fn empty_whitelist_cannot_override() {
    let f = RepoFilter::new(vec!["arch".to_string()], vec![]);
    assert!(!f.accepts("arch"));
    assert!(f.accepts("debian"));
}

#[test]
fn filter_packages_keeps_order() {
    let f = RepoFilter::new(vec!["arch".to_string()], vec![]);
    let v = vec![
        pkg("debian", Some("foo"), "1.0", None),
        pkg("arch", Some("foo"), "2.0", None),
        pkg("fedora", Some("foo"), "3.0", None),
    ];
    let out = repolocli::filter::filter_packages(&f, v);
    assert_eq!(out.len(), 2);
    assert_eq!(out[0].repo().as_str(), "debian");
    assert_eq!(out[1].repo().as_str(), "fedora");
}

#[test]
fn blacklist_filter_passes_other_names() {
    let f = BlackListFilter::new("arch".to_string());
    assert!(f.filter(&"debian".to_string()));
    assert!(!f.filter(&"arch".to_string()));
}

#[test]
fn repo_name_filter_matches_equality() {
    let f = PackageRepoNameFilter::new(Repo::new("debian".to_string()));
    assert!(f.filter(&pkg("debian", Some("foo"), "1.0", None)));
    assert!(!f.filter(&pkg("arch", Some("foo"), "1.0", None)));
}

#[test]
fn name_filter_never_matches_missing_name() {
    let f = PackageNameFilter::new(Name::new("foo".to_string()));
    assert!(f.filter(&pkg("debian", Some("foo"), "1.0", None)));
    assert!(!f.filter(&pkg("debian", Some("bar"), "1.0", None)));
    assert!(!f.filter(&pkg("debian", None, "1.0", None)));
}

#[test]
fn version_filter_matches_equality() {
    let f = PackageVersionFilter::new(Version::new("1.0".to_string()));
    assert!(f.filter(&pkg("debian", Some("foo"), "1.0", None)));
    assert!(!f.filter(&pkg("debian", Some("foo"), "1.1", None)));
}

#[test]
fn status_filter_never_matches_missing_status() {
    let f = PackageStatusFilter::new(Status::Newest);
    assert!(f.filter(&pkg("debian", Some("foo"), "1.0", Some(Status::Newest))));
    assert!(!f.filter(&pkg("debian", Some("foo"), "1.0", Some(Status::Outdated))));
    assert!(!f.filter(&pkg("debian", Some("foo"), "1.0", None)));
}

#[test]
fn license_filter_searches_the_list() {
    let f = PackageLicenseFilter::new(License::new("GPL-2.0".to_string()));
    assert!(f.filter(&pkg("debian", Some("foo"), "1.0", None)));
    let g = PackageLicenseFilter::new(License::new("Apache-2.0".to_string()));
    assert!(!g.filter(&pkg("debian", Some("foo"), "1.0", None)));
}

#[test]
fn maintainer_filter_searches_the_list() {
    let f = PackageMaintainerFilter::new(Maintainer::new("alice@example.org".to_string()));
    assert!(f.filter(&pkg("debian", Some("foo"), "1.0", None)));
    let g = PackageMaintainerFilter::new(Maintainer::new("bob@example.org".to_string()));
    assert!(!g.filter(&pkg("debian", Some("foo"), "1.0", None)));
}
