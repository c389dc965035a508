use repolocli::rank::{
    latest, sort_packages, sort_problems, version_compare, LatestMode, PackageSortMode,
    ProblemSortMode,
};
use repolocli::strutil::Order;
use repolocli::types::{EffName, Maintainer, Name, Package, Problem, Repo, Version};

fn pkg(repo: &str, version: &str) -> Package {
    Package::new(
        Repo::new(repo.to_string()),
        Some(Name::new("foo".to_string())),
        None,
        None,
        None,
        Version::new(version.to_string()),
        None,
        None,
        None,
        None,
        None,
        None,
    )
}

fn prob(repo: &str, name: &str, maintainer: &str) -> Problem {
    Problem::new(
        Repo::new(repo.to_string()),
        Name::new(name.to_string()),
        EffName::new(name.to_string()),
        Maintainer::new(maintainer.to_string()),
        "broken".to_string(),
    )
}

#[test]
fn sort_by_version_is_ascending() {
    let v = vec![pkg("a", "2.0"), pkg("b", "1.0"), pkg("c", "1.5")];
    let out = sort_packages(v, PackageSortMode::ByVersion);
    let versions: Vec<&str> = out.iter().map(|p| p.version().as_str()).collect();
    assert_eq!(versions, vec!["1.0", "1.5", "2.0"]);
}

#[test]
fn sort_by_repo_is_ascending() {
    let v = vec![pkg("fedora", "1"), pkg("arch", "2"), pkg("debian", "3")];
    let out = sort_packages(v, PackageSortMode::ByRepo);
    let repos: Vec<&str> = out.iter().map(|p| p.repo().as_str()).collect();
    assert_eq!(repos, vec!["arch", "debian", "fedora"]);
}

#[test]
fn sort_by_version_is_stable() {
    // three records share the version; their repository order must survive
    let v = vec![
        pkg("zeta", "1.0"),
        pkg("alpha", "1.0"),
        pkg("mid", "0.5"),
        pkg("beta", "1.0"),
    ];
    let out = sort_packages(v, PackageSortMode::ByVersion);
    let repos: Vec<&str> = out.iter().map(|p| p.repo().as_str()).collect();
    assert_eq!(repos, vec!["mid", "zeta", "alpha", "beta"]);
}

#[test]
fn sort_problems_by_maintainer_and_repo() {
    let v = vec![prob("b", "p1", "zoe"), prob("a", "p2", "amy"), prob("c", "p3", "mia")];
    let by_m = sort_problems(v.clone(), ProblemSortMode::ByMaintainer);
    let ms: Vec<&str> = by_m.iter().map(|p| p.maintainer().as_str()).collect();
    assert_eq!(ms, vec!["amy", "mia", "zoe"]);
    let by_r = sort_problems(v, ProblemSortMode::ByRepo);
    let rs: Vec<&str> = by_r.iter().map(|p| p.repo().as_str()).collect();
    assert_eq!(rs, vec!["a", "b", "c"]);
}

#[test]
fn latest_of_empty_is_none() {
    assert!(latest(Vec::new(), LatestMode::Lexicographic).is_none());
    assert!(latest(Vec::new(), LatestMode::Semantic).is_none());
}

#[test]
fn latest_returns_a_member() {
    let v = vec![pkg("a", "0.9"), pkg("b", "1.2"), pkg("c", "1.0")];
    let best = latest(v, LatestMode::Lexicographic).unwrap();
    assert_eq!(best.version().as_str(), "1.2");
    assert_eq!(best.repo().as_str(), "b");
}

#[test]
fn semantic_and_lexicographic_latest_diverge() {
    // semantic mode picks 1.10.0; the default byte-wise order picks 1.2.0
    let v = vec![pkg("a", "1.2.0"), pkg("b", "1.10.0")];
    let sem = latest(v.clone(), LatestMode::Semantic).unwrap();
    assert_eq!(sem.version().as_str(), "1.10.0");
    let lex = latest(v, LatestMode::Lexicographic).unwrap();
    assert_eq!(lex.version().as_str(), "1.2.0");
}

#[test]
fn unparseable_semantic_pair_is_a_tie() {
    // "abc" does not parse as a semantic version: the pair counts as equal,
    // the reduction keeps one of the two, and repeating it keeps the same one
    let v = vec![pkg("a", "abc"), pkg("b", "1.0.0")];
    let first = latest(v.clone(), LatestMode::Semantic).unwrap();
    let second = latest(v, LatestMode::Semantic).unwrap();
    assert_eq!(first.version().as_str(), second.version().as_str());
    assert!(first.version().as_str() == "abc" || first.version().as_str() == "1.0.0");
}

#[test]
fn version_compare_semantic_precedence() {
    assert_eq!(version_compare(LatestMode::Semantic, "1.2.0", "1.10.0"), Order::Less);
    assert_eq!(version_compare(LatestMode::Semantic, "2.0.0", "2.0.0"), Order::Equal);
    assert_eq!(version_compare(LatestMode::Semantic, "1.0.0-alpha", "1.0.0"), Order::Less);
    // the lenient fallback: an unparseable operand makes the pair equal
    assert_eq!(version_compare(LatestMode::Semantic, "abc", "1.0.0"), Order::Equal);
}

#[test]
fn version_compare_lexicographic() {
    assert_eq!(version_compare(LatestMode::Lexicographic, "1.10.0", "1.2.0"), Order::Less);
    assert_eq!(version_compare(LatestMode::Lexicographic, "1.2.0", "1.2.0"), Order::Equal);
    assert_eq!(version_compare(LatestMode::Lexicographic, "b", "a"), Order::Greater);
}
