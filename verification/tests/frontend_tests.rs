use repolocli::frontend::{
    compare_packages, frontend_kind_of, FrontendKind, JsonFrontend, ListFrontend, TableFrontend,
};
use repolocli::error::RepologyError;
use repolocli::source::{Backend, BufferApi, RestApi};
use repolocli::types::{
    ComparePackage, Name, Package, Problem, Repo, Status, Summary, Version, Www,
};

fn pkg(repo: &str, name: Option<&str>, version: &str, status: Option<Status>, www: Option<&str>)
    -> Package {
    Package::new(
        Repo::new(repo.to_string()),
        name.map(|n| Name::new(n.to_string())),
        None,
        None,
        None,
        Version::new(version.to_string()),
        status,
        Some(Summary::new("s".to_string())),
        None,
        None,
        www.map(|u| vec![Www::new(u.to_string())]),
        None,
    )
}

#[test]
fn list_frontend_lines_are_padded_and_ordered() {
    let f = ListFrontend::new();
    let out = f.list_packages(&vec![
        pkg("debian", Some("foo"), "1.2", Some(Status::Newest), Some("https://x.example")),
        pkg("arch", None, "2.0", None, None),
    ]);
    let expected = "foo        - 1.2      - debian          - newest - https://x.example\n\
                    <unknown>  - 2.0      - arch            - No status - \n";
    assert_eq!(out, expected);
}

#[test]
fn long_fields_are_not_truncated() {
    let f = ListFrontend::new();
    let out = f.list_packages(&vec![pkg(
        "a-very-long-repository-name",
        Some("a-name-past-the-column"),
        "10.20.30-beta4",
        None,
        None,
    )]);
    assert_eq!(
        out,
        "a-name-past-the-column - 10.20.30-beta4 - a-very-long-repository-name - No status - \n"
    );
}

#[test]
fn list_frontend_problem_lines() {
    let f = ListFrontend::new();
    let p = Problem::new(
        Repo::new("debian".to_string()),
        Name::new("foo".to_string()),
        repolocli::types::EffName::new("foo".to_string()),
        repolocli::types::Maintainer::new("alice@example.org".to_string()),
        "homepage is dead".to_string(),
    );
    let out = f.list_problems(&vec![p]);
    assert_eq!(
        out,
        "debian     - foo        - foo        - alice@example.org - homepage is dead\n"
    );
}

#[test]
fn table_frontend_cells() {
    let f = TableFrontend::new();
    let rows = f.list_packages(&vec![pkg(
        "debian",
        Some("foo"),
        "1.2",
        Some(Status::Outdated),
        None,
    )]);
    assert_eq!(rows, vec![vec![
        "foo".to_string(),
        "1.2".to_string(),
        "debian".to_string(),
        "outdated".to_string(),
        "".to_string(),
    ]]);
    let titles = f.titles();
    assert_eq!(titles, vec!["Name", "Version", "Repo", "Status", "URL"]);
}

#[test]
fn json_frontend_lists_packages() {
    let f = JsonFrontend::new();
    let out = f.list_packages(&vec![pkg("debian", Some("foo"), "1.2", None, None)]);
    let back = repolocli::codec::parse_packages(&out).unwrap();
    assert_eq!(back.len(), 1);
    assert_eq!(back[0].repo().as_str(), "debian");
}

#[test]
fn compare_emits_one_row_per_matching_repo() {
    // a source answering "foo" with debian 1.2 and arch 0.9; targets {debian}
    let body = "[{\"repo\":\"debian\",\"name\":\"foo\",\"version\":\"1.2\"},\
                {\"repo\":\"arch\",\"name\":\"foo\",\"version\":\"0.9\"}]";
    let backend = Backend::Buffer(BufferApi::read_from(body.to_string()));
    let locals = vec![ComparePackage::new("foo".to_string(), "1.0".to_string())];
    let targets = vec![Repo::new("debian".to_string())];
    let comps = compare_packages(&locals, &backend, &targets).unwrap();
    assert_eq!(comps.len(), 1);
    assert_eq!(comps[0].package_name().as_str(), "foo");
    assert_eq!(comps[0].local_version().as_str(), "1.0");
    assert_eq!(
        comps[0].comparisons(),
        &vec![("1.2".to_string(), "debian".to_string())]
    );
}

#[test]
fn compare_lines_render_the_row() {
    let body = "[{\"repo\":\"debian\",\"name\":\"foo\",\"version\":\"1.2\"},\
                {\"repo\":\"arch\",\"name\":\"foo\",\"version\":\"0.9\"}]";
    let backend = Backend::Buffer(BufferApi::read_from(body.to_string()));
    let locals = vec![ComparePackage::new("foo".to_string(), "1.0".to_string())];
    let targets = vec![Repo::new("debian".to_string())];
    let f = ListFrontend::new();
    let out = f.compare_packages(&locals, &backend, &targets).unwrap();
    assert_eq!(out, "foo - 1.0 - debian - 1.2\n");
}

#[test]
fn compare_json_renders_nested_pairs() {
    let body = "[{\"repo\":\"debian\",\"name\":\"foo\",\"version\":\"1.2\"}]";
    let backend = Backend::Buffer(BufferApi::read_from(body.to_string()));
    let locals = vec![ComparePackage::new("foo".to_string(), "1.0".to_string())];
    let targets = vec![Repo::new("debian".to_string())];
    let f = JsonFrontend::new();
    let out = f.compare_packages(&locals, &backend, &targets).unwrap();
    assert_eq!(
        out,
        "[{\"package_name\":\"foo\",\"local_version\":\"1.0\",\
          \"comparisons\":[{\"version\":\"1.2\",\"repo\":\"debian\"}]}]"
    );
}

#[test]
fn compare_with_no_match_yields_no_rows() {
    let body = "[{\"repo\":\"arch\",\"name\":\"foo\",\"version\":\"0.9\"}]";
    let backend = Backend::Buffer(BufferApi::read_from(body.to_string()));
    let locals = vec![ComparePackage::new("foo".to_string(), "1.0".to_string())];
    let targets = vec![Repo::new("debian".to_string())];
    let comps = compare_packages(&locals, &backend, &targets).unwrap();
    assert_eq!(comps.len(), 1);
    assert!(comps[0].comparisons().is_empty());
}

#[test]
fn buffer_source_serves_any_query_from_its_text() {
    let body = "[{\"repo\":\"debian\",\"name\":\"foo\",\"version\":\"1.2\"}]";
    let api = BufferApi::read_from(body.to_string());
    let a = api.project("anything").unwrap();
    let b = api.project("else").unwrap();
    assert_eq!(a, b);
    assert_eq!(a.len(), 1);
}

#[test]
fn buffer_source_propagates_decode_errors() {
    let api = BufferApi::read_from("not json".to_string());
    match api.project("x") {
        Err(RepologyError::Decode(_)) => {},
        other => panic!("expected a decode error, got {:?}", other),
    }
}

#[test]
fn response_classification_by_status_and_encoding() {
    // 2xx with valid UTF-8: the decoded body
    match repolocli::source::decode_response(b"[]".to_vec(), 200) {
        Ok(s) => assert_eq!(s, "[]"),
        other => panic!("expected the decoded body, got {:?}", other),
    }
    // any non-2xx status is a transport error
    match repolocli::source::decode_response(b"[]".to_vec(), 404) {
        Err(RepologyError::Transport(_)) => {},
        other => panic!("expected a transport error, got {:?}", other),
    }
    match repolocli::source::decode_response(Vec::new(), 301) {
        Err(RepologyError::Transport(_)) => {},
        other => panic!("expected a transport error, got {:?}", other),
    }
    // a 2xx body that is not UTF-8 is a decode error
    match repolocli::source::decode_response(vec![0xff, 0xfe], 200) {
        Err(RepologyError::Decode(_)) => {},
        other => panic!("expected a decode error, got {:?}", other),
    }
}

#[test]
fn compare_with_no_local_packages_queries_nothing() {
    // no local packages, so no fetch happens even through a remote source
    let backend = Backend::RepologyOrg(RestApi::new("https://repology.example/".to_string()));
    let locals: Vec<ComparePackage> = Vec::new();
    let targets = vec![Repo::new("debian".to_string())];
    let comps = compare_packages(&locals, &backend, &targets).unwrap();
    assert!(comps.is_empty());
}

#[test]
fn rest_api_builds_escaped_urls() {
    let api = RestApi::new("https://repology.example/".to_string());
    assert_eq!(
        api.project_url("hello world"),
        "https://repology.example/api/v1/project/hello%20world"
    );
    assert_eq!(
        api.repo_problems_url("debian"),
        "https://repology.example/api/v1/repository/debian/problems"
    );
    assert_eq!(
        api.maintainer_problems_url("a@b", "arch"),
        "https://repology.example/api/v1/maintainer/a%40b/problems-for-repo/arch"
    );
}

#[test]
fn frontend_kind_selection() {
    assert_eq!(frontend_kind_of("lines").unwrap(), FrontendKind::Lines);
    assert_eq!(frontend_kind_of("json").unwrap(), FrontendKind::Json);
    assert_eq!(frontend_kind_of("table").unwrap(), FrontendKind::Table);
    match frontend_kind_of("xml") {
        Err(RepologyError::UnknownFormat(_)) => {},
        other => panic!("expected an unknown-format error, got {:?}", other),
    }
}
