use repolocli::codec::{
    deserialize_package_list, parse_compare_csv, parse_compare_list_json, parse_packages,
    parse_problems, render_packages_json, render_problems_json,
};
use repolocli::error::RepologyError;
use repolocli::json::{parse_json, to_chars, Json};
use repolocli::types::{
    ComparePackage, Download, License, Maintainer, Name, Package, Problem, Repo, Status, Summary,
    Version, Www,
};

fn chars(s: &str) -> Vec<char> {
    s.chars().collect()
}

fn text(v: &Json) -> String {
    to_chars(v).into_iter().collect()
}

#[test]
fn parse_scalars() {
    assert_eq!(parse_json(&chars("null")), Some(Json::Null));
    assert_eq!(parse_json(&chars("true")), Some(Json::Bool(true)));
    assert_eq!(parse_json(&chars("false")), Some(Json::Bool(false)));
    assert_eq!(parse_json(&chars("42")), Some(Json::Num(chars("42"))));
    assert_eq!(parse_json(&chars("-1.5e3")), Some(Json::Num(chars("-1.5e3"))));
}

#[test]
fn parse_strings_and_escapes() {
    assert_eq!(parse_json(&chars("\"abc\"")), Some(Json::Str(chars("abc"))));
    assert_eq!(parse_json(&chars("\"a\\nb\"")), Some(Json::Str(chars("a\nb"))));
    assert_eq!(parse_json(&chars("\"q\\\"q\"")), Some(Json::Str(chars("q\"q"))));
    assert_eq!(parse_json(&chars("\"\\u0041\"")), Some(Json::Str(chars("A"))));
    // a surrogate pair decodes to one character
    assert_eq!(
        parse_json(&chars("\"\\uD83D\\uDE00\"")),
        Some(Json::Str(chars("\u{1F600}")))
    );
    // a lone surrogate is malformed
    assert_eq!(parse_json(&chars("\"\\uD83D\"")), None);
}

#[test]
fn parse_arrays_objects_whitespace() {
    let j = parse_json(&chars(" [ 1 , \"x\" , null ] ")).unwrap();
    assert_eq!(
        j,
        Json::Arr(vec![Json::Num(chars("1")), Json::Str(chars("x")), Json::Null])
    );
    let o = parse_json(&chars("{ \"a\" : true , \"b\" : [] }")).unwrap();
    assert_eq!(
        o,
        Json::Obj(vec![
            (chars("a"), Json::Bool(true)),
            (chars("b"), Json::Arr(vec![])),
        ])
    );
}

#[test]
fn parse_rejects_malformed_documents() {
    assert_eq!(parse_json(&chars("")), None);
    assert_eq!(parse_json(&chars("[1,")), None);
    assert_eq!(parse_json(&chars("{\"a\"}")), None);
    assert_eq!(parse_json(&chars("nul")), None);
    assert_eq!(parse_json(&chars("[1] trailing")), None);
}

#[test]
fn serializer_escapes_and_round_trips() {
    let v = Json::Arr(vec![
        Json::Str(chars("a\"b\\c\nd\te\u{0001}")),
        Json::Obj(vec![(chars("k"), Json::Null)]),
        Json::Bool(false),
        Json::Num(chars("10")),
    ]);
    let t = text(&v);
    assert_eq!(parse_json(&chars(&t)), Some(v));
}

fn sample_packages() -> Vec<Package> {
    vec![
        Package::new(
            Repo::new("debian".to_string()),
            Some(Name::new("foo".to_string())),
            Some(Name::new("foo-src".to_string())),
            None,
            None,
            Version::new("1.2".to_string()),
            Some(Status::Newest),
            Some(Summary::new("a tool".to_string())),
            Some(vec![License::new("MIT".to_string())]),
            Some(vec![
                Maintainer::new("alice@example.org".to_string()),
                Maintainer::new("bob@example.org".to_string()),
            ]),
            Some(vec![Www::new("https://example.org/foo".to_string())]),
            Some(vec![Download::new("https://example.org/foo.tar".to_string())]),
        ),
        Package::new(
            Repo::new("arch".to_string()),
            None,
            None,
            Some(Name::new("foo-bin".to_string())),
            None,
            Version::new("0.9".to_string()),
            None,
            None,
            Some(vec![]),
            None,
            None,
            None,
        ),
    ]
}

#[test]
fn packages_round_trip_through_renderer_text() {
    // serialize with the structured renderer, parse back with the captured
    // source's parser: field-for-field identical, absence preserved
    let ps = sample_packages();
    let t = render_packages_json(&ps);
    let back = parse_packages(&t).unwrap();
    assert_eq!(back, ps);
    assert!(back[1].licenses().is_some());
    assert_eq!(back[1].licenses().unwrap().len(), 0);
    assert!(back[1].maintainers().is_none());
}

#[test]
fn parse_packages_reads_service_shape() {
    let t = "[{\"repo\":\"debian\",\"name\":\"foo\",\"version\":\"1.2\",\
             \"status\":\"outdated\",\"unknownfield\":7}]";
    let ps = parse_packages(t).unwrap();
    assert_eq!(ps.len(), 1);
    assert_eq!(ps[0].repo().as_str(), "debian");
    assert_eq!(ps[0].version().as_str(), "1.2");
    assert_eq!(ps[0].status(), Some(&Status::Outdated));
    assert!(ps[0].summary().is_none());
}

#[test]
fn parse_packages_rejects_wrong_shapes() {
    match parse_packages("{}") {
        Err(RepologyError::Decode(_)) => {},
        other => panic!("expected a decode error, got {:?}", other),
    }
    match parse_packages("[{\"repo\":\"debian\"}]") {
        Err(RepologyError::Decode(_)) => {},
        other => panic!("expected a decode error, got {:?}", other),
    }
    match parse_packages("[{\"repo\":\"d\",\"version\":\"1\",\"status\":\"odd\"}]") {
        Err(RepologyError::Decode(_)) => {},
        other => panic!("expected a decode error, got {:?}", other),
    }
    match parse_packages("not json") {
        Err(RepologyError::Decode(_)) => {},
        other => panic!("expected a decode error, got {:?}", other),
    }
}

#[test]
fn problems_round_trip_through_renderer_text() {
    let ps = vec![Problem::new(
        Repo::new("debian".to_string()),
        Name::new("foo".to_string()),
        repolocli::types::EffName::new("foo".to_string()),
        Maintainer::new("alice@example.org".to_string()),
        "homepage is dead".to_string(),
    )];
    let t = render_problems_json(&ps);
    let back = parse_problems(&t).unwrap();
    assert_eq!(back, ps);
}

#[test]
fn compare_list_json_ignores_extra_members() {
    let t = "[{\"name\":\"foo\",\"version\":\"1.0\",\"comment\":\"local\"}]";
    let l = parse_compare_list_json(t).unwrap();
    assert_eq!(l, vec![ComparePackage::new("foo".to_string(), "1.0".to_string())]);
}

#[test]
fn compare_list_csv_skips_header_and_comment() {
    let t = "name;version;comment\nfoo;1.0;local build\nbar;2.1\n";
    let l = parse_compare_csv(t).unwrap();
    assert_eq!(
        l,
        vec![
            ComparePackage::new("foo".to_string(), "1.0".to_string()),
            ComparePackage::new("bar".to_string(), "2.1".to_string()),
        ]
    );
}

#[test]
fn compare_list_csv_rejects_row_without_semicolon() {
    match parse_compare_csv("name;version;comment\njustonename\n") {
        Err(RepologyError::Decode(_)) => {},
        other => panic!("expected a decode error, got {:?}", other),
    }
}

#[test]
fn compare_list_dispatches_on_extension() {
    let json = "[{\"name\":\"foo\",\"version\":\"1.0\"}]";
    let by_json = deserialize_package_list(json, "packages.json").unwrap();
    assert_eq!(by_json.len(), 1);
    let csv = "name;version;comment\nfoo;1.0;x\n";
    let by_csv = deserialize_package_list(csv, "packages.csv").unwrap();
    assert_eq!(by_csv.len(), 1);
    match deserialize_package_list(json, "packages.yaml") {
        Err(RepologyError::UnknownFormat(_)) => {},
        other => panic!("expected an unknown-format error, got {:?}", other),
    }
    match deserialize_package_list(json, "noextension") {
        Err(RepologyError::UnknownFormat(_)) => {},
        other => panic!("expected an unknown-format error, got {:?}", other),
    }
}

#[test]
fn compare_list_csv_accepts_crlf_lines() {
    let t = "name;version;comment\r\nfoo;1.0;x\r\n";
    let l = parse_compare_csv(t).unwrap();
    assert_eq!(l, vec![ComparePackage::new("foo".to_string(), "1.0".to_string())]);
}

#[test]
fn parse_packages_accepts_pretty_printed_text() {
    let t = "[\n  {\n    \"repo\": \"debian\",\n    \"version\": \"1.2\"\n  }\n]\n";
    let ps = parse_packages(t).unwrap();
    assert_eq!(ps.len(), 1);
    assert_eq!(ps[0].repo().as_str(), "debian");
}

#[test]
fn error_messages_name_their_kind() {
    assert_eq!(
        RepologyError::Transport("timed out".to_string()).message(),
        "transport error: timed out"
    );
    assert_eq!(
        RepologyError::UnknownFormat("yaml".to_string()).message(),
        "unknown format: yaml"
    );
    assert_eq!(
        RepologyError::ConcurrentAccess.message(),
        "concurrent access to a single-shot source"
    );
}
