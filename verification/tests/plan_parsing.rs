use build_deps::extract::extract;
use build_deps::plan::{parse_plan, PlanError, PlanField};

const GOOD_PLAN: &str = r#"{
  "invocations": [
    {
      "args": ["rustc", "--crate-name", "dep"],
      "cwd": "/proj/dep",
      "env": {"CARGO_PKG_NAME": "dep", "CARGO_PKG_VERSION": "1.2.0"}
    },
    {
      "args": ["rustc", "--crate-name", "proj"],
      "cwd": "/proj",
      "env": {"CARGO_PKG_NAME": "proj", "CARGO_PKG_VERSION": "0.1.0"}
    }
  ]
}"#;

#[test]
fn well_formed_plan_parses() {
    let plan = parse_plan(GOOD_PLAN).unwrap();
    assert_eq!(plan.invocations.len(), 2);
    let first = &plan.invocations[0];
    assert_eq!(first.args, vec!["rustc", "--crate-name", "dep"]);
    assert_eq!(first.cwd, "/proj/dep");
    assert_eq!(first.pkg_name, "dep");
    assert_eq!(first.pkg_version, "1.2.0");
}

#[test]
fn parsed_plan_extracts_the_dependency() {
    let plan = parse_plan(GOOD_PLAN).unwrap();
    let pkgs = extract(&plan, &"/proj".to_string()).unwrap();
    assert_eq!(pkgs.len(), 1);
    assert_eq!(pkgs[0].render(), "dep:1.2.0");
}

#[test]
fn extra_fields_are_tolerated() {
    let text = r#"{
      "invocations": [
        {
          "program": "rustc",
          "args": ["rustc"],
          "cwd": "/d",
          "env": {"CARGO_PKG_NAME": "d", "CARGO_PKG_VERSION": "0.1.0", "OTHER": "x"},
          "links": {}
        }
      ],
      "inputs": []
    }"#;
    let plan = parse_plan(text).unwrap();
    assert_eq!(plan.invocations.len(), 1);
    assert_eq!(plan.invocations[0].pkg_name, "d");
}

#[test]
fn malformed_json_is_a_syntax_error() {
    assert_eq!(parse_plan("{not json").unwrap_err(), PlanError::Syntax);
    assert_eq!(parse_plan("").unwrap_err(), PlanError::Syntax);
}

#[test]
fn non_object_root_is_rejected() {
    assert_eq!(parse_plan("[1, 2]").unwrap_err(), PlanError::WrongType(PlanField::Root));
}

#[test]
fn missing_invocations_is_reported() {
    assert_eq!(parse_plan("{}").unwrap_err(), PlanError::Missing(PlanField::Invocations));
}

#[test]
fn non_array_invocations_is_reported() {
    assert_eq!(
        parse_plan(r#"{"invocations": 3}"#).unwrap_err(),
        PlanError::WrongType(PlanField::Invocations)
    );
}

#[test]
fn non_object_invocation_is_reported() {
    assert_eq!(
        parse_plan(r#"{"invocations": ["x"]}"#).unwrap_err(),
        PlanError::WrongType(PlanField::Invocation)
    );
}

#[test]
fn missing_and_wrong_fields_are_distinct() {
    let no_args = r#"{"invocations": [{"cwd": "/d", "env": {}}]}"#;
    assert_eq!(parse_plan(no_args).unwrap_err(), PlanError::Missing(PlanField::Args));

    let bad_args = r#"{"invocations": [{"args": "rustc", "cwd": "/d", "env": {}}]}"#;
    assert_eq!(parse_plan(bad_args).unwrap_err(), PlanError::WrongType(PlanField::Args));

    let bad_arg = r#"{"invocations": [{"args": [1], "cwd": "/d", "env": {}}]}"#;
    assert_eq!(parse_plan(bad_arg).unwrap_err(), PlanError::WrongType(PlanField::Arg));

    let bad_env = r#"{"invocations": [{"args": [], "cwd": "/d", "env": []}]}"#;
    assert_eq!(parse_plan(bad_env).unwrap_err(), PlanError::WrongType(PlanField::Env));

    let bad_name = r#"{"invocations": [{"args": [], "cwd": "/d",
        "env": {"CARGO_PKG_NAME": true, "CARGO_PKG_VERSION": "1.0.0"}}]}"#;
    assert_eq!(parse_plan(bad_name).unwrap_err(), PlanError::WrongType(PlanField::Name));

    let no_cwd = r#"{"invocations": [{"args": [], "env": {}}]}"#;
    assert_eq!(parse_plan(no_cwd).unwrap_err(), PlanError::Missing(PlanField::Cwd));

    let bad_cwd = r#"{"invocations": [{"args": [], "cwd": 4, "env": {}}]}"#;
    assert_eq!(parse_plan(bad_cwd).unwrap_err(), PlanError::WrongType(PlanField::Cwd));

    let no_env = r#"{"invocations": [{"args": [], "cwd": "/d"}]}"#;
    assert_eq!(parse_plan(no_env).unwrap_err(), PlanError::Missing(PlanField::Env));

    let no_name = r#"{"invocations": [{"args": [], "cwd": "/d", "env": {}}]}"#;
    assert_eq!(parse_plan(no_name).unwrap_err(), PlanError::Missing(PlanField::Name));

    let no_version =
        r#"{"invocations": [{"args": [], "cwd": "/d", "env": {"CARGO_PKG_NAME": "d"}}]}"#;
    assert_eq!(parse_plan(no_version).unwrap_err(), PlanError::Missing(PlanField::Version));

    let bad_version = r#"{"invocations": [{"args": [], "cwd": "/d",
        "env": {"CARGO_PKG_NAME": "d", "CARGO_PKG_VERSION": null}}]}"#;
    assert_eq!(parse_plan(bad_version).unwrap_err(), PlanError::WrongType(PlanField::Version));
}

#[test]
fn empty_invocations_parse_to_the_empty_plan() {
    let plan = parse_plan(r#"{"invocations": []}"#).unwrap();
    assert!(plan.invocations.is_empty());
    let pkgs = extract(&plan, &"/proj".to_string()).unwrap();
    assert!(pkgs.is_empty());
}
