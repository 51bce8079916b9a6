use build_deps::extract::{extract, Package};
use build_deps::plan::{BuildPlan, Invocation};
use build_deps::version::parse_version;

fn inv(args: &[&str], cwd: &str, name: &str, version: &str) -> Invocation {
    Invocation {
        args: args.iter().map(|a| a.to_string()).collect(),
        cwd: cwd.to_string(),
        pkg_name: name.to_string(),
        pkg_version: version.to_string(),
    }
}

fn names_and_versions(pkgs: &[Package]) -> Vec<(String, String)> {
    pkgs.iter().map(|p| (p.name.clone(), p.version.text.clone())).collect()
}

#[test]
fn current_directory_package_is_excluded() {
    let plan = BuildPlan {
        invocations: vec![
            inv(&["rustc", "--crate-name", "proj"], "/proj", "proj", "0.1.0"),
            inv(&["rustc", "--crate-name", "dep"], "/proj/dep", "dep", "1.2.0"),
        ],
    };
    let pkgs = extract(&plan, &"/proj".to_string()).unwrap();
    assert_eq!(names_and_versions(&pkgs), vec![("dep".to_string(), "1.2.0".to_string())]);
}

#[test]
fn empty_args_invocation_is_excluded() {
    let plan = BuildPlan {
        invocations: vec![
            inv(&[], "/elsewhere", "meta", "2.0.0"),
            inv(&["rustc"], "/proj/dep", "dep", "1.0.0"),
        ],
    };
    let pkgs = extract(&plan, &"/proj".to_string()).unwrap();
    assert_eq!(names_and_versions(&pkgs), vec![("dep".to_string(), "1.0.0".to_string())]);
}

#[test]
fn duplicate_name_keeps_highest_version() {
    let plan = BuildPlan {
        invocations: vec![
            inv(&["rustc"], "/a", "dep", "1.0.0"),
            inv(&["rustc"], "/b", "dep", "1.1.0"),
        ],
    };
    let pkgs = extract(&plan, &"/proj".to_string()).unwrap();
    assert_eq!(names_and_versions(&pkgs), vec![("dep".to_string(), "1.1.0".to_string())]);
}

#[test]
fn duplicate_name_keeps_highest_version_either_order() {
    let plan = BuildPlan {
        invocations: vec![
            inv(&["rustc"], "/b", "dep", "1.1.0"),
            inv(&["rustc"], "/a", "dep", "1.0.0"),
        ],
    };
    let pkgs = extract(&plan, &"/proj".to_string()).unwrap();
    assert_eq!(names_and_versions(&pkgs), vec![("dep".to_string(), "1.1.0".to_string())]);
}

#[test]
fn numeric_version_comparison_is_not_textual() {
    // 1.10.0 outranks 1.2.0 even though "1.10.0" < "1.2.0" textually.
    let plan = BuildPlan {
        invocations: vec![
            inv(&["rustc"], "/a", "dep", "1.2.0"),
            inv(&["rustc"], "/b", "dep", "1.10.0"),
        ],
    };
    let pkgs = extract(&plan, &"/proj".to_string()).unwrap();
    assert_eq!(names_and_versions(&pkgs), vec![("dep".to_string(), "1.10.0".to_string())]);
}

#[test]
fn prerelease_loses_to_release() {
    let plan = BuildPlan {
        invocations: vec![
            inv(&["rustc"], "/a", "dep", "1.0.0"),
            inv(&["rustc"], "/b", "dep", "1.0.0-rc.1"),
        ],
    };
    let pkgs = extract(&plan, &"/proj".to_string()).unwrap();
    assert_eq!(names_and_versions(&pkgs), vec![("dep".to_string(), "1.0.0".to_string())]);
}

#[test]
fn empty_plan_extracts_nothing() {
    let plan = BuildPlan { invocations: vec![] };
    let pkgs = extract(&plan, &"/proj".to_string()).unwrap();
    assert!(pkgs.is_empty());
}

#[test]
fn output_is_sorted_by_name_and_unique() {
    let plan = BuildPlan {
        invocations: vec![
            inv(&["rustc"], "/a", "zeta", "0.1.0"),
            inv(&["rustc"], "/b", "alpha", "2.0.0"),
            inv(&["rustc"], "/c", "mid", "1.0.0"),
            inv(&["rustc"], "/d", "alpha", "1.9.0"),
        ],
    };
    let pkgs = extract(&plan, &"/proj".to_string()).unwrap();
    assert_eq!(
        names_and_versions(&pkgs),
        vec![
            ("alpha".to_string(), "2.0.0".to_string()),
            ("mid".to_string(), "1.0.0".to_string()),
            ("zeta".to_string(), "0.1.0".to_string()),
        ]
    );
}

#[test]
fn extraction_is_deterministic_across_runs() {
    let make_plan = || BuildPlan {
        invocations: vec![
            inv(&["rustc"], "/a", "b", "1.0.0"),
            inv(&["rustc"], "/b", "a", "0.2.0"),
            inv(&["rustc"], "/c", "a", "0.2.0+build.7"),
        ],
    };
    let first = extract(&make_plan(), &"/proj".to_string()).unwrap();
    let second = extract(&make_plan(), &"/proj".to_string()).unwrap();
    assert_eq!(names_and_versions(&first), names_and_versions(&second));
}

#[test]
fn invalid_version_fails_extraction() {
    let plan = BuildPlan {
        invocations: vec![inv(&["rustc"], "/a", "dep", "not-a-version")],
    };
    let err = extract(&plan, &"/proj".to_string()).unwrap_err();
    assert_eq!(err.pkg_name, "dep");
    assert_eq!(err.pkg_version, "not-a-version");
}

#[test]
fn invalid_version_on_excluded_invocation_is_ignored() {
    let plan = BuildPlan {
        invocations: vec![
            inv(&[], "/a", "meta", "not-a-version"),
            inv(&["rustc"], "/proj", "proj", "also-bad"),
            inv(&["rustc"], "/b", "dep", "0.3.1"),
        ],
    };
    let pkgs = extract(&plan, &"/proj".to_string()).unwrap();
    assert_eq!(names_and_versions(&pkgs), vec![("dep".to_string(), "0.3.1".to_string())]);
}

#[test]
fn render_writes_name_colon_version() {
    let version = parse_version("1.2.3-alpha.1+build").unwrap();
    let p = Package { name: "dep".to_string(), version };
    assert_eq!(p.render(), "dep:1.2.3-alpha.1+build");
}
