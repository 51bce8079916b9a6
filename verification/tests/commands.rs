use build_deps::args::{build_args, member_manifest_path, plan_query_args, BuildOptions};
use build_deps::extract::{extract, Package};
use build_deps::plan::{BuildPlan, Invocation};
use build_deps::version::parse_version;

fn opts() -> BuildOptions {
    BuildOptions {
        release: false,
        target: None,
        manifest_path: None,
        include_tests: false,
        verbose: false,
        debug: false,
    }
}

fn pkg(name: &str, version: &str) -> Package {
    Package { name: name.to_string(), version: parse_version(version).unwrap() }
}

#[test]
fn scoped_build_command_has_the_fixed_order() {
    let pkgs = vec![pkg("dep", "1.1.0")];
    let args = build_args(
        &pkgs,
        &BuildOptions {
            release: true,
            target: Some("x86_64-unknown-linux-gnu".to_string()),
            ..opts()
        },
    );
    assert_eq!(
        args,
        vec!["build", "--release", "--target", "x86_64-unknown-linux-gnu", "-p", "dep:1.1.0"]
    );
}

#[test]
fn empty_package_set_degrades_to_unscoped_build() {
    let args = build_args(&vec![], &opts());
    assert_eq!(args, vec!["build"]);
    assert!(!args.iter().any(|a| a == "-p"));
}

#[test]
fn one_selection_flag_per_package() {
    let pkgs = vec![pkg("a", "0.1.0"), pkg("b", "2.0.0"), pkg("c", "1.0.0-rc.2")];
    let args = build_args(&pkgs, &opts());
    assert_eq!(args.iter().filter(|a| a.as_str() == "-p").count(), pkgs.len());
    assert_eq!(args, vec!["build", "-p", "a:0.1.0", "-p", "b:2.0.0", "-p", "c:1.0.0-rc.2"]);
}

#[test]
fn all_options_appear_in_order() {
    let args = build_args(
        &vec![pkg("dep", "0.2.0")],
        &BuildOptions {
            release: true,
            target: Some("thumbv7em-none-eabihf".to_string()),
            manifest_path: Some("member/Cargo.toml".to_string()),
            include_tests: true,
            verbose: true,
            debug: true,
        },
    );
    assert_eq!(
        args,
        vec![
            "build",
            "--release",
            "--target",
            "thumbv7em-none-eabihf",
            "--verbose",
            "--manifest-path",
            "member/Cargo.toml",
            "-p",
            "dep:0.2.0",
        ]
    );
}

#[test]
fn plan_query_carries_plan_only_flags() {
    let args = plan_query_args(&opts());
    assert_eq!(args, vec!["build", "--build-plan", "-Z", "unstable-options"]);
    let args = plan_query_args(
        &BuildOptions {
            include_tests: true,
            manifest_path: Some("m/Cargo.toml".to_string()),
            ..opts()
        },
    );
    assert_eq!(
        args,
        vec!["build", "--build-plan", "-Z", "unstable-options", "--tests", "--manifest-path",
            "m/Cargo.toml"]
    );
}

#[test]
fn member_manifest_path_joins_directories() {
    assert_eq!(member_manifest_path("/work/ws", "member"), "/work/ws/member/Cargo.toml");
}

#[test]
fn extracted_set_feeds_the_scoped_build() {
    let plan = BuildPlan {
        invocations: vec![
            Invocation {
                args: vec!["rustc".to_string()],
                cwd: "/proj/dep".to_string(),
                pkg_name: "dep".to_string(),
                pkg_version: "1.1.0".to_string(),
            },
            Invocation {
                args: vec!["rustc".to_string()],
                cwd: "/proj".to_string(),
                pkg_name: "proj".to_string(),
                pkg_version: "0.1.0".to_string(),
            },
        ],
    };
    let pkgs = extract(&plan, &"/proj".to_string()).unwrap();
    let args = build_args(&pkgs, &BuildOptions { release: true, ..opts() });
    assert_eq!(args, vec!["build", "--release", "-p", "dep:1.1.0"]);
}
