use build_deps::version::{parse_version, Version};

fn v(s: &str) -> Version {
    parse_version(s).unwrap()
}

fn lt(a: &str, b: &str) -> bool {
    v(a).precedes(&v(b))
}

#[test]
fn parse_keeps_components_and_text() {
    let p = v("1.2.3-alpha.7+nightly.5");
    assert_eq!(p.major, 1);
    assert_eq!(p.minor, 2);
    assert_eq!(p.patch, 3);
    assert_eq!(p.pre, vec!["alpha".to_string(), "7".to_string()]);
    assert_eq!(p.text, "1.2.3-alpha.7+nightly.5");
}

#[test]
fn parse_release_has_no_prerelease() {
    let p = v("0.9.12");
    assert!(p.pre.is_empty());
    assert_eq!(p.text, "0.9.12");
}

#[test]
fn parse_rejects_invalid_versions() {
    assert!(parse_version("").is_none());
    assert!(parse_version("1.2").is_none());
    assert!(parse_version("1.q.r").is_none());
    assert!(parse_version("1.2.3-").is_none());
    assert!(parse_version("01.2.3").is_none());
    assert!(parse_version("1.2.3 ").is_none());
}

#[test]
fn numeric_components_compare_numerically() {
    assert!(lt("1.9.9", "1.10.0"));
    assert!(lt("1.10.0", "2.0.0"));
    assert!(lt("2.0.0", "2.0.1"));
    assert!(!lt("2.0.1", "2.0.0"));
}

#[test]
fn prerelease_sorts_before_release() {
    assert!(lt("1.0.0-rc.1", "1.0.0"));
    assert!(!lt("1.0.0", "1.0.0-rc.1"));
}

#[test]
fn prerelease_chain_follows_precedence() {
    // The canonical precedence chain of the semantic-versioning rules.
    let chain = [
        "1.0.0-alpha",
        "1.0.0-alpha.1",
        "1.0.0-alpha.beta",
        "1.0.0-beta",
        "1.0.0-beta.2",
        "1.0.0-beta.11",
        "1.0.0-rc.1",
        "1.0.0",
    ];
    for i in 0..chain.len() {
        for j in 0..chain.len() {
            assert_eq!(lt(chain[i], chain[j]), i < j, "{} vs {}", chain[i], chain[j]);
        }
    }
}

#[test]
fn build_metadata_never_affects_the_order() {
    assert!(!lt("1.0.0+a", "1.0.0+b"));
    assert!(!lt("1.0.0+b", "1.0.0+a"));
    assert!(!lt("1.0.0+one", "1.0.0"));
    assert!(!lt("1.0.0", "1.0.0+one"));
}

#[test]
fn equal_versions_do_not_precede_each_other() {
    assert!(!lt("3.4.5", "3.4.5"));
    assert!(!lt("3.4.5-x.2", "3.4.5-x.2"));
}
