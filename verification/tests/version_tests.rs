use bver::schema::FileKind;
use bver::version::{
    is_valid_local, is_valid_release, is_valid_semver_identifier, parse_main_version,
    parse_suffixes, split_at_prerelease, validate_javascript, validate_python, validate_simple,
    validate_version,
};

#[test]
fn test_valid_python_versions() {
    assert!(validate_python("1").is_ok());
    assert!(validate_python("1.0").is_ok());
    assert!(validate_python("1.0.0").is_ok());
    assert!(validate_python("1.2.3").is_ok());
    assert!(validate_python("1.2.3.4").is_ok());
    assert!(validate_python("0.0.1").is_ok());
    assert!(validate_python("10.20.30").is_ok());
}

#[test]
fn test_valid_python_prerelease_versions() {
    assert!(validate_python("1.0a1").is_ok());
    assert!(validate_python("1.0b2").is_ok());
    assert!(validate_python("1.0rc1").is_ok());
    assert!(validate_python("1.0alpha1").is_ok());
    assert!(validate_python("1.0beta2").is_ok());
    assert!(validate_python("1.0.0a1").is_ok());
    assert!(validate_python("1.0c1").is_ok());
    assert!(validate_python("1.0preview1").is_ok());
}

#[test]
fn test_valid_python_post_versions() {
    assert!(validate_python("1.0.post1").is_ok());
    assert!(validate_python("1.0.0.post1").is_ok());
    assert!(validate_python("1.0a1.post1").is_ok());
}

#[test]
fn test_valid_python_dev_versions() {
    assert!(validate_python("1.0.dev1").is_ok());
    assert!(validate_python("1.0.0.dev1").is_ok());
    assert!(validate_python("1.0a1.dev1").is_ok());
    assert!(validate_python("1.0.post1.dev1").is_ok());
}

#[test]
fn test_valid_python_epoch_versions() {
    assert!(validate_python("1!1.0").is_ok());
    assert!(validate_python("2!1.0.0").is_ok());
}

#[test]
fn test_valid_python_local_versions() {
    assert!(validate_python("1.0+local").is_ok());
    assert!(validate_python("1.0+local.version").is_ok());
    assert!(validate_python("1.0+abc123").is_ok());
    assert!(validate_python("1.0a1+local").is_ok());
}

#[test]
fn test_invalid_python_versions() {
    assert!(validate_python("").is_err());
    assert!(validate_python("a.b.c").is_err());
    assert!(validate_python("1.0+").is_err());
    assert!(validate_python("1.0.").is_err());
    assert!(validate_python(".1.0").is_err());
    assert!(validate_python("1..0").is_err());
}

#[test]
fn test_valid_javascript_versions() {
    assert!(validate_javascript("1.0.0").is_ok());
    assert!(validate_javascript("1.2.3").is_ok());
    assert!(validate_javascript("0.0.1").is_ok());
    assert!(validate_javascript("10.20.30").is_ok());
}

#[test]
fn test_valid_javascript_prerelease_versions() {
    assert!(validate_javascript("1.0.0-alpha.1").is_ok());
    assert!(validate_javascript("1.0.0-beta.2").is_ok());
    assert!(validate_javascript("1.0.0-rc.1").is_ok());
    assert!(validate_javascript("1.0.0-0").is_ok());
    assert!(validate_javascript("1.0.0-alpha").is_ok());
}

#[test]
fn test_valid_javascript_build_versions() {
    assert!(validate_javascript("1.0.0+build").is_ok());
    assert!(validate_javascript("1.0.0+build.123").is_ok());
    assert!(validate_javascript("1.0.0-alpha.1+build").is_ok());
}

#[test]
fn test_invalid_javascript_versions() {
    assert!(validate_javascript("").is_err());
    assert!(validate_javascript("1.0").is_err()); // Must have 3 parts
    assert!(validate_javascript("1").is_err());
    assert!(validate_javascript("1.0.0-").is_err());
    assert!(validate_javascript("1.0.0+").is_err());
}

fn text(s: &str) -> Vec<char> {
    s.chars().collect()
}

fn string(s: &[char]) -> String {
    s.iter().collect()
}

#[test]
fn simple_accepts_three_numbers() {
    assert!(validate_simple("1.2.3").is_ok());
    assert!(validate_simple("0.0.0").is_ok());
    assert!(validate_simple("007.08.9").is_ok());
    assert!(validate_simple("4294967295.4294967295.4294967295").is_ok());
}

#[test]
fn simple_reasons() {
    assert_eq!(
        validate_simple("1.2").unwrap_err(),
        "Invalid simple version: 1.2. Expected format: major.minor.patch"
    );
    assert_eq!(
        validate_simple("").unwrap_err(),
        "Invalid simple version: . Expected format: major.minor.patch"
    );
    assert_eq!(
        validate_simple("1.2.3.4").unwrap_err(),
        "Invalid simple version: 1.2.3.4. Expected format: major.minor.patch"
    );
    assert_eq!(validate_simple("a.2.3").unwrap_err(), "Invalid major version component: a");
    assert_eq!(validate_simple("1.b.3").unwrap_err(), "Invalid minor version component: b");
    assert_eq!(validate_simple("1.2.3a1").unwrap_err(), "Invalid patch version component: 3a1");
    assert_eq!(validate_simple("1..3").unwrap_err(), "Invalid minor version component: ");
    assert_eq!(validate_simple("x.y.z").unwrap_err(), "Invalid major version component: x");
    assert_eq!(
        validate_simple("1.2.4294967296").unwrap_err(),
        "Invalid patch version component: 4294967296"
    );
    assert_eq!(validate_simple("-1.2.3").unwrap_err(), "Invalid major version component: -1");
    assert_eq!(validate_simple("+1.2.3").unwrap_err(), "Invalid major version component: +1");
    assert_eq!(validate_simple(" 1.2.3").unwrap_err(), "Invalid major version component:  1");
    assert_eq!(validate_simple("1.2.3.post1").unwrap_err(),
        "Invalid simple version: 1.2.3.post1. Expected format: major.minor.patch");
}

#[test]
fn python_reasons() {
    assert_eq!(validate_python("").unwrap_err(), "Version string cannot be empty");
    assert_eq!(validate_python("1!").unwrap_err(), "Version string cannot be empty");
    assert_eq!(validate_python("+abc").unwrap_err(), "Version string cannot be empty");
    assert_eq!(validate_python("x!1.0").unwrap_err(), "Invalid epoch: x");
    assert_eq!(validate_python("1.0+").unwrap_err(), "Invalid local version: ");
    assert_eq!(validate_python("1.0+a..b").unwrap_err(), "Invalid local version: a..b");
    assert_eq!(validate_python("1.0+a_b").unwrap_err(), "Invalid local version: a_b");
    assert_eq!(validate_python("1.0+a!b").unwrap_err(), "Invalid epoch: 1.0+a");
    assert_eq!(validate_python("A.B.C").unwrap_err(), "Invalid release version: ");
    assert_eq!(validate_python("1.0.").unwrap_err(), "Invalid release version: 1.0.");
    assert_eq!(validate_python("1.0x").unwrap_err(), "Invalid release version: 1.0x");
    assert_eq!(validate_python("1.0xpost1").unwrap_err(), "Invalid release version: 1.0xpost1");
    assert_eq!(validate_python("1.0a1x").unwrap_err(), "Invalid version suffix: x");
    assert_eq!(validate_python("1.0.post1.post2").unwrap_err(), "Invalid version suffix: .post2");
    assert_eq!(validate_python("1.0.postpost1").unwrap_err(), "Invalid version suffix: post1");
    assert_eq!(validate_python("1.0.dev1.post1").unwrap_err(), "Invalid version suffix: .post1");
    assert_eq!(validate_python("1.0a1b2").unwrap_err(), "Invalid version suffix: b2");
    assert_eq!(validate_python("1.0-alpha.1").unwrap_err(), "Invalid release version: 1.0-alpha.1");
}

#[test]
fn python_accepts_every_suffix_in_order() {
    assert!(validate_python("1.0a1.post2.dev3").is_ok());
    assert!(validate_python("1!1.0rc1.post2.dev3+ubuntu.1").is_ok());
    assert!(validate_python("1.0a").is_ok());
    assert!(validate_python("1.0.post").is_ok());
    assert!(validate_python("1.0.dev").is_ok());
    assert!(validate_python("1.0a1post2dev3").is_ok());
    assert!(validate_python("1.0.a1").is_err());
    assert!(validate_python("!1.0").is_ok());
    assert!(validate_python("99999999999999999999.0").is_ok());
}

#[test]
fn python_is_case_insensitive() {
    assert!(validate_python("1.0RC1").is_ok());
    assert!(validate_python("1.0A1.POST2.DEV3+LOCAL").is_ok());
    assert!(validate_python("1.0Alpha1").is_ok());
}

#[test]
fn python_non_ascii_text() {
    assert_eq!(validate_python("1.0\u{c9}").unwrap_err(), "Invalid release version: 1.0\u{e9}");
    assert!(validate_python("1.0+\u{212a}").is_ok());
}

#[test]
fn javascript_reasons() {
    assert_eq!(validate_javascript("").unwrap_err(), "Version string cannot be empty");
    assert_eq!(
        validate_javascript("1.0").unwrap_err(),
        "Invalid semver: 1.0. Expected format: major.minor.patch"
    );
    assert_eq!(validate_javascript("1.0.0+").unwrap_err(), "Invalid build metadata: ");
    assert_eq!(validate_javascript("1.0.0+a..b").unwrap_err(), "Invalid build metadata: a..b");
    assert_eq!(validate_javascript("1.0.0+a+b").unwrap_err(), "Invalid build metadata: a+b");
    assert_eq!(validate_javascript("1.0.0-").unwrap_err(), "Invalid prerelease: ");
    assert_eq!(validate_javascript("1.2.3-").unwrap_err(), "Invalid prerelease: ");
    assert_eq!(validate_javascript("1.0.0-a..b").unwrap_err(), "Invalid prerelease: a..b");
    assert_eq!(validate_javascript("1.0.0-a_b").unwrap_err(), "Invalid prerelease: a_b");
    assert_eq!(validate_javascript("x.0.0").unwrap_err(), "Invalid major version: x");
    assert_eq!(validate_javascript("1.y.0").unwrap_err(), "Invalid minor version: y");
    assert_eq!(validate_javascript("1.0.z-rc.1").unwrap_err(), "Invalid patch version: z");
    assert_eq!(
        validate_javascript("1.2.3.post1").unwrap_err(),
        "Invalid semver: 1.2.3.post1. Expected format: major.minor.patch"
    );
    assert_eq!(validate_javascript("1.2.3a1").unwrap_err(), "Invalid patch version: 3a1");
    // the release is judged before the pre-release
    assert_eq!(
        validate_javascript("1.0-").unwrap_err(),
        "Invalid semver: 1.0. Expected format: major.minor.patch"
    );
}

#[test]
fn javascript_accepts_hyphens_in_identifiers() {
    assert!(validate_javascript("1.0.0-a-b.c-d").is_ok());
    assert!(validate_javascript("1.0.0-alpha+build-1.x").is_ok());
    assert!(validate_javascript("1.0.0-RC.1").is_ok());
}

#[test]
fn scheme_rejection_examples() {
    assert!(validate_version("1.0", FileKind::Semver).is_err());
    assert!(validate_version("1.2.3-", FileKind::Semver).is_err());
    assert!(validate_version("1.2.3.post1", FileKind::Semver).is_err());
    assert!(validate_version("1.2.3a1", FileKind::Python).is_ok());
}

#[test]
fn validate_version_by_kind() {
    assert!(validate_version("", FileKind::Any).is_ok());
    assert!(validate_version("no version at all", FileKind::Any).is_ok());
    assert!(validate_version("1.2.3", FileKind::Simple).is_ok());
    assert!(validate_version("1.2", FileKind::Simple).is_err());
    assert!(validate_version("1.2", FileKind::Python).is_ok());
    assert!(validate_version("1.2.3-rc.1", FileKind::Python).is_err());
    assert!(validate_version("1.2.3-rc.1", FileKind::Semver).is_ok());
}

#[test]
fn release_and_suffix() {
    let split = |s: &str| {
        let v = text(s);
        let (release, rest) = split_at_prerelease(&v);
        (string(release), string(rest))
    };
    assert_eq!(split("1.2.3"), ("1.2.3".to_string(), "".to_string()));
    assert_eq!(split("1.2.3a1"), ("1.2.3".to_string(), "a1".to_string()));
    assert_eq!(split("1.2.3.post1"), ("1.2.3".to_string(), ".post1".to_string()));
    assert_eq!(split("1.2.3rc1.dev2"), ("1.2.3".to_string(), "rc1.dev2".to_string()));
    assert_eq!(split("1.2.3.dev1.post2"), ("1.2.3".to_string(), ".dev1.post2".to_string()));
    assert_eq!(split("1.2.3xb1"), ("1.2.3xb1".to_string(), "".to_string()));
    assert_eq!(split("alpha"), ("".to_string(), "alpha".to_string()));
    assert_eq!(split(""), ("".to_string(), "".to_string()));
}

#[test]
fn suffixes() {
    assert!(parse_suffixes(&text("")).is_ok());
    assert!(parse_suffixes(&text("a1")).is_ok());
    assert!(parse_suffixes(&text("alpha12.post3.dev4")).is_ok());
    assert!(parse_suffixes(&text("preview.dev")).is_ok());
    assert_eq!(parse_suffixes(&text("x")).unwrap_err(), "Invalid version suffix: x");
    assert_eq!(parse_suffixes(&text(".dev1.post1")).unwrap_err(), "Invalid version suffix: .post1");
    assert_eq!(parse_suffixes(&text("alphabeta")).unwrap_err(), "Invalid version suffix: beta");
}

#[test]
fn main_version() {
    assert!(parse_main_version(&text("1.2.3rc1")).is_ok());
    assert_eq!(parse_main_version(&text("")).unwrap_err(), "Version string cannot be empty");
    assert_eq!(parse_main_version(&text("rc1")).unwrap_err(), "Invalid release version: ");
}

#[test]
fn pieces() {
    assert!(is_valid_release(&text("1.22.333")));
    assert!(!is_valid_release(&text("")));
    assert!(!is_valid_release(&text("1.")));
    assert!(!is_valid_release(&text("1.a")));
    assert!(is_valid_local(&text("abc.1.X9")));
    assert!(!is_valid_local(&text("")));
    assert!(!is_valid_local(&text("a-b")));
    assert!(is_valid_semver_identifier(&text("a-b.0.X")));
    assert!(!is_valid_semver_identifier(&text("")));
    assert!(!is_valid_semver_identifier(&text("a.")));
    assert!(!is_valid_semver_identifier(&text("a+b")));
}

#[test]
fn python_accepts_post_and_dev_without_their_dot() {
    assert!(validate_python("1.0post1").is_ok());
    assert!(validate_python("1.0dev1").is_ok());
    assert!(validate_python("1.0post1dev2").is_ok());
    assert!(validate_python("1.0post1.dev2").is_ok());
    assert!(validate_python("1.0.post1dev2").is_ok());
    assert!(validate_python("1.0a1post2dev3").is_ok());
    assert!(validate_python("1.0post").is_ok());
    assert!(validate_python("1.0dev").is_ok());
    assert!(validate_python("1!1.0POST1+local").is_ok());
    assert!(validate_version("1.0post1", FileKind::Python).is_ok());
    assert_eq!(validate_python("1.0dev1post2").unwrap_err(), "Invalid version suffix: post2");
    assert_eq!(validate_python("post1").unwrap_err(), "Invalid release version: ");
}

#[test]
fn release_and_suffix_without_dots() {
    let split = |s: &str| {
        let v = text(s);
        let (release, rest) = split_at_prerelease(&v);
        (string(release), string(rest))
    };
    assert_eq!(split("1.2.3post1"), ("1.2.3".to_string(), "post1".to_string()));
    assert_eq!(split("1.2.3dev1"), ("1.2.3".to_string(), "dev1".to_string()));
    assert_eq!(split("1.2.3post1.dev2"), ("1.2.3".to_string(), "post1.dev2".to_string()));
    assert_eq!(split("1.2.3.post1dev2"), ("1.2.3".to_string(), ".post1dev2".to_string()));
    assert_eq!(split("1.2.3xdev1"), ("1.2.3xdev1".to_string(), "".to_string()));
}
