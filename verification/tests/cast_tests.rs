use bver::cast::{cast_to_python, cast_to_semver, cast_to_simple, cast_version, find_release_end};
use bver::schema::FileKind;

#[test]
fn test_cast_to_simple() {
    // Already simple
    assert_eq!(cast_to_simple("1.2.3").unwrap(), "1.2.3");

    // Pad missing parts
    assert_eq!(cast_to_simple("1").unwrap(), "1.0.0");
    assert_eq!(cast_to_simple("1.2").unwrap(), "1.2.0");

    // Strip pre-release
    assert_eq!(cast_to_simple("1.2.3a1").unwrap(), "1.2.3");
    assert_eq!(cast_to_simple("1.2.3b2").unwrap(), "1.2.3");
    assert_eq!(cast_to_simple("1.2.3rc1").unwrap(), "1.2.3");
    assert_eq!(cast_to_simple("1.2.3alpha1").unwrap(), "1.2.3");
    assert_eq!(cast_to_simple("1.2.3beta2").unwrap(), "1.2.3");

    // Strip post-release
    assert_eq!(cast_to_simple("1.2.3.post1").unwrap(), "1.2.3");

    // Strip dev
    assert_eq!(cast_to_simple("1.2.3.dev1").unwrap(), "1.2.3");

    // Strip local
    assert_eq!(cast_to_simple("1.2.3+local").unwrap(), "1.2.3");

    // Strip epoch
    assert_eq!(cast_to_simple("1!1.2.3").unwrap(), "1.2.3");

    // Combined
    assert_eq!(cast_to_simple("1!1.2.3a1.post1.dev1+local").unwrap(), "1.2.3");
}

#[test]
fn test_cast_to_python() {
    // Simple versions pass through
    assert_eq!(cast_to_python("1.2.3").unwrap(), "1.2.3");

    // Python versions pass through
    assert_eq!(cast_to_python("1.2.3a1").unwrap(), "1.2.3a1");
}

#[test]
fn cast_to_python_keeps_anything() {
    assert_eq!(cast_to_python("").unwrap(), "");
    assert_eq!(cast_to_python("1.X+Local").unwrap(), "1.X+Local");
}

#[test]
fn cast_to_simple_cuts_and_pads() {
    assert_eq!(cast_to_simple("1.2.3.4").unwrap(), "1.2.3");
    assert_eq!(cast_to_simple("01.002.3").unwrap(), "01.002.3");
    assert_eq!(cast_to_simple("5RC1").unwrap(), "5.0.0");
    assert_eq!(cast_to_simple("1.2.3-beta.4").unwrap(), "1.2.3");
    assert_eq!(cast_to_simple("1.2.3preview1").unwrap(), "1.2.3");
    assert_eq!(cast_to_simple("1.2.3c1").unwrap(), "1.2.3");
}

#[test]
fn cast_to_simple_names_the_invalid_part() {
    assert_eq!(
        cast_to_simple("1.x.3").unwrap_err(),
        "Cannot cast '1.x.3' to simple version: invalid part 'x'"
    );
    assert_eq!(
        cast_to_simple("7!1.2.X+L").unwrap_err(),
        "Cannot cast '1.2.x' to simple version: invalid part 'x'"
    );
    assert_eq!(
        cast_to_simple("").unwrap_err(),
        "Cannot cast '' to simple version: invalid part ''"
    );
    assert_eq!(
        cast_to_simple("1..2").unwrap_err(),
        "Cannot cast '1..2' to simple version: invalid part ''"
    );
    assert_eq!(
        cast_to_simple("1.2.3.99999999999").unwrap_err(),
        "Cannot cast '1.2.3.99999999999' to simple version: invalid part '99999999999'"
    );
    assert_eq!(
        cast_to_simple("1.2.3.post1").unwrap(),
        "1.2.3"
    );
    // a marker in the middle of a word is no boundary
    assert_eq!(
        cast_to_simple("1.2.3xa1").unwrap_err(),
        "Cannot cast '1.2.3xa1' to simple version: invalid part '3xa1'"
    );
}

#[test]
fn cast_to_semver_maps_the_prerelease() {
    assert_eq!(cast_to_semver("1.2.3").unwrap(), "1.2.3");
    assert_eq!(cast_to_semver("1.2").unwrap(), "1.2.0");
    assert_eq!(cast_to_semver("1.2.3a1").unwrap(), "1.2.3-alpha.1");
    assert_eq!(cast_to_semver("1.2.3alpha12").unwrap(), "1.2.3-alpha.12");
    assert_eq!(cast_to_semver("1.2.3b2").unwrap(), "1.2.3-beta.2");
    assert_eq!(cast_to_semver("1.2.3beta2").unwrap(), "1.2.3-beta.2");
    assert_eq!(cast_to_semver("1.2.3rc3").unwrap(), "1.2.3-rc.3");
    assert_eq!(cast_to_semver("1.2.3c3").unwrap(), "1.2.3-rc.3");
    assert_eq!(cast_to_semver("1.2.3preview4").unwrap(), "1.2.3-rc.4");
    assert_eq!(cast_to_semver("1.2.3RC3").unwrap(), "1.2.3-rc.3");
}

#[test]
fn cast_to_semver_defaults_the_number() {
    assert_eq!(cast_to_semver("1.2.3a").unwrap(), "1.2.3-alpha.0");
    assert_eq!(cast_to_semver("1.2.3rc").unwrap(), "1.2.3-rc.0");
    assert_eq!(cast_to_semver("1.2.3a.1").unwrap(), "1.2.3-alpha.0");
    assert_eq!(cast_to_semver("1.2.3a1x").unwrap(), "1.2.3-alpha.1");
    assert_eq!(cast_to_semver("1.2.3a007").unwrap(), "1.2.3-alpha.007");
}

#[test]
fn cast_to_semver_drops_the_rest() {
    assert_eq!(cast_to_semver("1.2.3.post1").unwrap(), "1.2.3");
    assert_eq!(cast_to_semver("1.2.3.dev1").unwrap(), "1.2.3");
    assert_eq!(cast_to_semver("1.2.3a1.post2.dev3").unwrap(), "1.2.3-alpha.1");
    assert_eq!(cast_to_semver("1.2.3b1.dev3").unwrap(), "1.2.3-beta.1");
    assert_eq!(cast_to_semver("2!1.2.3rc1+local").unwrap(), "1.2.3-rc.1");
    assert_eq!(cast_to_semver("1.2.3-alpha.1").unwrap(), "1.2.3");
    assert_eq!(cast_to_semver("1.2.3.4").unwrap(), "1.2.3");
}

#[test]
fn cast_to_semver_names_the_invalid_part() {
    assert_eq!(
        cast_to_semver("1.x").unwrap_err(),
        "Cannot cast '1.x' to semver: invalid part 'x'"
    );
    assert_eq!(
        cast_to_semver("").unwrap_err(),
        "Cannot cast '' to semver: invalid part ''"
    );
}

#[test]
fn cast_version_by_kind() {
    assert_eq!(cast_version("What Ever", FileKind::Any).unwrap(), "What Ever");
    assert_eq!(cast_version("1!1.2.3a1.post1.dev1+local", FileKind::Simple).unwrap(), "1.2.3");
    assert_eq!(cast_version("1.2.3A1", FileKind::Python).unwrap(), "1.2.3A1");
    assert_eq!(cast_version("1.2.3a1", FileKind::Semver).unwrap(), "1.2.3-alpha.1");
    assert!(cast_version("x", FileKind::Simple).is_err());
    assert!(cast_version("x", FileKind::Semver).is_err());
}

#[test]
fn cast_of_a_valid_simple_version_is_the_version() {
    for v in ["1.2.3", "0.0.0", "10.20.30", "007.08.9", "4294967295.0.1"] {
        assert_eq!(cast_to_simple(v).unwrap(), v);
    }
}

#[test]
fn cast_to_simple_yields_three_digit_groups() {
    for v in ["1", "1.2", "1.2.3.4.5", "3!4.5rc1.post2.dev3+x.y", "1.2.3-rc.1", "9.dev"] {
        let cast = cast_to_simple(v).unwrap();
        let groups: Vec<&str> = cast.split('.').collect();
        assert_eq!(groups.len(), 3);
        for g in groups {
            assert!(!g.is_empty() && g.chars().all(|c| c.is_ascii_digit()));
        }
    }
}

#[test]
fn release_end_is_the_earliest_marker() {
    let text = |s: &str| s.chars().collect::<Vec<char>>();
    assert_eq!(find_release_end(&text("1.2.3")), 5);
    assert_eq!(find_release_end(&text("1.2.3a1")), 5);
    assert_eq!(find_release_end(&text("1.2.3.post1")), 5);
    assert_eq!(find_release_end(&text("1.2.3.dev1")), 5);
    assert_eq!(find_release_end(&text("1.2.3-x")), 5);
    assert_eq!(find_release_end(&text("1.2.3rc1.post2")), 5);
    assert_eq!(find_release_end(&text("1.2.3xa1")), 8);
    assert_eq!(find_release_end(&text("")), 0);
    assert_eq!(find_release_end(&text("beta")), 0);
}

#[test]
fn cast_drops_post_and_dev_without_their_dot() {
    assert_eq!(cast_version("1.2.3dev1", FileKind::Simple).unwrap(), "1.2.3");
    assert_eq!(cast_to_simple("1.2.3post1").unwrap(), "1.2.3");
    assert_eq!(cast_to_simple("1.2.3post1dev2").unwrap(), "1.2.3");
    assert_eq!(cast_to_simple("1.2dev").unwrap(), "1.2.0");
    assert_eq!(cast_to_simple("2!1.2.3DEV4+x").unwrap(), "1.2.3");
    assert_eq!(cast_to_semver("1.2.3dev1").unwrap(), "1.2.3");
    assert_eq!(cast_to_semver("1.2.3post1").unwrap(), "1.2.3");
    assert_eq!(cast_to_semver("1.2.3a1post2dev3").unwrap(), "1.2.3-alpha.1");
    assert_eq!(cast_to_semver("1.2.3rcdev3").unwrap(), "1.2.3-rc.0");
    assert_eq!(
        cast_to_simple("1.2.3xdev1").unwrap_err(),
        "Cannot cast '1.2.3xdev1' to simple version: invalid part '3xdev1'"
    );
    let text = |s: &str| s.chars().collect::<Vec<char>>();
    assert_eq!(find_release_end(&text("1.2.3dev1")), 5);
    assert_eq!(find_release_end(&text("1.2.3post1")), 5);
    assert_eq!(find_release_end(&text("1.2.3post1a2")), 5);
}

#[test]
fn cast_never_fails_on_a_numeric_release() {
    let suffixes = [
        "", "a1", "b", "rc2", "alpha3", "beta", "preview4", "c5", ".post1", "post1", ".dev2",
        "dev2", "a1.post2", "a1post2", "rc1.post2.dev3", "rc1post2dev3", "-alpha.1", "-x",
        ".post1dev2", "post1.dev2",
    ];
    for release in ["1", "1.2", "1.2.3", "1.2.3.4", "007.0.4294967295"] {
        for suffix in suffixes {
            for (head, tail) in [("", ""), ("3!", ""), ("", "+local.1"), ("0!", "+x")] {
                let v = format!("{head}{release}{suffix}{tail}");
                let cast = cast_to_simple(&v).unwrap();
                let groups: Vec<&str> = cast.split('.').collect();
                assert_eq!(groups.len(), 3);
                for g in groups {
                    assert!(!g.is_empty() && g.chars().all(|c| c.is_ascii_digit()));
                }
                assert!(cast_to_semver(&v).is_ok());
            }
        }
    }
}
