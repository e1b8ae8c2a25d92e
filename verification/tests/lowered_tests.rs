use bver::bump::{decompose, PrereleaseKind};
use bver::cast::{cast_lowered_to_semver, cast_lowered_to_simple};
use bver::version::validate_lowered_python;

fn text(s: &str) -> Vec<char> {
    s.chars().collect()
}

#[test]
fn decompose_takes_the_text_as_it_is() {
    let p = decompose(&text("1!1.2.3rc4.post5.dev6+l")).unwrap();
    assert_eq!((p.major, p.minor, p.patch), (1, 2, 3));
    assert_eq!(p.prerelease, Some((PrereleaseKind::Rc, 4)));
    assert_eq!((p.post, p.dev), (Some(5), Some(6)));
    // capitals are no markers here
    assert_eq!(decompose(&text("1.2.3RC4")).unwrap_err(), "Invalid patch version: 3RC4");
    assert_eq!(decompose(&text("1.2.3.DEV4")).unwrap().dev, None);
}

#[test]
fn casts_take_the_text_as_it_is() {
    assert_eq!(cast_lowered_to_simple(&text("1!1.2.3a1.post1+l")).unwrap(), "1.2.3");
    assert_eq!(
        cast_lowered_to_simple(&text("1.2.3A1")).unwrap_err(),
        "Cannot cast '1.2.3A1' to simple version: invalid part '3A1'"
    );
    assert_eq!(cast_lowered_to_semver(&text("1.2.3b1.dev2")).unwrap(), "1.2.3-beta.1");
    assert_eq!(
        cast_lowered_to_semver(&text("1.2.3B1")).unwrap_err(),
        "Cannot cast '1.2.3B1' to semver: invalid part '3B1'"
    );
}

#[test]
fn lowered_validation_takes_the_text_as_it_is() {
    assert!(validate_lowered_python(&text("2!1.0rc1.post2.dev3+abc.1")).is_ok());
    assert_eq!(
        validate_lowered_python(&text("1.0RC1")).unwrap_err(),
        "Invalid release version: 1.0RC1"
    );
    assert!(validate_lowered_python(&text("1.0+ABC")).is_ok());
    assert_eq!(validate_lowered_python(&text("")).unwrap_err(), "Version string cannot be empty");
}
