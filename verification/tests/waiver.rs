//! Waivers: name patterns, version ranges and gate targets.
use pkgradar::entry::{Ecosystem, LockfileEntry};
use pkgradar::waiver::{covered, name_glob_matches, split_target, version_matches};
use semver::VersionReq;

#[test]
fn name_glob() {
    assert!(name_glob_matches("sharp", "sharp"));
    assert!(!name_glob_matches("sharp", "sharpie"));
    assert!(name_glob_matches("sharp*", "sharp-darwin-arm64"));
    assert!(name_glob_matches("*-darwin-*", "sharp-darwin-arm64"));
    assert!(name_glob_matches("@scope/*", "@scope/pkg"));
    assert!(name_glob_matches("*", "anything"));
    assert!(name_glob_matches("a*c", "abc"));
    assert!(!name_glob_matches("a*c", "abd"));
    assert!(!name_glob_matches("a*a", "a")); // needs >= "aa"
}

#[test]
fn version_match() {
    let req = VersionReq::parse(">=0.33.0, <0.34.0").unwrap();
    assert!(version_matches(&req, "0.33.5"));
    assert!(!version_matches(&req, "0.34.0"));
    assert!(!version_matches(&req, "0.32.9"));
    let caret = VersionReq::parse("^0.33").unwrap();
    assert!(version_matches(&caret, "0.33.9"));
    assert!(!version_matches(&caret, "0.34.0"));
    let r2 = VersionReq::parse(">=0.10.0").unwrap();
    assert!(!version_matches(&r2, "0.9.0"));
    assert!(version_matches(&r2, "0.10.0"));
    assert!(!version_matches(&req, "not-a-version"));
}

#[test]
fn split_target_parses_name_and_version() {
    assert_eq!(split_target("sharp@0.33.5"), ("sharp", "0.33.5"));
    assert_eq!(split_target("@scope/pkg@1.2.3"), ("@scope/pkg", "1.2.3"));
    assert_eq!(split_target("flask==2.0.0"), ("flask", "2.0.0"));
    assert_eq!(
        split_target("group:artifact@1.0"),
        ("group:artifact", "1.0")
    );
    assert_eq!(split_target("noversion"), ("noversion", ""));
}

#[test]
fn glob_segments_stand_in_order() {
    assert!(name_glob_matches("a*b*c", "a1b2c"));
    assert!(!name_glob_matches("a*b*c", "a1c2b"));
    assert!(name_glob_matches("**", ""));
    assert!(name_glob_matches("", ""));
    assert!(!name_glob_matches("", "x"));
    assert!(!name_glob_matches("ab*bc", "abc"));
    assert!(name_glob_matches("\u{e9}*", "\u{e9}t\u{e9}"));
}

#[test]
fn star_matches_every_name() {
    for name in ["", "a", "@scope/pkg", "*"] {
        assert!(name_glob_matches("*", name));
    }
}

#[test]
fn what_cannot_be_checked_is_not_waived() {
    assert!(covered(Some(true)));
    assert!(!covered(Some(false)));
    assert!(!covered(None));
    let any = VersionReq::parse("*").unwrap();
    assert!(version_matches(&any, "1.2.3"));
    assert!(!version_matches(&any, "1.2"));
    assert!(!version_matches(&any, ""));
}

#[test]
fn split_undoes_spec() {
    for (ecosystem, name, version) in [
        (Ecosystem::Npm, "@scope/pkg", "1.2.3"),
        (Ecosystem::Pypi, "zope-interface", "6.0"),
        (Ecosystem::Maven, "g:a", "1.0"),
        (Ecosystem::Composer, "symfony/console", "v6.4.1"),
    ] {
        let entry = LockfileEntry {
            ecosystem,
            name: name.to_string(),
            version: version.to_string(),
        };
        assert_eq!(split_target(&entry.spec()), (name, version));
    }
}
