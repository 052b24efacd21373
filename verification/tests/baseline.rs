//! The difference of a lockfile from a baseline.
use pkgradar::baseline::{baseline_warning, entries_to_gate, new_entries, Baseline};
use pkgradar::entry::{Ecosystem, LockfileEntry};

fn e(eco: Ecosystem, name: &str, ver: &str) -> LockfileEntry {
    LockfileEntry {
        ecosystem: eco,
        name: name.to_string(),
        version: ver.to_string(),
    }
}

#[test]
fn new_entries_returns_added_and_bumped_only() {
    let baseline = vec![e(Ecosystem::Npm, "lodash", "4.17.21"), e(Ecosystem::Npm, "left-pad", "1.3.0")];
    let current = vec![
        e(Ecosystem::Npm, "lodash", "4.17.21"), // unchanged -> skipped
        e(Ecosystem::Npm, "left-pad", "1.3.1"), // bumped -> NEW (new triple)
        e(Ecosystem::Npm, "sharp", "0.33.5"),   // added -> NEW
    ];
    let got: Vec<String> = new_entries(&current, &baseline)
        .iter()
        .map(|x| x.spec())
        .collect();
    assert_eq!(
        got,
        vec!["left-pad@1.3.1".to_string(), "sharp@0.33.5".to_string()]
    );
}

#[test]
fn new_entries_empty_baseline_is_all_new() {
    let current = vec![e(Ecosystem::Npm, "a", "1.0.0"), e(Ecosystem::Pypi, "b", "2.0.0")];
    assert_eq!(new_entries(&current, &[]).len(), 2);
}

#[test]
fn new_entries_removed_pkg_not_returned() {
    let baseline = vec![e(Ecosystem::Npm, "gone", "1.0.0"), e(Ecosystem::Npm, "keep", "1.0.0")];
    let current = vec![e(Ecosystem::Npm, "keep", "1.0.0")]; // removed `gone`, nothing added
    assert!(new_entries(&current, &baseline).is_empty());
}

#[test]
fn same_spec_in_another_ecosystem_is_new() {
    let baseline = vec![e(Ecosystem::Npm, "rand", "0.8.5")];
    let current = vec![e(Ecosystem::Npm, "rand", "0.8.5"), e(Ecosystem::Cargo, "rand", "0.8.5")];
    let got = new_entries(&current, &baseline);
    assert_eq!(got, vec![e(Ecosystem::Cargo, "rand", "0.8.5")]);
}

#[test]
fn same_spec_with_another_cut_is_new() {
    let baseline = vec![e(Ecosystem::Npm, "a", "1@2")];
    let current = vec![e(Ecosystem::Npm, "a@1", "2")];
    assert_eq!(new_entries(&current, &baseline).len(), 1);
}

#[test]
fn nothing_is_added_to_itself() {
    let current = vec![e(Ecosystem::Npm, "b", "1"), e(Ecosystem::Npm, "a", "1")];
    assert!(new_entries(&current, &current).is_empty());
}

#[test]
fn difference_keeps_the_order() {
    let current = vec![
        e(Ecosystem::Npm, "z", "1"),
        e(Ecosystem::Npm, "m", "1"),
        e(Ecosystem::Npm, "a", "1"),
    ];
    let baseline = vec![e(Ecosystem::Npm, "m", "1")];
    let got: Vec<String> = new_entries(&current, &baseline).iter().map(|x| x.spec()).collect();
    assert_eq!(got, vec!["z@1", "a@1"]);
}

fn current() -> Vec<LockfileEntry> {
    vec![e(Ecosystem::Pypi, "a", "1"), e(Ecosystem::Pypi, "b", "2")]
}

#[test]
fn content_at_the_baseline_is_taken_off() {
    let (got, warn) = entries_to_gate(
        "Requirements.txt",
        current(),
        Baseline::Content("a==1\nb==1\n".to_string()),
    );
    assert_eq!(got, vec![e(Ecosystem::Pypi, "b", "2")]);
    assert!(!warn);
}

#[test]
fn baseline_that_cannot_be_used_gates_everything() {
    let (got, warn) = entries_to_gate("requirements.txt", current(), Baseline::Unresolved);
    assert_eq!(got, current());
    assert!(warn);
    let (got, warn) =
        entries_to_gate("poetry.lock", current(), Baseline::Content("= 1".to_string()));
    assert_eq!(got, current());
    assert!(warn);
}

#[test]
fn no_baseline_gates_everything_without_warning() {
    for baseline in [Baseline::Unasked, Baseline::Absent] {
        let (got, warn) = entries_to_gate("requirements.txt", current(), baseline);
        assert_eq!(got, current());
        assert!(!warn);
    }
}

#[test]
fn warning_names_the_lockfile_and_the_ref() {
    assert_eq!(
        baseline_warning("yarn.lock", "main"),
        "pkgradar: warning — can't resolve yarn.lock at baseline main; gating the full lockfile instead."
    );
}
