//! The configuration of a repository.
use pkgradar::config::{config_candidates, resolve_path, RepoConfig};

#[test]
fn empty_config_is_default() {
    let cfg: RepoConfig = RepoConfig::default();
    assert!(cfg.fail_on.is_none());
    assert!(cfg.allowlist.is_empty());
}

#[test]
fn default_config_settles_nothing() {
    let cfg = RepoConfig::default();
    assert!(cfg.fail_on_cve.is_none() && cfg.timeout_ms.is_none() && cfg.fail_open.is_none());
    assert!(cfg.watchlist.is_empty());
}

#[test]
fn path_that_is_given_is_the_only_candidate() {
    assert_eq!(config_candidates(Some("conf/x.yml")), vec!["conf/x.yml"]);
    let there = vec!["conf/x.yml".to_string()];
    assert_eq!(resolve_path(Some("conf/x.yml"), &there), Some("conf/x.yml".to_string()));
    let others = vec![".pkgradar.yml".to_string()];
    assert_eq!(resolve_path(Some("conf/x.yml"), &others), None);
}

#[test]
fn default_names_are_tried_in_order() {
    assert_eq!(config_candidates(None), vec![".pkgradar.yml", ".pkgradar.yaml"]);
    let both = vec![".pkgradar.yaml".to_string(), ".pkgradar.yml".to_string()];
    assert_eq!(resolve_path(None, &both), Some(".pkgradar.yml".to_string()));
    let second = vec![".pkgradar.yaml".to_string()];
    assert_eq!(resolve_path(None, &second), Some(".pkgradar.yaml".to_string()));
    assert_eq!(resolve_path(None, &[]), None);
}
