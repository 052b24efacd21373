//! The configuration that a repository carries in `.pkgradar.yml`.
//!
//! It is read at the start of `gate` and of `scan`, and merged with the flags of the command
//! line, which win. A file that is missing is an empty configuration.
use vstd::prelude::*;

use crate::lists::{holds_text, texts};

verus! {

/// The configuration of a repository.
#[derive(Debug, Clone)]
pub struct RepoConfig {
    /// Block when the risk of a spec is at or above this level. `--fail-on` wins.
    pub fail_on: Option<String>,
    /// Block also on known vulnerabilities at or above this severity (low, moderate, high or
    /// critical). `--fail-on-cve` wins. Where absent, vulnerabilities only inform.
    pub fail_on_cve: Option<String>,
    /// The timeout of a request in milliseconds. `--timeout-ms` wins.
    pub timeout_ms: Option<u64>,
    /// Whether a call that fails, such as for reasons of the network or the transport, lets the build
    /// pass with a warning. By default it does; a rejected token never does.
    pub fail_open: Option<bool>,
    /// Specs that bypass gating.
    pub allowlist: Vec<String>,
    /// Specs that are gated in addition to those of the command line and the lockfile.
    pub watchlist: Vec<String>,
}

impl Default for RepoConfig {
    /// The empty configuration.
    fn default() -> (r: RepoConfig)
        ensures
            r.fail_on is None,
            r.fail_on_cve is None,
            r.timeout_ms is None,
            r.fail_open is None,
            r.allowlist@.len() == 0,
            r.watchlist@.len() == 0,
    {
        RepoConfig {
            fail_on: None,
            fail_on_cve: None,
            timeout_ms: None,
            fail_open: None,
            allowlist: Vec::new(),
            watchlist: Vec::new(),
        }
    }
}

/// The paths at which a configuration may be, in the order in which they are tried: the one that
/// was given, or else the two default names in the current directory.
pub open spec fn candidates(explicit: Option<&str>) -> Seq<Seq<char>> {
    match explicit {
        Some(path) => seq![path@],
        None => seq![".pkgradar.yml"@, ".pkgradar.yaml"@],
    }
}

/// The first of the paths that exists.
pub open spec fn first_existing(paths: Seq<Seq<char>>, existing: Seq<Seq<char>>) -> Option<Seq<char>>
    decreases paths.len(),
{
    if paths.len() == 0 {
        None
    } else if existing.contains(paths[0]) {
        Some(paths[0])
    } else {
        first_existing(paths.drop_first(), existing)
    }
}

/// A configuration that is given is the one that is read, where it exists, and no other is. Without
/// one, `.pkgradar.yml` is, else `.pkgradar.yaml`; without either there is none.
pub proof fn law_given_configuration_is_the_only_one(given: &str, existing: Seq<Seq<char>>)
    ensures
        first_existing(candidates(Some(given)), existing) == if existing.contains(given@) {
            Some(given@)
        } else {
            None
        },
        first_existing(candidates(None), existing) == if existing.contains(".pkgradar.yml"@) {
            Some(".pkgradar.yml"@)
        } else if existing.contains(".pkgradar.yaml"@) {
            Some(".pkgradar.yaml"@)
        } else {
            None
        },
{
    reveal_with_fuel(first_existing, 3);
}

/// The paths at which a configuration may be, in the order in which they are tried.
pub fn config_candidates(explicit: Option<&str>) -> (r: Vec<String>)
    ensures
        texts(r@) == candidates(explicit),
{
    let mut r: Vec<String> = Vec::new();
    match explicit {
        Some(path) => {
            r.push(path.to_owned());
        },
        None => {
            r.push(".pkgradar.yml".to_owned());
            r.push(".pkgradar.yaml".to_owned());
        },
    }
    assert(texts(r@) =~= candidates(explicit));
    r
}

/// The path of the configuration: the one that was given, where it exists; where none was given,
/// the first of the default names that exists in the current directory. `existing` has those of
/// the candidates that exist.
pub fn resolve_path(explicit: Option<&str>, existing: &[String]) -> (r: Option<String>)
    ensures
        match r {
            Some(path) => first_existing(candidates(explicit), texts(existing@)) == Some(path@),
            None => first_existing(candidates(explicit), texts(existing@)) is None,
        },
{
    let paths: Vec<String> = config_candidates(explicit);
    let ghost all = texts(paths@);
    let mut i: usize = 0;
    assert(all.skip(0) =~= all);
    while i < paths.len()
        invariant
            i <= paths.len(),
            all == texts(paths@),
            all == candidates(explicit),
            first_existing(all, texts(existing@)) == first_existing(all.skip(i as int), texts(existing@)),
        decreases paths.len() - i,
    {
        assert(all.skip(i as int)[0] == paths@[i as int]@);
        if holds_text(existing, &paths[i]) {
            return Some(paths[i].clone());
        }
        assert(all.skip(i as int).drop_first() =~= all.skip(i + 1));
        i += 1;
    }
    None
}

} // verus!
