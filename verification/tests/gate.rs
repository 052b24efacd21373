//! Gate runs.
use pkgradar::client::{AuthRejected, BlockedItem, CallError, GateResponse};
use pkgradar::cmd::gate::render::{
    blocked_to_json, finish, render_json, render_text, report_to_decision, start, Start,
};
use pkgradar::cmd::gate::session::GateRun;
use pkgradar::cmd::gate::{
    chosen_lockfiles, forced_ecosystem, plan, settings, GateArgs, GATE_BATCH,
};
use pkgradar::cmd::version;
use pkgradar::cmd::{classify_cli_spec, tag, timeout, CommonArgs, Line};
use pkgradar::config::RepoConfig;
use pkgradar::entry::{Ecosystem, LockfileEntry};
use pkgradar::json::{parse_json, pretty_json, JsonValue};

fn common() -> CommonArgs {
    CommonArgs {
        token: "t".to_string(),
        base_url: "https://x".to_string(),
        timeout_ms: None,
        format: "text".to_string(),
        quiet: false,
    }
}

fn args(specs: &[&str]) -> GateArgs {
    GateArgs {
        specs: specs.iter().map(|s| s.to_string()).collect(),
        ecosystem: None,
        fail_on: None,
        fail_on_cve: None,
        lockfile: None,
        baseline: None,
        config: None,
        no_fail_open: false,
        common: common(),
    }
}

fn answer(allowed: bool, reports: &[&str]) -> GateResponse {
    GateResponse {
        allowed,
        fail_on: "high".to_string(),
        blocked: Vec::new(),
        reports: reports.iter().map(|r| parse_json(r).unwrap()).collect(),
    }
}

fn out(s: &str) -> Line {
    Line::Stdout(s.to_string())
}

fn err(s: &str) -> Line {
    Line::Stderr(s.to_string())
}

fn outage() -> CallError {
    CallError::Transport("down".to_string())
}

/// The batches of a plan, by taking an answer to each.
fn batches(a: &GateArgs, cfg: &RepoConfig, list: &[LockfileEntry]) -> Vec<(Ecosystem, Vec<String>)> {
    let mut run = GateRun::new(plan(a, cfg, list), &settings(a, cfg));
    let mut got = Vec::new();
    loop {
        match run.next() {
            Some(batch) => got.push((batch.ecosystem, batch.specs.clone())),
            None => return got,
        }
        run = run.reply(Ok(answer(true, &[]))).ok().unwrap().0;
    }
}

#[test]
fn flags_win_over_the_configuration() {
    let mut cfg = RepoConfig::default();
    let s = settings(&args(&[]), &cfg);
    assert_eq!(s.fail_on, "high");
    assert_eq!(s.fail_on_cve, None);
    assert_eq!(s.timeout_ms, 60000);
    assert!(s.fail_open);
    cfg.fail_on = Some("review".to_string());
    cfg.fail_on_cve = Some("low".to_string());
    cfg.timeout_ms = Some(30000);
    cfg.fail_open = Some(false);
    let s = settings(&args(&[]), &cfg);
    assert_eq!(s.fail_on, "review");
    assert_eq!(s.fail_on_cve, Some("low".to_string()));
    assert_eq!(s.timeout_ms, 30000);
    assert!(!s.fail_open);
    let mut a = args(&[]);
    a.fail_on = Some("low".to_string());
    a.fail_on_cve = Some("critical".to_string());
    a.common.timeout_ms = Some(60000);
    let s = settings(&a, &cfg);
    assert_eq!(s.fail_on, "low");
    assert_eq!(s.fail_on_cve, Some("critical".to_string()));
    assert_eq!(s.timeout_ms, 60000);
    cfg.fail_open = Some(true);
    assert!(settings(&a, &cfg).fail_open);
    a.no_fail_open = true;
    assert!(!settings(&a, &cfg).fail_open);
}

#[test]
fn timeout_of_flag_then_config_then_default() {
    assert_eq!(timeout(Some(1), Some(2)), 1);
    assert_eq!(timeout(None, Some(2)), 2);
    assert_eq!(timeout(None, None), 60000);
}

#[test]
fn specs_are_classified_by_their_separator() {
    assert_eq!(classify_cli_spec(" requests==2.31.0\n"), (Ecosystem::Pypi, "requests==2.31.0".to_string()));
    assert_eq!(classify_cli_spec("lodash@4.17.21"), (Ecosystem::Npm, "lodash@4.17.21".to_string()));
    assert_eq!(classify_cli_spec("  "), (Ecosystem::Npm, String::new()));
}

#[test]
fn every_ecosystem_can_be_forced() {
    for eco in [
        Ecosystem::Npm,
        Ecosystem::Pypi,
        Ecosystem::Rubygems,
        Ecosystem::Cargo,
        Ecosystem::Maven,
        Ecosystem::Nuget,
        Ecosystem::Composer,
    ] {
        assert_eq!(forced_ecosystem(&Some(eco.as_str().to_string())), Some(eco));
        let mut a = args(&["a==1"]);
        a.ecosystem = Some(eco.as_str().to_string());
        assert_eq!(batches(&a, &RepoConfig::default(), &[]), vec![(eco, vec!["a==1".to_string()])]);
    }
    assert_eq!(forced_ecosystem(&Some("go".to_string())), None);
    assert_eq!(forced_ecosystem(&None), None);
}

#[test]
fn plan_puts_ecosystems_in_order_and_drops_repetitions() {
    let mut cfg = RepoConfig::default();
    cfg.watchlist = vec!["react@18.3.1".to_string(), "b==1".to_string()];
    let list = vec![
        LockfileEntry { ecosystem: Ecosystem::Cargo, name: "serde".to_string(), version: "1".to_string() },
        LockfileEntry { ecosystem: Ecosystem::Npm, name: "lodash".to_string(), version: "4".to_string() },
    ];
    let a = args(&["b==1", "lodash@4", " lodash@4 ", ""]);
    assert_eq!(
        batches(&a, &cfg, &list),
        vec![
            (Ecosystem::Npm, vec!["lodash@4".to_string(), "react@18.3.1".to_string()]),
            (Ecosystem::Pypi, vec!["b==1".to_string()]),
            (Ecosystem::Cargo, vec!["serde@1".to_string()]),
        ]
    );
}

#[test]
fn allowlisted_specs_are_never_sent() {
    let mut cfg = RepoConfig::default();
    cfg.allowlist = vec!["a@1".to_string(), "c==1".to_string()];
    let a = args(&["a@1", "b@1", "a@1", "c==1"]);
    assert_eq!(batches(&a, &cfg, &[]), vec![(Ecosystem::Npm, vec!["b@1".to_string()])]);
    let run = GateRun::new(plan(&a, &cfg, &[]), &settings(&a, &cfg));
    let run = run.reply(Ok(answer(true, &[]))).ok().unwrap().0;
    let outcome = finish(run, "text", false).unwrap();
    assert_eq!(outcome.lines, vec![err(""), err("pkgradar: 0 specs passed (2 skipped via allowlist).")]);
    assert!(plan(&args(&["a@1"]), &cfg, &[]).is_empty());
    assert!(!plan(&a, &cfg, &[]).is_empty());
}

#[test]
fn batches_are_bounded_and_lose_nothing() {
    for n in [0usize, 1, 24, 25, 26, 50, 51, 130] {
        let specs: Vec<String> = (0..n).map(|i| format!("p{i}@1")).collect();
        let names: Vec<&str> = specs.iter().map(|s| s.as_str()).collect();
        let got = batches(&args(&names), &RepoConfig::default(), &[]);
        assert!(got.iter().all(|(_, b)| !b.is_empty() && b.len() <= GATE_BATCH));
        let joined: Vec<String> = got.into_iter().flat_map(|(_, b)| b).collect();
        assert_eq!(joined, specs);
    }
    assert_eq!(GATE_BATCH, 25);
}

#[test]
fn lockfiles_are_found_only_for_a_baseline() {
    let files = vec!["README.md".to_string(), "Cargo.lock".to_string(), "yarn.lock".to_string()];
    let mut a = args(&[]);
    assert!(chosen_lockfiles(&a, &files).is_empty());
    a.baseline = Some("main".to_string());
    assert_eq!(chosen_lockfiles(&a, &files), vec!["Cargo.lock", "yarn.lock"]);
    a.lockfile = Some("sub/poetry.lock".to_string());
    assert_eq!(chosen_lockfiles(&a, &files), vec!["sub/poetry.lock"]);
}

fn two_batches(no_fail_open: bool) -> GateRun {
    let mut a = args(&["a@1", "b==1"]);
    a.no_fail_open = no_fail_open;
    let cfg = RepoConfig::default();
    GateRun::new(plan(&a, &cfg, &[]), &settings(&a, &cfg))
}

#[test]
fn one_blocked_batch_blocks_the_run() {
    for (first, second, code) in [(true, true, 0), (true, false, 1), (false, true, 1), (false, false, 1)] {
        let run = two_batches(false);
        let run = run.reply(Ok(answer(first, &[]))).ok().unwrap().0;
        let run = run.reply(Ok(answer(second, &[]))).ok().unwrap().0;
        assert!(run.next().is_none());
        assert_eq!(finish(run, "text", true).unwrap().code, code);
    }
}

#[test]
fn outage_is_skipped_with_a_warning() {
    let (run, line) = two_batches(false).reply(Err(outage())).ok().unwrap();
    assert_eq!(
        line,
        Some(err("pkgradar: gate API call for npm (batch of 1) failed (down); fail-open enabled, skipping this batch. Other batches still gate. Set `fail_open: false` in .pkgradar.yml or pass --no-fail-open to harden."))
    );
    let (run, line) = run.reply(Ok(answer(true, &[]))).ok().unwrap();
    assert_eq!(line, None);
    let outcome = finish(run, "text", false).unwrap();
    assert_eq!(outcome.code, 0);
    assert_eq!(
        outcome.lines,
        vec![
            err("pkgradar: warning — 1 spec(s) were not checked (fail-open); results below are partial."),
            err(""),
            err("pkgradar: 0 specs passed."),
        ]
    );
}

#[test]
fn blocked_after_an_outage_still_blocks() {
    let run = two_batches(false).reply(Err(outage())).ok().unwrap().0;
    let run = run.reply(Ok(answer(false, &[]))).ok().unwrap().0;
    assert_eq!(finish(run, "text", true).unwrap().code, 1);
}

#[test]
fn hardened_run_ends_with_an_outage() {
    let error = two_batches(true).reply(Err(outage())).err().unwrap();
    assert_eq!(error.exit_code(), 3);
}

#[test]
fn rejected_token_never_fails_open() {
    let error = two_batches(false).reply(Err(CallError::Auth(AuthRejected))).err().unwrap();
    assert!(matches!(error, CallError::Auth(_)));
    for skipped in [
        CallError::Status(413, "413 Payload Too Large".to_string(), String::new()),
        CallError::Status(429, "429 Too Many Requests".to_string(), String::new()),
        CallError::Status(502, "502 Bad Gateway".to_string(), String::new()),
        CallError::Malformed("x".to_string()),
    ] {
        let (run, line) = two_batches(false).reply(Err(skipped)).ok().unwrap();
        assert!(line.is_some());
        let run = run.reply(Ok(answer(true, &[]))).ok().unwrap().0;
        assert_eq!(finish(run, "text", true).unwrap().code, 0);
    }
    let malformed = CallError::Malformed("x".to_string());
    assert_eq!(two_batches(true).reply(Err(malformed)).err().unwrap().exit_code(), 3);
}

#[test]
fn reports_are_tagged_with_their_ecosystem() {
    let tagged = tag(parse_json("{\"target\":\"a@1\"}").unwrap(), Ecosystem::Pypi);
    assert_eq!(tagged.str_at("ecosystem").map(|s| s.as_str()), Some("pypi"));
    assert_eq!(tagged.str_at("target").map(|s| s.as_str()), Some("a@1"));
    let kept = tag(parse_json("{\"ecosystem\":\"npm\"}").unwrap(), Ecosystem::Pypi);
    assert_eq!(kept.str_at("ecosystem").map(|s| s.as_str()), Some("npm"));
    let null = tag(parse_json("{\"ecosystem\":null}").unwrap(), Ecosystem::Pypi);
    assert!(matches!(null.get("ecosystem"), Some(JsonValue::Null)));
    let list = tag(parse_json("[1]").unwrap(), Ecosystem::Pypi);
    assert_eq!(list.as_array().map(|l| l.len()), Some(1));
}

#[test]
fn answers_are_merged_in_order() {
    let mut first = answer(false, &["{\"target\":\"a@1\",\"score\":9}"]);
    first.blocked.push(BlockedItem {
        target: "a@1".to_string(),
        risk: "high".to_string(),
        score: Some(9),
        summary: Some("bad".to_string()),
    });
    let mut second = answer(true, &["{\"target\":\"b==1\"}"]);
    second.fail_on = "low".to_string();
    let run = two_batches(false).reply(Ok(first)).ok().unwrap().0;
    let run = run.reply(Ok(second)).ok().unwrap().0;
    let outcome = finish(run, "json", true).unwrap();
    assert_eq!(outcome.code, 1);
    let expected = r#"{
  "allowed": false,
  "blocked": [
    {
      "risk": "high",
      "score": 9,
      "summary": "bad",
      "target": "a@1"
    }
  ],
  "decisions": [
    {
      "ecosystem": "npm",
      "risk": null,
      "score": 9,
      "target": "a@1"
    },
    {
      "ecosystem": "pypi",
      "risk": null,
      "score": null,
      "target": "b==1"
    }
  ],
  "fail_on": "low"
}"#;
    assert_eq!(outcome.lines, vec![out(expected)]);
}

#[test]
fn json_of_a_blocked_item_and_a_decision() {
    let item = BlockedItem {
        target: "a@1".to_string(),
        risk: "high".to_string(),
        score: None,
        summary: None,
    };
    assert_eq!(
        pretty_json(&blocked_to_json(&item)).unwrap(),
        "{\n  \"risk\": \"high\",\n  \"score\": null,\n  \"summary\": null,\n  \"target\": \"a@1\"\n}"
    );
    let report = parse_json("{\"target\":1,\"ecosystem\":\"npm\",\"risk\":\"low\",\"score\":-3}").unwrap();
    assert_eq!(
        pretty_json(&report_to_decision(&report)).unwrap(),
        "{\n  \"ecosystem\": \"npm\",\n  \"risk\": \"low\",\n  \"score\": null,\n  \"target\": null\n}"
    );
    assert_eq!(
        pretty_json(&render_json(&answer(true, &[]))).unwrap(),
        "{\n  \"allowed\": true,\n  \"blocked\": [],\n  \"decisions\": [],\n  \"fail_on\": \"high\"\n}"
    );
}

#[test]
fn text_of_passing_and_blocked_reports() {
    let mut response = answer(
        false,
        &[
            "{\"target\":\"a@1\",\"ecosystem\":\"npm\",\"risk\":\"high\",\"score\":90}",
            "{\"target\":\"b@1\",\"ecosystem\":\"rubygems\",\"risk\":\"low\",\"score\":3,\"advisories\":[{\"id\":\"CVE-1\"},{}]}",
            "{}",
        ],
    );
    response.blocked.push(BlockedItem {
        target: "a@1".to_string(),
        risk: "high".to_string(),
        score: Some(90),
        summary: Some("typosquat".to_string()),
    });
    response.blocked.push(BlockedItem {
        target: "z@1".to_string(),
        risk: "high".to_string(),
        score: None,
        summary: None,
    });
    let a = format!("BLOCK [npm ] {:<48} risk=high    score=90", "a@1");
    let b = format!("PASS  [rubygems] {:<48} risk=low     score=3", "b@1");
    let c = format!("PASS  [npm ] {:<48} risk=unknown score=0", "<unknown>");
    let cve = "      \u{26a0} 2 known CVE advisory(ies) — not blocking: CVE-1";
    assert_eq!(
        render_text(&response, false, 0),
        vec![
            out(&a),
            out(&b),
            out(cve),
            out(&c),
            out("      a@1: typosquat"),
            err(""),
            err("pkgradar: gate blocked 2 of 3 (fail_on=high)."),
        ]
    );
    assert_eq!(
        render_text(&response, true, 0),
        vec![
            out(&a),
            out(cve),
            out("      a@1: typosquat"),
            err(""),
            err("pkgradar: gate blocked 2 of 3 (fail_on=high)."),
        ]
    );
}

#[test]
fn five_advisories_are_shown() {
    let report = |n: usize| {
        let ids: Vec<String> = (0..n).map(|i| format!("{{\"id\":\"C{i}\"}}")).collect();
        format!("{{\"target\":\"a@1\",\"advisories\":[{}]}}", ids.join(","))
    };
    let five = render_text(&answer(true, &[&report(5)]), true, 0);
    assert_eq!(five, vec![out("      \u{26a0} 5 known CVE advisory(ies) — not blocking: C0, C1, C2, C3, C4")]);
    let eight = render_text(&answer(true, &[&report(8)]), true, 0);
    assert_eq!(eight, vec![out("      \u{26a0} 8 known CVE advisory(ies) — not blocking: C0, C1, C2, C3, C4 (+3 more)")]);
    assert!(render_text(&answer(true, &[&report(0)]), true, 0).is_empty());
}

#[test]
fn nothing_to_gate_passes() {
    let a = args(&["", " "]);
    let cfg = RepoConfig::default();
    for quiet in [false, true] {
        match start(plan(&a, &cfg, &[]), &settings(&a, &cfg), quiet) {
            Start::Over(outcome) => {
                assert_eq!(outcome.code, 0);
                let line = err("pkgradar: nothing to gate (no specs provided and lockfile/allowlist filtered everything).");
                assert_eq!(outcome.lines, if quiet { vec![] } else { vec![line] });
            }
            Start::Running(_) => panic!("there is nothing to run"),
        }
    }
    let a = args(&["a@1"]);
    match start(plan(&a, &cfg, &[]), &settings(&a, &cfg), false) {
        Start::Over(_) => panic!("there is something to run"),
        Start::Running(run) => assert_eq!(run.next().unwrap().specs, vec!["a@1"]),
    }
}

#[test]
fn version_prints_two_lines() {
    let outcome = version::run(None);
    assert_eq!(outcome.lines, vec![out("pkgradar 0.1.0"), out("api: https://pkgradar.com")]);
    assert_eq!(outcome.code, 0);
    assert_eq!(version::run(Some("https://own".to_string())).lines[1], out("api: https://own"));
}
