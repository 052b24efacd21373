//! Scans.
use pkgradar::client::ScanResponse;
use pkgradar::cmd::scan::{
    collect, finish, forced_ecosystem, plan, render_text, NoSpecs, ScanArgs,
};
use pkgradar::cmd::{CommonArgs, Line};
use pkgradar::entry::{Ecosystem, LockfileEntry};
use pkgradar::json::{parse_json, JsonValue};

fn args(specs: &[&str]) -> ScanArgs {
    ScanArgs {
        specs: specs.iter().map(|s| s.to_string()).collect(),
        ecosystem: None,
        lockfile: None,
        common: CommonArgs {
            token: "t".to_string(),
            base_url: "https://x".to_string(),
            timeout_ms: None,
            format: "text".to_string(),
            quiet: false,
        },
    }
}

fn reports(texts: &[&str]) -> Vec<JsonValue> {
    texts.iter().map(|t| parse_json(t).unwrap()).collect()
}

fn out(s: &str) -> Line {
    Line::Stdout(s.to_string())
}

#[test]
fn one_request_for_each_ecosystem() {
    let list = vec![LockfileEntry {
        ecosystem: Ecosystem::Npm,
        name: "c".to_string(),
        version: "1".to_string(),
    }];
    let got: Vec<(Ecosystem, Vec<String>)> = plan(&args(&["b==1", "a@1", "a@1", " ", "c@1"]), &list)
        .unwrap()
        .into_iter()
        .map(|b| (b.ecosystem, b.specs))
        .collect();
    assert_eq!(
        got,
        vec![
            (Ecosystem::Npm, vec!["a@1".to_string(), "c@1".to_string()]),
            (Ecosystem::Pypi, vec!["b==1".to_string()]),
        ]
    );
    let many: Vec<String> = (0..60).map(|i| format!("p{i}@1")).collect();
    let names: Vec<&str> = many.iter().map(|s| s.as_str()).collect();
    let whole = plan(&args(&names), &[]).unwrap();
    assert_eq!(whole.len(), 1);
    assert_eq!(whole[0].specs, many);
}

#[test]
fn five_ecosystems_can_be_forced_for_a_scan() {
    for eco in [Ecosystem::Npm, Ecosystem::Pypi, Ecosystem::Rubygems, Ecosystem::Cargo, Ecosystem::Maven] {
        assert_eq!(forced_ecosystem(&Some(eco.as_str().to_string())), Some(eco));
    }
    assert_eq!(forced_ecosystem(&Some("nuget".to_string())), None);
    assert_eq!(forced_ecosystem(&None), None);
    let mut a = args(&["rails@8.0.0"]);
    a.ecosystem = Some("rubygems".to_string());
    assert_eq!(plan(&a, &[]).unwrap()[0].ecosystem, Ecosystem::Rubygems);
}

#[test]
fn reports_are_collected_with_their_ecosystem() {
    let first = collect(
        Vec::new(),
        Ecosystem::Npm,
        ScanResponse { reports: reports(&["{\"target\":\"a@1\"}"]) },
    );
    let all = collect(
        first,
        Ecosystem::Cargo,
        ScanResponse { reports: reports(&["{\"target\":\"b@1\"}", "{\"ecosystem\":\"own\"}"]) },
    );
    let ecosystems: Vec<&str> = all.iter().map(|r| r.str_at("ecosystem").unwrap().as_str()).collect();
    assert_eq!(ecosystems, vec!["npm", "cargo", "own"]);
}

#[test]
fn text_of_reports_and_findings() {
    let list = reports(&[
        "{\"target\":\"a@1\",\"ecosystem\":\"npm\",\"risk\":\"high\",\"score\":70,\"findings\":[{\"kind\":\"eval\",\"detail\":\"d\",\"severity\":\"high\",\"points\":40},{}]}",
        "{}",
    ]);
    assert_eq!(
        render_text(&list, false),
        vec![
            out("[npm ] a@1  risk=high  score=70  findings=2"),
            out("  [high] eval (+40): d"),
            out("  [?] ? (+0): "),
            out("[npm ] <unknown>  risk=unknown  score=0  findings=0"),
        ]
    );
    assert_eq!(
        render_text(&list, true),
        vec![
            out("[npm ] a@1  risk=high  score=70  findings=2"),
            out("[npm ] <unknown>  risk=unknown  score=0  findings=0"),
        ]
    );
}

#[test]
fn six_findings_are_shown() {
    let findings: Vec<String> = (0..9).map(|i| format!("{{\"kind\":\"k{i}\"}}")).collect();
    let text = format!("{{\"findings\":[{}]}}", findings.join(","));
    let lines = render_text(&reports(&[&text]), false);
    assert_eq!(lines.len(), 8);
    assert_eq!(lines[6], out("  [?] k5 (+0): "));
    assert_eq!(lines[7], out("  ... 3 more findings"));
}

#[test]
fn json_of_a_scan_is_the_list_of_reports() {
    let outcome = finish(reports(&["{\"b\":1.50,\"a\":\"x\"}"]), "json", false).unwrap();
    assert_eq!(outcome.code, 0);
    assert_eq!(outcome.lines, vec![out("[\n  {\n    \"a\": \"x\",\n    \"b\": 1.5\n  }\n]")]);
    let text = finish(reports(&["{}"]), "text", true).unwrap();
    assert_eq!(text.code, 0);
    assert_eq!(text.lines, vec![out("[npm ] <unknown>  risk=unknown  score=0  findings=0")]);
}

#[test]
fn scan_without_specs_is_an_error_of_usage() {
    let error = plan(&args(&["", " "]), &[]).unwrap_err();
    assert_eq!(error, NoSpecs);
    assert_eq!(error.exit_code(), 2);
    assert!(error.message().starts_with("no specs provided. Pass --lockfile <path>"));
}
