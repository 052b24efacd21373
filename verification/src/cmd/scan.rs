//! `pkgradar scan`: fetches the full reports about package versions.
use vstd::hash_set::StringHashSet;
use vstd::prelude::*;
use vstd::string::StringExecFns;

use crate::client::{ScanResponse, EXIT_CONFIG};
use crate::cmd::gate::render::{number_or_zero, str_or, target_of, text_or, u64_or_zero};
use crate::cmd::gate::{asks, batches, law_label_names_ecosystem, Batch};
use crate::cmd::{
    add_cli_specs, add_entries, add_reports, all_tagged, candidates, cli_spec, cli_specs, ecosystem_at, entry_specs,
    law_picked_are_the_kept_candidates, law_picked_once, nth_ecosystem, pick, picked, printed, push_line, CommonArgs, Line, Outcome, Printed, ECOSYSTEMS,
};
use crate::entry::{entries, Ecosystem, Entry, LockfileEntry};
use crate::json::{json_pretty, json_views, pretty_json, Json, JsonValue};
use crate::lists::texts;
use crate::text::{chars_of, decimal, decimal_of, equals, pad_right, pad_to, same_text, trim};

verus! {

/// What `scan` takes.
#[derive(Debug)]
pub struct ScanArgs {
    /// Package specs: `name@version`, or `name==version` for PyPI.
    pub specs: Vec<String>,
    /// The ecosystem of the specs, where it is forced.
    pub ecosystem: Option<String>,
    /// The path of a lockfile whose entries are scanned.
    pub lockfile: Option<String>,
    pub common: CommonArgs,
}

/// The message where no spec is given.
pub const NO_SPECS: &'static str =
    "no specs provided. Pass --lockfile <path> or one or more `name@version` / `name==version` args.";

/// No spec is given.
#[derive(Debug, Clone, Copy, PartialEq, Eq, Structural)]
pub struct NoSpecs;

impl NoSpecs {
    /// The message for the user.
    pub fn message(self) -> (r: &'static str)
        ensures
            r@ == NO_SPECS@,
    {
        NO_SPECS
    }

    /// The exit code of a run that ends with the error.
    pub fn exit_code(self) -> (r: i32)
        ensures
            r == EXIT_CONFIG,
    {
        EXIT_CONFIG
    }
}

// ---------------------------------------------------------------------------
// The plan
// ---------------------------------------------------------------------------

/// The ecosystem that `--ecosystem` forces.
pub open spec fn scan_forced(flag: Option<String>) -> Option<Ecosystem> {
    match flag {
        Some(name) => if name@ == "npm"@ {
            Some(Ecosystem::Npm)
        } else if name@ == "pypi"@ {
            Some(Ecosystem::Pypi)
        } else if name@ == "rubygems"@ {
            Some(Ecosystem::Rubygems)
        } else if name@ == "cargo"@ {
            Some(Ecosystem::Cargo)
        } else if name@ == "maven"@ {
            Some(Ecosystem::Maven)
        } else {
            None
        },
        None => None,
    }
}

/// The ecosystem that `--ecosystem` forces.
pub fn forced_ecosystem(flag: &Option<String>) -> (r: Option<Ecosystem>)
    ensures
        r == scan_forced(*flag),
{
    let name: Vec<char> = match flag {
        Some(name) => chars_of(name.as_str()),
        None => {
            return None;
        },
    };
    let n: &[char] = name.as_slice();
    if equals(n, "npm") {
        Some(Ecosystem::Npm)
    } else if equals(n, "pypi") {
        Some(Ecosystem::Pypi)
    } else if equals(n, "rubygems") {
        Some(Ecosystem::Rubygems)
    } else if equals(n, "cargo") {
        Some(Ecosystem::Cargo)
    } else if equals(n, "maven") {
        Some(Ecosystem::Maven)
    } else {
        None
    }
}

/// Everything that is scanned: the specs of the command line, then the entries of the lockfile.
pub open spec fn scan_candidates(args: ScanArgs, list: Seq<Entry>) -> Seq<(Ecosystem, Seq<char>)> {
    cli_specs(texts(args.specs@), scan_forced(args.ecosystem)) + entry_specs(list)
}

/// The specs of one ecosystem, each once.
pub open spec fn scanned(all: Seq<(Ecosystem, Seq<char>)>, ecosystem: Ecosystem) -> Seq<Seq<char>> {
    picked(all, ecosystem, |s: Seq<char>| true)
}

/// The requests about the first `n` ecosystems: one for each that has specs, with all of them.
pub open spec fn scans(all: Seq<(Ecosystem, Seq<char>)>, n: nat) -> Seq<(Ecosystem, Seq<Seq<char>>)>
    decreases n,
{
    if n == 0 {
        Seq::empty()
    } else {
        let before = scans(all, (n - 1) as nat);
        let specs = scanned(all, ecosystem_at(n - 1));
        if specs.len() == 0 {
            before
        } else {
            before.push((ecosystem_at(n - 1), specs))
        }
    }
}

/// Every candidate is scanned: there is a request about its ecosystem that has it.
pub proof fn law_every_candidate_is_scanned(
    all: Seq<(Ecosystem, Seq<char>)>,
    ecosystem: Ecosystem,
    s: Seq<char>,
)
    requires
        all.contains((ecosystem, s)),
        s.len() > 0,
    ensures
        exists|i: int|
            0 <= i < scans(all, 7).len() && (#[trigger] scans(all, 7)[i]).0 == ecosystem && scans(
                all,
                7,
            )[i].1.contains(s),
{
    law_picked_are_the_kept_candidates(all, ecosystem, |x: Seq<char>| true, s);
    let place = ecosystem.rank() as int;
    assert(ecosystem_at(place) == ecosystem);
    let i = scans(all, place as nat).len() as int;
    let next = scans(all, (place + 1) as nat);
    assert(next[i] == (ecosystem, scanned(all, ecosystem)));
    lemma_scans_grow(all, (place + 1) as nat, 7);
    assert(scans(all, 7)[i].1.contains(s));
}

/// The requests about the first ecosystems come first.
proof fn lemma_scans_grow(all: Seq<(Ecosystem, Seq<char>)>, m: nat, n: nat)
    requires
        m <= n,
    ensures
        scans(all, m).len() <= scans(all, n).len(),
        forall|i: int| 0 <= i < scans(all, m).len() ==> #[trigger] scans(all, n)[i] == scans(all, m)[i],
    decreases n,
{
    if m < n {
        lemma_scans_grow(all, m, (n - 1) as nat);
        assert forall|i: int| 0 <= i < scans(all, m).len() implies #[trigger] scans(all, n)[i] == scans(
            all,
            m,
        )[i] by {
            assert(scans(all, n)[i] == scans(all, (n - 1) as nat)[i]);
        }
    }
}

/// Everything that is given is scanned, whatever else is given or not, and nothing else is: a
/// request has a spec if and only if it is not empty and is an entry of the lockfile or a spec of
/// the command line.
pub proof fn law_everything_given_is_scanned(
    args: ScanArgs,
    list: Seq<Entry>,
    ecosystem: Ecosystem,
    s: Seq<char>,
)
    ensures
        scan_candidates(args, list).contains((ecosystem, s)) <==> {
            ||| exists|k: int|
                0 <= k < list.len() && (#[trigger] list[k]).ecosystem == ecosystem && list[k].spec_text() == s
            ||| exists|k: int|
                0 <= k < args.specs@.len() && cli_spec((#[trigger] args.specs@[k])@, scan_forced(args.ecosystem))
                    == (ecosystem, s)
        },
        asks(scans(scan_candidates(args, list), 7), ecosystem, s) <==> s.len() > 0 && scan_candidates(
            args,
            list,
        ).contains((ecosystem, s)),
{
    let all = scan_candidates(args, list);
    let given = args.specs@.len();
    assert forall|k: int| 0 <= k < list.len() implies all.contains(
        ((#[trigger] list[k]).ecosystem, list[k].spec_text()),
    ) by {
        assert(all[given + k] == (list[k].ecosystem, list[k].spec_text()));
    }
    assert forall|k: int| 0 <= k < given implies all.contains(
        cli_spec((#[trigger] args.specs@[k])@, scan_forced(args.ecosystem)),
    ) by {
        assert(all[k] == cli_spec(args.specs@[k]@, scan_forced(args.ecosystem)));
    }
    if all.contains((ecosystem, s)) {
        let i = choose|i: int| 0 <= i < all.len() && all[i] == (ecosystem, s);
        if i < given {
            assert(cli_spec(args.specs@[i]@, scan_forced(args.ecosystem)) == (ecosystem, s));
        } else {
            assert(list[i - given].spec_text() == s);
        }
        if s.len() > 0 {
            law_every_candidate_is_scanned(all, ecosystem, s);
        }
    }
    let requests = scans(all, 7);
    if asks(requests, ecosystem, s) {
        let i = choose|i: int|
            0 <= i < requests.len() && (#[trigger] requests[i]).0 == ecosystem && requests[i].1.contains(s);
        lemma_scan_of(all, 7, i);
        law_picked_are_the_kept_candidates(all, ecosystem, |x: Seq<char>| true, s);
    }
}

/// A request has the specs of its ecosystem, and has some.
proof fn lemma_scan_of(all: Seq<(Ecosystem, Seq<char>)>, n: nat, i: int)
    requires
        0 <= i < scans(all, n).len(),
    ensures
        scans(all, n)[i].1 == scanned(all, scans(all, n)[i].0),
        scans(all, n)[i].1.len() > 0,
    decreases n,
{
    let before = scans(all, (n - 1) as nat);
    if i < before.len() {
        lemma_scan_of(all, (n - 1) as nat, i);
        assert(scans(all, n)[i] == before[i]);
    }
}

/// There is something to scan if and only if the lockfile has an entry or the command line has a
/// spec that is more than white space; it is an error only where there is neither.
pub proof fn law_nothing_to_scan_iff_nothing_is_given(args: ScanArgs, list: Seq<Entry>)
    ensures
        scans(scan_candidates(args, list), 7).len() == 0 <==> list.len() == 0 && forall|k: int|
            0 <= k < args.specs@.len() ==> trim((#[trigger] args.specs@[k])@).len() == 0,
{
    let all = scan_candidates(args, list);
    let requests = scans(all, 7);
    if list.len() > 0 {
        reveal_strlit("==");
        reveal_strlit("@");
        assert(list[0].spec_text().len() > 0);
        law_everything_given_is_scanned(args, list, list[0].ecosystem, list[0].spec_text());
    }
    if exists|k: int| 0 <= k < args.specs@.len() && trim((#[trigger] args.specs@[k])@).len() > 0 {
        let k = choose|k: int| 0 <= k < args.specs@.len() && trim((#[trigger] args.specs@[k])@).len() > 0;
        let c = cli_spec(args.specs@[k]@, scan_forced(args.ecosystem));
        law_everything_given_is_scanned(args, list, c.0, c.1);
    }
    if requests.len() > 0 {
        lemma_scan_of(all, 7, 0);
        let e = requests[0].0;
        let s = requests[0].1[0];
        assert(requests[0].1.contains(s));
        assert(asks(requests, e, s));
        law_everything_given_is_scanned(args, list, e, s);
    }
}

/// Each ecosystem is asked about at most once, and each of its specs stands once in its request.
pub proof fn law_no_spec_is_scanned_twice(all: Seq<(Ecosystem, Seq<char>)>, i: int, j: int)
    requires
        0 <= i < scans(all, 7).len(),
        0 <= j < scans(all, 7).len(),
    ensures
        scans(all, 7)[i].1.no_duplicates(),
        i != j ==> scans(all, 7)[i].0 != scans(all, 7)[j].0,
{
    lemma_scan_of(all, 7, i);
    law_picked_once(all, scans(all, 7)[i].0, |s: Seq<char>| true);
    lemma_scans_by_rank(all, 7);
}

/// The requests stand in the order of their ecosystems.
proof fn lemma_scans_by_rank(all: Seq<(Ecosystem, Seq<char>)>, n: nat)
    requires
        n <= 7,
    ensures
        forall|i: int| 0 <= i < scans(all, n).len() ==> (#[trigger] scans(all, n)[i]).0.rank() < n,
        forall|i: int, j: int|
            0 <= i < j < scans(all, n).len() ==> (#[trigger] scans(all, n)[i]).0.rank() < (#[trigger] scans(
                all,
                n,
            )[j]).0.rank(),
    decreases n,
{
    if n > 0 {
        lemma_scans_by_rank(all, (n - 1) as nat);
        assert(ecosystem_at(n - 1).rank() == n - 1);
        let before = scans(all, (n - 1) as nat);
        let now = scans(all, n);
        assert(forall|i: int| 0 <= i < before.len() ==> #[trigger] now[i] == before[i]);
    }
}

/// `--ecosystem` forces the five ecosystems that it names by their label; any other name, or
/// none, leaves each spec to be told by its separator.
pub proof fn law_scan_is_forced_by_a_label_alone(name: String, ecosystem: Ecosystem)
    ensures
        scan_forced(Some(name)) == Some(ecosystem) <==> name@ == ecosystem.label() && !(ecosystem is Nuget
            || ecosystem is Composer),
        scan_forced(None) is None,
{
    law_label_names_ecosystem(ecosystem);
    law_label_names_ecosystem(Ecosystem::Npm);
    law_label_names_ecosystem(Ecosystem::Pypi);
    law_label_names_ecosystem(Ecosystem::Rubygems);
    law_label_names_ecosystem(Ecosystem::Cargo);
    law_label_names_ecosystem(Ecosystem::Maven);
}

/// Plans the requests of a scan: one for each ecosystem that has specs. It is an error to have no
/// spec at all.
pub fn plan(args: &ScanArgs, list: &[LockfileEntry]) -> (r: Result<Vec<Batch>, NoSpecs>)
    ensures
        match r {
            Ok(requests) => {
                &&& batches(requests@) == scans(scan_candidates(*args, entries(list@)), 7)
                &&& requests@.len() > 0
            },
            Err(_) => scans(scan_candidates(*args, entries(list@)), 7).len() == 0,
        },
{
    let mut all: Vec<(Ecosystem, String)> = Vec::new();
    assert(candidates(all@) =~= Seq::empty());
    add_cli_specs(&mut all, args.specs.as_slice(), forced_ecosystem(&args.ecosystem));
    add_entries(&mut all, list);
    let ghost c = scan_candidates(*args, entries(list@));
    assert(candidates(all@) =~= c);
    let none: StringHashSet = StringHashSet::new();
    assert((|s: Seq<char>| none@.contains(s) == false) =~= (|s: Seq<char>| true));
    let mut out: Vec<Batch> = Vec::new();
    let mut i: usize = 0;
    assert(batches(out@) =~= Seq::empty());
    while i < ECOSYSTEMS
        invariant
            i <= 7,
            c == candidates(all@),
            (|s: Seq<char>| none@.contains(s) == false) == (|s: Seq<char>| true),
            batches(out@) == scans(c, i as nat),
        decreases 7 - i,
    {
        let ecosystem: Ecosystem = nth_ecosystem(i);
        let specs: Vec<String> = pick(all.as_slice(), ecosystem, &none, false);
        assert(texts(specs@).len() == specs@.len());
        if specs.len() > 0 {
            let ghost before = batches(out@);
            let next: Batch = Batch { ecosystem, specs };
            let ghost view = next@;
            out.push(next);
            assert(batches(out@) =~= before.push(view));
        }
        i += 1;
    }
    assert(batches(out@).len() == out@.len());
    if out.len() == 0 {
        Err(NoSpecs)
    } else {
        Ok(out)
    }
}

/// Adds what one request brought.
pub fn collect(reports: Vec<JsonValue>, ecosystem: Ecosystem, response: ScanResponse) -> (r: Vec<JsonValue>)
    ensures
        json_views(r@) == json_views(reports@) + all_tagged(json_views(response.reports@), ecosystem),
{
    let mut out: Vec<JsonValue> = reports;
    add_reports(&mut out, response.reports, ecosystem);
    out
}

// ---------------------------------------------------------------------------
// Output
// ---------------------------------------------------------------------------

/// The findings of a report.
pub open spec fn findings_of(report: Json) -> Seq<Json> {
    match report.field_items("findings"@) {
        Some(items) => items,
        None => Seq::empty(),
    }
}

/// The line of a report.
pub open spec fn scan_line(report: Json) -> Seq<char> {
    "["@ + pad_right(text_or(report.field_text("ecosystem"@), "npm"@), 4) + "] "@ + target_of(report) + "  risk="@
        + text_or(report.field_text("risk"@), "unknown"@) + "  score="@ + decimal(
        number_or_zero(report.field_natural("score"@)),
    ) + "  findings="@ + decimal(findings_of(report).len())
}

/// The line of a finding.
pub open spec fn finding_line(finding: Json) -> Seq<char> {
    "  ["@ + text_or(finding.field_text("severity"@), "?"@) + "] "@ + text_or(
        finding.field_text("kind"@),
        "?"@,
    ) + " (+"@ + decimal(number_or_zero(finding.field_natural("points"@))) + "): "@ + text_or(
        finding.field_text("detail"@),
        ""@,
    )
}

/// The lines of the first six findings, and how many more there are.
pub open spec fn finding_lines(findings: Seq<Json>) -> Seq<Printed> {
    if findings.len() > 6 {
        Seq::new(6, |i: int| Printed::Stdout(finding_line(findings[i]))).push(
            Printed::Stdout("  ... "@ + decimal((findings.len() - 6) as nat) + " more findings"@),
        )
    } else {
        Seq::new(findings.len(), |i: int| Printed::Stdout(finding_line(findings[i])))
    }
}

/// The lines of a report; a quiet run leaves the findings out.
pub open spec fn scan_lines(report: Json, quiet: bool) -> Seq<Printed> {
    seq![Printed::Stdout(scan_line(report))] + if quiet {
        Seq::empty()
    } else {
        finding_lines(findings_of(report))
    }
}

/// The lines of all reports.
pub open spec fn scan_text(reports: Seq<Json>, quiet: bool) -> Seq<Printed>
    decreases reports.len(),
{
    if reports.len() == 0 {
        Seq::empty()
    } else {
        scan_text(reports.drop_last(), quiet) + scan_lines(reports.last(), quiet)
    }
}

/// The line of a report.
fn line_of_report(report: &JsonValue) -> (r: String)
    ensures
        r@ == scan_line(report@),
{
    let count: usize = match report.array_at("findings") {
        Some(items) => items.len(),
        None => 0,
    };
    let mut r: String = "[".to_owned();
    r.append(pad_to(str_or(report, "ecosystem", "npm").as_str(), 4).as_str());
    r.append("] ");
    r.append(str_or(report, "target", "<unknown>").as_str());
    r.append("  risk=");
    r.append(str_or(report, "risk", "unknown").as_str());
    r.append("  score=");
    r.append(decimal_of(u64_or_zero(report, "score")).as_str());
    r.append("  findings=");
    r.append(decimal_of(count as u64).as_str());
    r
}

/// The line of a finding.
fn line_of_finding(finding: &JsonValue) -> (r: String)
    ensures
        r@ == finding_line(finding@),
{
    let mut r: String = "  [".to_owned();
    r.append(str_or(finding, "severity", "?").as_str());
    r.append("] ");
    r.append(str_or(finding, "kind", "?").as_str());
    r.append(" (+");
    r.append(decimal_of(u64_or_zero(finding, "points")).as_str());
    r.append("): ");
    r.append(str_or(finding, "detail", "").as_str());
    r
}

/// Adds the lines of the first six findings, and how many more there are.
fn add_finding_lines(lines: &mut Vec<Line>, findings: &Vec<JsonValue>)
    ensures
        printed(final(lines)@) == printed(old(lines)@) + finding_lines(json_views(findings@)),
{
    let ghost before = printed(lines@);
    let ghost all = json_views(findings@);
    let shown: usize = if findings.len() > 6 {
        6
    } else {
        findings.len()
    };
    let ghost part = Seq::new(shown as nat, |i: int| Printed::Stdout(finding_line(all[i])));
    let mut i: usize = 0;
    assert(before + part.take(0) =~= before);
    while i < shown
        invariant
            i <= shown <= findings.len(),
            all == json_views(findings@),
            part == Seq::new(shown as nat, |k: int| Printed::Stdout(finding_line(all[k]))),
            printed(lines@) == before + part.take(i as int),
        decreases shown - i,
    {
        push_line(lines, Line::Stdout(line_of_finding(&findings[i])));
        assert(before + part.take(i + 1) =~= (before + part.take(i as int)).push(part[i as int]));
        i += 1;
    }
    assert(part.take(i as int) =~= part);
    if findings.len() > 6 {
        let mut r: String = "  ... ".to_owned();
        r.append(decimal_of((findings.len() - 6) as u64).as_str());
        r.append(" more findings");
        push_line(lines, Line::Stdout(r));
    }
    assert(printed(lines@) =~= before + finding_lines(all));
}

/// The reports in lines of text.
pub fn render_text(reports: &[JsonValue], quiet: bool) -> (r: Vec<Line>)
    ensures
        printed(r@) == scan_text(json_views(reports@), quiet),
{
    let ghost all = json_views(reports@);
    let mut lines: Vec<Line> = Vec::new();
    let mut i: usize = 0;
    assert(printed(lines@) =~= scan_text(all.take(0), quiet));
    while i < reports.len()
        invariant
            i <= reports.len(),
            all == json_views(reports@),
            printed(lines@) == scan_text(all.take(i as int), quiet),
        decreases reports.len() - i,
    {
        let ghost before = printed(lines@);
        assert(all.take(i + 1).drop_last() =~= all.take(i as int));
        assert(all.take(i + 1).last() == reports@[i as int]@);
        push_line(&mut lines, Line::Stdout(line_of_report(&reports[i])));
        if !quiet {
            match reports[i].array_at("findings") {
                Some(findings) => add_finding_lines(&mut lines, findings),
                None => {},
            }
        }
        assert(printed(lines@) =~= before + scan_lines(all[i as int], quiet));
        i += 1;
    }
    assert(all.take(i as int) =~= all);
    lines
}

/// What a scan prints; it exits with 0.
pub fn finish(reports: Vec<JsonValue>, format: &str, quiet: bool) -> (r: Result<Outcome, serde_json::Error>)
    ensures
        r matches Ok(outcome) && {
            &&& outcome.code == 0
            &&& printed(outcome.lines@) == if format@ == "json"@ {
                seq![Printed::Stdout(json_pretty(Json::List(json_views(reports@))))]
            } else {
                scan_text(json_views(reports@), quiet)
            }
        },
{
    if same_text(format, "json") {
        match pretty_json(&JsonValue::list(reports)) {
            Ok(text) => {
                let mut lines: Vec<Line> = Vec::new();
                assert(printed(lines@) =~= Seq::empty());
                push_line(&mut lines, Line::Stdout(text));
                assert(printed(lines@) =~= seq![Printed::Stdout(text@)]);
                Ok(Outcome { lines, code: 0 })
            },
            Err(e) => Err(e),
        }
    } else {
        Ok(Outcome { lines: render_text(reports.as_slice(), quiet), code: 0 })
    }
}

} // verus!
