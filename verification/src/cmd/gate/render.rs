//! How a gate run starts and ends: what it prints, and the code with which it exits.
use vstd::hash_set::StringHashSet;
use vstd::prelude::*;
use vstd::string::StringExecFns;

use crate::client::{blocked_views, Blocked, BlockedItem, Gate, GateResponse};
use crate::cmd::gate::session::{
    law_run_is_allowed_iff_every_answer_allows, nothing_yet, result_of_run, GateRun, Reply, Tally,
};
use crate::cmd::gate::{GatePlan, Settings};
use crate::cmd::{printed, push_line, text_set, Line, Outcome, Printed};
use crate::entry::Ecosystem;
use crate::json::{json_pretty, json_views, pretty_json, Json, JsonRecord, JsonValue};
use crate::lists::texts;
use crate::text::{decimal, decimal_of, pad_right, pad_to, same_text, text_before};

verus! {

/// The message where no spec is left to gate.
pub const NOTHING_TO_GATE: &'static str =
    "pkgradar: nothing to gate (no specs provided and lockfile/allowlist filtered everything).";

/// How a run starts.
pub enum Start {
    /// There is nothing to gate, and the run is over.
    Over(Outcome),
    /// There are batches to ask about.
    Running(GateRun),
}

/// Starts a run. Where no spec is left to gate it is over at once, and the build passes.
pub fn start(plan: GatePlan, settings: &Settings, quiet: bool) -> (r: Start)
    ensures
        match r {
            Start::Over(outcome) => {
                &&& plan.gated_count() == 0
                &&& printed(outcome.lines@) == if quiet {
                    Seq::empty()
                } else {
                    seq![Printed::Stderr(NOTHING_TO_GATE@)]
                }
                &&& outcome.code == 0
            },
            Start::Running(run) => {
                &&& plan.gated_count() > 0
                &&& run.requests() == plan.requests()
                &&& run.bypass_count() == plan.bypass_count()
                &&& run.fails_open() == settings.fail_open
                &&& run.done() == 0
                &&& run.tally() == nothing_yet(settings.fail_on@)
            },
        },
{
    if !plan.is_empty() {
        return Start::Running(GateRun::new(plan, settings));
    }
    let mut lines: Vec<Line> = Vec::new();
    assert(printed(lines@) =~= Seq::empty());
    if !quiet {
        push_line(&mut lines, Line::Stderr(NOTHING_TO_GATE.to_owned()));
    }
    Start::Over(Outcome { lines, code: 0 })
}

// ---------------------------------------------------------------------------
// JSON
// ---------------------------------------------------------------------------

/// A text, or null.
pub open spec fn text_or_null(t: Option<Seq<char>>) -> Json {
    match t {
        Some(t) => Json::Text(t),
        None => Json::Null,
    }
}

/// A number, or null.
pub open spec fn number_or_null(n: Option<u64>) -> Json {
    match n {
        Some(n) => Json::Number(Some(n), decimal(n as nat)),
        None => Json::Null,
    }
}

/// A blocked spec in JSON.
pub open spec fn blocked_json(b: Blocked) -> Json {
    Json::Record(
        seq![
            ("risk"@, Json::Text(b.risk)),
            (
                "score"@,
                number_or_null(
                    match b.score {
                        Some(n) => Some(n as u64),
                        None => None,
                    },
                ),
            ),
            ("summary"@, text_or_null(b.summary)),
            ("target"@, Json::Text(b.target)),
        ],
    )
}

/// The decision that a report tells, in JSON.
pub open spec fn decision(report: Json) -> Json {
    Json::Record(
        seq![
            ("ecosystem"@, text_or_null(report.field_text("ecosystem"@))),
            ("risk"@, text_or_null(report.field_text("risk"@))),
            ("score"@, number_or_null(report.field_natural("score"@))),
            ("target"@, text_or_null(report.field_text("target"@))),
        ],
    )
}

/// What the service says, in JSON.
pub open spec fn gate_json(gate: Gate) -> Json {
    Json::Record(
        seq![
            ("allowed"@, Json::Bool(gate.allowed)),
            (
                "blocked"@,
                Json::List(Seq::new(gate.blocked.len(), |i: int| blocked_json(gate.blocked[i]))),
            ),
            (
                "decisions"@,
                Json::List(Seq::new(gate.reports.len(), |i: int| decision(gate.reports[i]))),
            ),
            ("fail_on"@, Json::Text(gate.fail_on)),
        ],
    )
}

/// The keys stand in this order.
proof fn lemma_keys()
    ensures
        text_before("risk"@, "score"@),
        text_before("risk"@, "summary"@),
        text_before("risk"@, "target"@),
        text_before("score"@, "summary"@),
        text_before("score"@, "target"@),
        text_before("summary"@, "target"@),
        text_before("ecosystem"@, "risk"@),
        text_before("ecosystem"@, "score"@),
        text_before("ecosystem"@, "target"@),
        text_before("allowed"@, "blocked"@),
        text_before("allowed"@, "decisions"@),
        text_before("allowed"@, "fail_on"@),
        text_before("blocked"@, "decisions"@),
        text_before("blocked"@, "fail_on"@),
        text_before("decisions"@, "fail_on"@),
{
    reveal_strlit("risk");
    reveal_strlit("score");
    reveal_strlit("summary");
    reveal_strlit("target");
    reveal_strlit("ecosystem");
    reveal_strlit("allowed");
    reveal_strlit("blocked");
    reveal_strlit("decisions");
    reveal_strlit("fail_on");
    reveal_with_fuel(text_before, 3);
}

/// A text, or null.
fn json_text(t: Option<&String>) -> (r: JsonValue)
    ensures
        r@ == text_or_null(
            match t {
                Some(t) => Some(t@),
                None => None,
            },
        ),
{
    match t {
        Some(t) => JsonValue::Text(t.clone()),
        None => JsonValue::Null,
    }
}

/// A number, or null.
fn json_number(n: Option<u64>) -> (r: JsonValue)
    ensures
        r@ == number_or_null(n),
{
    match n {
        Some(n) => JsonValue::natural(n),
        None => JsonValue::Null,
    }
}

/// A blocked spec in JSON.
pub fn blocked_to_json(b: &BlockedItem) -> (r: JsonValue)
    ensures
        r@ == blocked_json(b@),
{
    proof {
        lemma_keys();
    }
    let score: Option<u64> = match b.score {
        Some(n) => Some(n as u64),
        None => None,
    };
    let summary: JsonValue = match &b.summary {
        Some(t) => JsonValue::Text(t.clone()),
        None => JsonValue::Null,
    };
    let r: JsonValue = JsonValue::record(
        JsonRecord::new().followed_by("risk", JsonValue::Text(b.risk.clone())).followed_by(
            "score",
            json_number(score),
        ).followed_by("summary", summary).followed_by("target", JsonValue::Text(b.target.clone())),
    );
    assert(r@->Record_0 =~= blocked_json(b@)->Record_0);
    r
}

/// The decision that a report tells, in JSON.
pub fn report_to_decision(report: &JsonValue) -> (r: JsonValue)
    ensures
        r@ == decision(report@),
{
    proof {
        lemma_keys();
    }
    let r: JsonValue = JsonValue::record(
        JsonRecord::new().followed_by("ecosystem", json_text(report.str_at("ecosystem"))).followed_by(
            "risk",
            json_text(report.str_at("risk")),
        ).followed_by("score", json_number(report.u64_at("score"))).followed_by(
            "target",
            json_text(report.str_at("target")),
        ),
    );
    assert(r@->Record_0 =~= decision(report@)->Record_0);
    r
}

/// What the service says, in JSON.
pub fn render_json(response: &GateResponse) -> (r: JsonValue)
    ensures
        r@ == gate_json(response@),
{
    proof {
        lemma_keys();
    }
    let ghost gate = response@;
    let mut blocked: Vec<JsonValue> = Vec::new();
    let mut i: usize = 0;
    while i < response.blocked.len()
        invariant
            i <= response.blocked.len(),
            gate == response@,
            blocked@.len() == i,
            forall|k: int| 0 <= k < i ==> (#[trigger] blocked@[k])@ == blocked_json(gate.blocked[k]),
        decreases response.blocked.len() - i,
    {
        blocked.push(blocked_to_json(&response.blocked[i]));
        i += 1;
    }
    let mut decisions: Vec<JsonValue> = Vec::new();
    let mut j: usize = 0;
    while j < response.reports.len()
        invariant
            j <= response.reports.len(),
            gate == response@,
            decisions@.len() == j,
            forall|k: int| 0 <= k < j ==> (#[trigger] decisions@[k])@ == decision(gate.reports[k]),
        decreases response.reports.len() - j,
    {
        decisions.push(report_to_decision(&response.reports[j]));
        j += 1;
    }
    assert(json_views(blocked@) =~= Seq::new(gate.blocked.len(), |k: int| blocked_json(gate.blocked[k])));
    assert(json_views(decisions@) =~= Seq::new(gate.reports.len(), |k: int| decision(gate.reports[k])));
    let r: JsonValue = JsonValue::record(
        JsonRecord::new().followed_by("allowed", JsonValue::Bool(response.allowed)).followed_by(
            "blocked",
            JsonValue::list(blocked),
        ).followed_by("decisions", JsonValue::list(decisions)).followed_by(
            "fail_on",
            JsonValue::Text(response.fail_on.clone()),
        ),
    );
    assert(r@->Record_0 =~= gate_json(gate)->Record_0);
    r
}

// ---------------------------------------------------------------------------
// Text
// ---------------------------------------------------------------------------

/// A text, or else `other`.
pub open spec fn text_or(t: Option<Seq<char>>, other: Seq<char>) -> Seq<char> {
    match t {
        Some(t) => t,
        None => other,
    }
}

/// A number, or else zero.
pub open spec fn number_or_zero(n: Option<u64>) -> nat {
    match n {
        Some(n) => n as nat,
        None => 0,
    }
}

/// The spec that a report is about.
pub open spec fn target_of(report: Json) -> Seq<char> {
    text_or(report.field_text("target"@), "<unknown>"@)
}

/// The line of a report.
pub open spec fn report_line(report: Json, blocked: bool) -> Seq<char> {
    (if blocked {
        "BLOCK"@
    } else {
        "PASS "@
    }) + " ["@ + pad_right(text_or(report.field_text("ecosystem"@), "npm"@), 4) + "] "@ + pad_right(
        target_of(report),
        48,
    ) + " risk="@ + pad_right(text_or(report.field_text("risk"@), "unknown"@), 7) + " score="@ + decimal(
        number_or_zero(report.field_natural("score"@)),
    )
}

/// The identifiers of advisories.
pub open spec fn advisory_ids(advisories: Seq<Json>) -> Seq<Seq<char>> {
    advisories.filter_map(|a: Json| a.field_text("id"@))
}

/// Texts with commas between them.
pub open spec fn with_commas(list: Seq<Seq<char>>) -> Seq<char>
    decreases list.len(),
{
    if list.len() == 0 {
        Seq::empty()
    } else if list.len() == 1 {
        list[0]
    } else {
        with_commas(list.drop_last()) + ", "@ + list.last()
    }
}

/// The line about known vulnerabilities that do not block: how many there are, the identifiers of
/// the first five, and how many more have one.
pub open spec fn advisory_line(advisories: Seq<Json>) -> Seq<char> {
    let ids = advisory_ids(advisories);
    let shown = if ids.len() > 5 {
        ids.take(5)
    } else {
        ids
    };
    "      \u{26a0} "@ + decimal(advisories.len()) + " known CVE advisory(ies) — not blocking: "@ + with_commas(
        shown,
    ) + (if ids.len() > 5 {
        " (+"@ + decimal((ids.len() - 5) as nat) + " more)"@
    } else {
        Seq::empty()
    })
}

/// The lines of a report: the report itself, which is left out where it passes and the run is
/// quiet, and the known vulnerabilities of one that passes.
pub open spec fn report_lines(report: Json, targets: Seq<Seq<char>>, quiet: bool) -> Seq<Printed> {
    let blocked = targets.contains(target_of(report));
    (if blocked || !quiet {
        seq![Printed::Stdout(report_line(report, blocked))]
    } else {
        Seq::empty()
    }) + (match report.field_items("advisories"@) {
        Some(advisories) => if !blocked && advisories.len() > 0 {
            seq![Printed::Stdout(advisory_line(advisories))]
        } else {
            Seq::empty()
        },
        None => Seq::empty(),
    })
}

/// The lines of all reports.
pub open spec fn all_report_lines(reports: Seq<Json>, targets: Seq<Seq<char>>, quiet: bool) -> Seq<Printed>
    decreases reports.len(),
{
    if reports.len() == 0 {
        Seq::empty()
    } else {
        all_report_lines(reports.drop_last(), targets, quiet) + report_lines(reports.last(), targets, quiet)
    }
}

/// The specs that are blocked.
pub open spec fn targets_of(blocked: Seq<Blocked>) -> Seq<Seq<char>> {
    Seq::new(blocked.len(), |i: int| blocked[i].target)
}

/// The lines that say why specs are blocked.
pub open spec fn summary_lines(blocked: Seq<Blocked>) -> Seq<Printed>
    decreases blocked.len(),
{
    if blocked.len() == 0 {
        Seq::empty()
    } else {
        let front = summary_lines(blocked.drop_last());
        match blocked.last().summary {
            Some(summary) => front.push(
                Printed::Stdout("      "@ + blocked.last().target + ": "@ + summary),
            ),
            None => front,
        }
    }
}

/// The lines at the end.
pub open spec fn closing_lines(gate: Gate, quiet: bool, allowlisted: nat) -> Seq<Printed> {
    if !gate.allowed {
        seq![
            Printed::Stderr(Seq::empty()),
            Printed::Stderr(
                "pkgradar: gate blocked "@ + decimal(gate.blocked.len()) + " of "@ + decimal(
                    gate.reports.len(),
                ) + " (fail_on="@ + gate.fail_on + ")."@,
            ),
        ]
    } else if !quiet {
        seq![
            Printed::Stderr(Seq::empty()),
            Printed::Stderr(
                "pkgradar: "@ + decimal(gate.reports.len()) + " specs passed"@ + (if allowlisted > 0 {
                    " ("@ + decimal(allowlisted) + " skipped via allowlist)"@
                } else {
                    Seq::empty()
                }) + "."@,
            ),
        ]
    } else {
        Seq::empty()
    }
}

/// What the service says, in lines of text.
pub open spec fn gate_text(gate: Gate, quiet: bool, allowlisted: nat) -> Seq<Printed> {
    all_report_lines(gate.reports, targets_of(gate.blocked), quiet) + summary_lines(gate.blocked)
        + closing_lines(gate, quiet, allowlisted)
}

/// A report that is blocked is always printed, whether or not the run is quiet.
pub proof fn law_blocked_report_is_printed(gate: Gate, quiet: bool, allowlisted: nat, i: int)
    requires
        0 <= i < gate.reports.len(),
        targets_of(gate.blocked).contains(target_of(gate.reports[i])),
    ensures
        gate_text(gate, quiet, allowlisted).contains(Printed::Stdout(report_line(gate.reports[i], true))),
{
    let line = Printed::Stdout(report_line(gate.reports[i], true));
    let targets = targets_of(gate.blocked);
    let head = all_report_lines(gate.reports, targets, quiet);
    lemma_report_is_printed(gate.reports, targets, quiet, i);
    let k = choose|k: int| 0 <= k < head.len() && head[k] == line;
    assert(gate_text(gate, quiet, allowlisted)[k] == line);
}

/// A report that is blocked is among the lines of all reports.
proof fn lemma_report_is_printed(reports: Seq<Json>, targets: Seq<Seq<char>>, quiet: bool, i: int)
    requires
        0 <= i < reports.len(),
        targets.contains(target_of(reports[i])),
    ensures
        all_report_lines(reports, targets, quiet).contains(Printed::Stdout(report_line(reports[i], true))),
    decreases reports.len(),
{
    let line = Printed::Stdout(report_line(reports[i], true));
    let front = all_report_lines(reports.drop_last(), targets, quiet);
    let all = all_report_lines(reports, targets, quiet);
    if i < reports.len() - 1 {
        assert(reports.drop_last()[i] == reports[i]);
        lemma_report_is_printed(reports.drop_last(), targets, quiet, i);
        let k = choose|k: int| 0 <= k < front.len() && front[k] == line;
        assert(all[k] == line);
    } else {
        assert(report_lines(reports.last(), targets, quiet)[0] == line);
        assert(all[front.len() as int] == line);
    }
}

/// The text of the field `key`, or else `other`.
pub fn str_or(report: &JsonValue, key: &str, other: &str) -> (r: String)
    ensures
        r@ == text_or(report@.field_text(key@), other@),
{
    match report.str_at(key) {
        Some(t) => t.clone(),
        None => other.to_owned(),
    }
}

/// The natural number in the field `key`, or else zero.
pub fn u64_or_zero(report: &JsonValue, key: &str) -> (r: u64)
    ensures
        r == number_or_zero(report@.field_natural(key@)),
{
    match report.u64_at(key) {
        Some(n) => n,
        None => 0,
    }
}

/// The line of a report.
fn line_of_report(report: &JsonValue, blocked: bool) -> (r: String)
    ensures
        r@ == report_line(report@, blocked),
{
    let mut r: String = if blocked {
        "BLOCK".to_owned()
    } else {
        "PASS ".to_owned()
    };
    r.append(" [");
    r.append(pad_to(str_or(report, "ecosystem", "npm").as_str(), 4).as_str());
    r.append("] ");
    r.append(pad_to(str_or(report, "target", "<unknown>").as_str(), 48).as_str());
    r.append(" risk=");
    r.append(pad_to(str_or(report, "risk", "unknown").as_str(), 7).as_str());
    r.append(" score=");
    r.append(decimal_of(u64_or_zero(report, "score")).as_str());
    r
}

/// The identifiers of advisories.
fn ids_of(advisories: &Vec<JsonValue>) -> (r: Vec<String>)
    ensures
        texts(r@) == advisory_ids(json_views(advisories@)),
{
    let ghost all = json_views(advisories@);
    let ghost id = |a: Json| a.field_text("id"@);
    let mut out: Vec<String> = Vec::new();
    let mut i: usize = 0;
    assert(texts(out@) =~= all.take(0).filter_map(id));
    while i < advisories.len()
        invariant
            i <= advisories.len(),
            all == json_views(advisories@),
            id == (|a: Json| a.field_text("id"@)),
            texts(out@) == all.take(i as int).filter_map(id),
        decreases advisories.len() - i,
    {
        proof {
            assert(all.take(i + 1).drop_last() =~= all.take(i as int));
            assert(all.take(i + 1).last() == advisories@[i as int]@);
        }
        let ghost done = texts(out@);
        match advisories[i].str_at("id") {
            Some(t) => {
                out.push(t.clone());
                assert(texts(out@) =~= done + seq![t@]);
            },
            None => {},
        }
        i += 1;
    }
    assert(all.take(i as int) =~= all);
    out
}

/// The first `n` texts with commas between them.
fn comma_text(list: &Vec<String>, n: usize) -> (r: String)
    requires
        n <= list@.len(),
    ensures
        r@ == with_commas(texts(list@).take(n as int)),
{
    let ghost all = texts(list@);
    let mut r: String = String::new();
    let mut i: usize = 0;
    assert(r@ =~= with_commas(all.take(0)));
    while i < n
        invariant
            i <= n <= list@.len(),
            all == texts(list@),
            r@ == with_commas(all.take(i as int)),
        decreases n - i,
    {
        assert(all.take(i + 1).drop_last() =~= all.take(i as int));
        assert(all.take(i + 1).last() == list@[i as int]@);
        if i > 0 {
            r.append(", ");
        }
        r.append(list[i].as_str());
        assert(r@ =~= with_commas(all.take(i + 1)));
        i += 1;
    }
    r
}

/// The line about known vulnerabilities that do not block.
fn line_of_advisories(advisories: &Vec<JsonValue>) -> (r: String)
    ensures
        r@ == advisory_line(json_views(advisories@)),
{
    let ids: Vec<String> = ids_of(advisories);
    let mut r: String = "      \u{26a0} ".to_owned();
    r.append(decimal_of(advisories.len() as u64).as_str());
    r.append(" known CVE advisory(ies) — not blocking: ");
    if ids.len() > 5 {
        r.append(comma_text(&ids, 5).as_str());
        r.append(" (+");
        r.append(decimal_of((ids.len() - 5) as u64).as_str());
        r.append(" more)");
    } else {
        assert(texts(ids@).take(ids@.len() as int) =~= texts(ids@));
        r.append(comma_text(&ids, ids.len()).as_str());
    }
    assert(r@ =~= advisory_line(json_views(advisories@)));
    r
}

/// Adds the lines of a report.
fn add_report_lines(lines: &mut Vec<Line>, report: &JsonValue, targets: &StringHashSet, quiet: bool, Ghost(list): Ghost<
    Seq<Seq<char>>,
>)
    requires
        forall|s: Seq<char>| #[trigger] targets@.contains(s) <==> list.contains(s),
    ensures
        printed(final(lines)@) == printed(old(lines)@) + report_lines(report@, list, quiet),
{
    let target: String = str_or(report, "target", "<unknown>");
    let blocked: bool = targets.contains(target.as_str());
    let ghost before = printed(lines@);
    if blocked || !quiet {
        push_line(lines, Line::Stdout(line_of_report(report, blocked)));
    }
    if !blocked {
        match report.array_at("advisories") {
            Some(advisories) => {
                if advisories.len() > 0 {
                    push_line(lines, Line::Stdout(line_of_advisories(advisories)));
                }
            },
            None => {},
        }
    }
    assert(printed(lines@) =~= before + report_lines(report@, list, quiet));
}

/// The specs that are blocked.
fn blocked_targets(blocked: &Vec<BlockedItem>) -> (r: Vec<String>)
    ensures
        texts(r@) == targets_of(blocked_views(blocked@)),
{
    let mut out: Vec<String> = Vec::new();
    let mut i: usize = 0;
    while i < blocked.len()
        invariant
            i <= blocked.len(),
            out@.len() == i,
            forall|k: int| 0 <= k < i ==> (#[trigger] out@[k])@ == blocked@[k].target@,
        decreases blocked.len() - i,
    {
        out.push(blocked[i].target.clone());
        i += 1;
    }
    assert(texts(out@) =~= targets_of(blocked_views(blocked@)));
    out
}

/// Adds the lines that say why specs are blocked.
fn add_summary_lines(lines: &mut Vec<Line>, blocked: &Vec<BlockedItem>)
    ensures
        printed(final(lines)@) == printed(old(lines)@) + summary_lines(blocked_views(blocked@)),
{
    let ghost before = printed(lines@);
    let ghost all = blocked_views(blocked@);
    let mut i: usize = 0;
    assert(before + summary_lines(all.take(0)) =~= before);
    while i < blocked.len()
        invariant
            i <= blocked.len(),
            all == blocked_views(blocked@),
            printed(lines@) == before + summary_lines(all.take(i as int)),
        decreases blocked.len() - i,
    {
        assert(all.take(i + 1).drop_last() =~= all.take(i as int));
        assert(all.take(i + 1).last() == blocked@[i as int]@);
        match &blocked[i].summary {
            Some(summary) => {
                let mut r: String = "      ".to_owned();
                r.append(blocked[i].target.as_str());
                r.append(": ");
                r.append(summary.as_str());
                push_line(lines, Line::Stdout(r));
            },
            None => {},
        }
        assert(printed(lines@) =~= before + summary_lines(all.take(i + 1)));
        i += 1;
    }
    assert(all.take(i as int) =~= all);
}

/// Adds the lines at the end.
fn add_closing_lines(lines: &mut Vec<Line>, response: &GateResponse, quiet: bool, allowlisted: usize)
    ensures
        printed(final(lines)@) == printed(old(lines)@) + closing_lines(response@, quiet, allowlisted as nat),
{
    let ghost before = printed(lines@);
    if !response.allowed {
        let mut r: String = "pkgradar: gate blocked ".to_owned();
        r.append(decimal_of(response.blocked.len() as u64).as_str());
        r.append(" of ");
        r.append(decimal_of(response.reports.len() as u64).as_str());
        r.append(" (fail_on=");
        r.append(response.fail_on.as_str());
        r.append(").");
        push_line(lines, Line::Stderr(String::new()));
        push_line(lines, Line::Stderr(r));
    } else if !quiet {
        let mut r: String = "pkgradar: ".to_owned();
        r.append(decimal_of(response.reports.len() as u64).as_str());
        r.append(" specs passed");
        let ghost part = r@;
        if allowlisted > 0 {
            r.append(" (");
            r.append(decimal_of(allowlisted as u64).as_str());
            r.append(" skipped via allowlist)");
        }
        r.append(".");
        assert(r@ =~= part + (if allowlisted > 0 {
            " ("@ + decimal(allowlisted as nat) + " skipped via allowlist)"@
        } else {
            Seq::empty()
        }) + "."@);
        push_line(lines, Line::Stderr(String::new()));
        push_line(lines, Line::Stderr(r));
    }
    assert(printed(lines@) =~= before + closing_lines(response@, quiet, allowlisted as nat));
}

/// What the service says, in lines of text.
pub fn render_text(response: &GateResponse, quiet: bool, allowlisted: usize) -> (r: Vec<Line>)
    ensures
        printed(r@) == gate_text(response@, quiet, allowlisted as nat),
{
    let ghost gate = response@;
    let ghost list = targets_of(gate.blocked);
    let names: Vec<String> = blocked_targets(&response.blocked);
    let targets: StringHashSet = text_set(names.as_slice());
    let mut lines: Vec<Line> = Vec::new();
    let mut i: usize = 0;
    assert(printed(lines@) =~= all_report_lines(gate.reports.take(0), list, quiet));
    while i < response.reports.len()
        invariant
            i <= response.reports.len(),
            gate == response@,
            forall|s: Seq<char>| #[trigger] targets@.contains(s) <==> list.contains(s),
            printed(lines@) == all_report_lines(gate.reports.take(i as int), list, quiet),
        decreases response.reports.len() - i,
    {
        assert(gate.reports.take(i + 1).drop_last() =~= gate.reports.take(i as int));
        assert(gate.reports.take(i + 1).last() == response.reports@[i as int]@);
        add_report_lines(&mut lines, &response.reports[i], &targets, quiet, Ghost(list));
        i += 1;
    }
    assert(gate.reports.take(i as int) =~= gate.reports);
    add_summary_lines(&mut lines, &response.blocked);
    add_closing_lines(&mut lines, response, quiet, allowlisted);
    lines
}

// ---------------------------------------------------------------------------
// The end of a run
// ---------------------------------------------------------------------------

/// The warning about specs that were not checked.
pub open spec fn partial_warning(skipped: nat) -> Seq<char> {
    "pkgradar: warning — "@ + decimal(skipped)
        + " spec(s) were not checked (fail-open); results below are partial."@
}

/// What a run prints in text or, where `json` is the text of what the service says, in JSON.
pub open spec fn run_lines(tally: Tally, allowlisted: nat, quiet: bool, json: Option<Seq<char>>) -> Seq<Printed> {
    (if tally.skipped > 0 && !quiet {
        seq![Printed::Stderr(partial_warning(tally.skipped))]
    } else {
        Seq::empty()
    }) + (match json {
        Some(text) => seq![Printed::Stdout(text)],
        None => gate_text(tally.gate, quiet, allowlisted),
    })
}

/// The code with which a run exits: 0 where it is allowed, 1 where a spec is blocked.
pub open spec fn run_code(tally: Tally) -> i32 {
    if tally.gate.allowed {
        0
    } else {
        1
    }
}

/// A run exits with 1 if and only if some answer blocks, and with 0 otherwise.
pub proof fn law_exit_code_tells_blocking(
    requests: Seq<(Ecosystem, Seq<Seq<char>>)>,
    replies: Seq<Reply>,
    fail_open: bool,
    fail_on: Seq<char>,
)
    requires
        result_of_run(requests, replies, fail_open, fail_on) is Some,
    ensures
        run_code(result_of_run(requests, replies, fail_open, fail_on)->Some_0) == 1 <==> (exists|i: int|
            0 <= i < replies.len() && (#[trigger] replies[i] matches Reply::Answer(a) && !a.allowed)),
        run_code(result_of_run(requests, replies, fail_open, fail_on)->Some_0) == 0 || run_code(
            result_of_run(requests, replies, fail_open, fail_on)->Some_0,
        ) == 1,
{
    law_run_is_allowed_iff_every_answer_allows(requests, replies, fail_open, fail_on);
}

/// Ends a run in which every batch has had its reply: what it prints, and the code with which it
/// exits.
pub fn finish(run: GateRun, format: &str, quiet: bool) -> (r: Result<Outcome, serde_json::Error>)
    requires
        run.done() == run.requests().len(),
    ensures
        r matches Ok(outcome) && {
            &&& printed(outcome.lines@) == run_lines(
                run.tally(),
                run.bypass_count(),
                quiet,
                if format@ == "json"@ {
                    Some(json_pretty(gate_json(run.tally().gate)))
                } else {
                    None
                },
            )
            &&& outcome.code == run_code(run.tally())
        },
{
    let (response, skipped, allowlisted) = run.into_parts();
    let mut lines: Vec<Line> = Vec::new();
    assert(printed(lines@) =~= Seq::empty());
    if skipped > 0 && !quiet {
        let mut warning: String = "pkgradar: warning — ".to_owned();
        warning.append(decimal_of(skipped as u64).as_str());
        warning.append(" spec(s) were not checked (fail-open); results below are partial.");
        push_line(&mut lines, Line::Stderr(warning));
    }
    let ghost head = printed(lines@);
    let code: i32 = if response.allowed {
        0
    } else {
        1
    };
    if same_text(format, "json") {
        match pretty_json(&render_json(&response)) {
            Ok(text) => {
                push_line(&mut lines, Line::Stdout(text));
                assert(printed(lines@) =~= head + seq![Printed::Stdout(text@)]);
            },
            Err(e) => {
                return Err(e);
            },
        }
    } else {
        let mut rest: Vec<Line> = render_text(&response, quiet, allowlisted);
        let ghost tail = printed(rest@);
        lines.append(&mut rest);
        assert(printed(lines@) =~= head + tail);
    }
    Ok(Outcome { lines, code })
}

} // verus!
