//! What a gate run prints, told by what the service said.
use vstd::prelude::*;

use crate::client::{Blocked, Gate};
use crate::cmd::gate::render::{
    advisory_ids, advisory_line, all_report_lines, blocked_json, closing_lines, decision, gate_json, gate_text,
    partial_warning, report_line, report_lines, run_code, run_lines, summary_lines, target_of, targets_of,
    with_commas,
};
use crate::cmd::gate::session::Tally;
use crate::cmd::Printed;
use crate::json::{field_index, Json};
use crate::text::{decimal, digit, pad_right};

verus! {

// ---------------------------------------------------------------------------
// Pieces of a line
// ---------------------------------------------------------------------------

/// Padding keeps the text, fills it up with spaces to the width, and cuts nothing off.
pub proof fn law_padding_fills_up_with_spaces(s: Seq<char>, width: nat)
    ensures
        s.is_prefix_of(pad_right(s, width)),
        pad_right(s, width).len() == if s.len() < width {
            width
        } else {
            s.len()
        },
        forall|i: int| s.len() <= i < pad_right(s, width).len() ==> #[trigger] pad_right(s, width)[i] == ' ',
{
    assert(pad_right(s, width).subrange(0, s.len() as int) =~= s);
}

/// A number in decimal notation is its digits: the last is what is left over from tens, and the
/// others are the number of tens.
pub proof fn law_decimal_notation_has_the_value(n: nat, d: nat)
    requires
        d < 10,
    ensures
        n > 0 ==> decimal(n * 10 + d) == decimal(n).push(digit(d)),
        decimal(d) == seq![digit(d)],
        digit(d) as u32 == '0' as u32 + d,
{
    assert((n * 10 + d) / 10 == n);
    assert((n * 10 + d) % 10 == d);
}

/// Texts stand in a list in their order, with a comma and a space between them.
pub proof fn law_commas_stand_between(list: Seq<Seq<char>>, x: Seq<char>)
    ensures
        with_commas(Seq::empty()) == Seq::<char>::empty(),
        with_commas(seq![x]) == x,
        list.len() > 0 ==> with_commas(list.push(x)) == with_commas(list) + ", "@ + x,
{
    assert(list.push(x).drop_last() =~= list);
}

/// The line of a report shows whether it blocks, its ecosystem, its spec, its risk and its score.
pub proof fn law_report_line_shows_the_report(
    report: Json,
    blocked: bool,
    ecosystem: Seq<char>,
    target: Seq<char>,
    risk: Seq<char>,
    score: u64,
    notation: Seq<char>,
)
    requires
        report.field("ecosystem"@) == Some(Json::Text(ecosystem)),
        report.field("target"@) == Some(Json::Text(target)),
        report.field("risk"@) == Some(Json::Text(risk)),
        report.field("score"@) == Some(Json::Number(Some(score), notation)),
    ensures
        report_line(report, blocked) == (if blocked {
            "BLOCK"@
        } else {
            "PASS "@
        }) + " ["@ + pad_right(ecosystem, 4) + "] "@ + pad_right(target, 48) + " risk="@ + pad_right(risk, 7)
            + " score="@ + decimal(score as nat),
        target_of(report) == target,
{
}

/// What a report does not say is shown as npm, as unknown, or as zero.
pub proof fn law_report_line_without_fields(report: Json, blocked: bool)
    requires
        report.field("ecosystem"@) is None,
        report.field("target"@) is None,
        report.field("risk"@) is None,
        report.field("score"@) is None,
    ensures
        report_line(report, blocked) == (if blocked {
            "BLOCK"@
        } else {
            "PASS "@
        }) + " ["@ + pad_right("npm"@, 4) + "] "@ + pad_right("<unknown>"@, 48) + " risk="@ + pad_right(
            "unknown"@,
            7,
        ) + " score="@ + decimal(0),
{
}

/// Where each advisory has an identifier, these are the identifiers.
proof fn lemma_ids(advisories: Seq<Json>, ids: Seq<Seq<char>>)
    requires
        advisories.len() == ids.len(),
        forall|i: int| 0 <= i < ids.len() ==> (#[trigger] advisories[i]).field("id"@) == Some(Json::Text(ids[i])),
    ensures
        advisory_ids(advisories) == ids,
    decreases ids.len(),
{
    reveal(Seq::filter_map);
    if ids.len() > 0 {
        let a = advisories.drop_last();
        let b = ids.drop_last();
        assert forall|i: int| 0 <= i < b.len() implies (#[trigger] a[i]).field("id"@) == Some(Json::Text(b[i])) by {
            assert(a[i] == advisories[i]);
        }
        lemma_ids(a, b);
        assert(advisories[ids.len() - 1].field("id"@) == Some(Json::Text(ids.last())));
        assert(advisory_ids(advisories) =~= ids);
    } else {
        assert(advisory_ids(advisories) =~= ids);
    }
}

/// The line about known vulnerabilities tells how many there are and names them; of more than five
/// it names the first five and tells how many more there are.
pub proof fn law_advisories_are_named(advisories: Seq<Json>, ids: Seq<Seq<char>>)
    requires
        advisories.len() == ids.len(),
        forall|i: int| 0 <= i < ids.len() ==> (#[trigger] advisories[i]).field("id"@) == Some(Json::Text(ids[i])),
    ensures
        advisory_line(advisories) == "      \u{26a0} "@ + decimal(ids.len())
            + " known CVE advisory(ies) — not blocking: "@ + (if ids.len() <= 5 {
            with_commas(ids)
        } else {
            with_commas(ids.take(5)) + (" (+"@ + decimal((ids.len() - 5) as nat) + " more)"@)
        }),
{
    lemma_ids(advisories, ids);
    let head = "      \u{26a0} "@ + decimal(ids.len()) + " known CVE advisory(ies) — not blocking: "@;
    if ids.len() > 5 {
        let more = " (+"@ + decimal((ids.len() - 5) as nat) + " more)"@;
        assert(head + with_commas(ids.take(5)) + more =~= head + (with_commas(ids.take(5)) + more));
    } else {
        assert(head + with_commas(ids) + Seq::<char>::empty() =~= head + with_commas(ids));
    }
}

// ---------------------------------------------------------------------------
// Lines
// ---------------------------------------------------------------------------

/// A report that is blocked is printed as such, and nothing else of it; one that passes is printed
/// unless the run is quiet, and behind it its known vulnerabilities, quiet or not.
pub proof fn law_report_is_printed(report: Json, targets: Seq<Seq<char>>, advisories: Seq<Json>)
    ensures
        targets.contains(target_of(report)) ==> report_lines(report, targets, true) == seq![
            Printed::Stdout(report_line(report, true)),
        ] && report_lines(report, targets, false) == seq![Printed::Stdout(report_line(report, true))],
        !targets.contains(target_of(report)) && !(report.field("advisories"@) matches Some(Json::List(_))) ==> {
            &&& report_lines(report, targets, true) == Seq::<Printed>::empty()
            &&& report_lines(report, targets, false) == seq![Printed::Stdout(report_line(report, false))]
        },
        !targets.contains(target_of(report)) && report.field("advisories"@) == Some(Json::List(advisories))
            && advisories.len() > 0 ==> {
            &&& report_lines(report, targets, true) == seq![Printed::Stdout(advisory_line(advisories))]
            &&& report_lines(report, targets, false) == seq![
                Printed::Stdout(report_line(report, false)),
                Printed::Stdout(advisory_line(advisories)),
            ]
        },
        !targets.contains(target_of(report)) && report.field("advisories"@) == Some(Json::List(Seq::empty())) ==> {
            &&& report_lines(report, targets, true) == Seq::<Printed>::empty()
            &&& report_lines(report, targets, false) == seq![Printed::Stdout(report_line(report, false))]
        },
{
    let b = seq![Printed::Stdout(report_line(report, true))];
    let p = seq![Printed::Stdout(report_line(report, false))];
    let none = Seq::<Printed>::empty();
    let v = seq![Printed::Stdout(advisory_line(advisories))];
    assert(b + none =~= b);
    assert(p + none =~= p);
    assert(none + none =~= none);
    assert(none + v =~= v);
    assert(p + v =~= seq![
        Printed::Stdout(report_line(report, false)),
        Printed::Stdout(advisory_line(advisories)),
    ]);
}

/// Reports are printed one by one, in their order.
pub proof fn law_reports_are_printed_one_by_one(
    a: Seq<Json>,
    b: Seq<Json>,
    targets: Seq<Seq<char>>,
    quiet: bool,
    report: Json,
)
    ensures
        all_report_lines(a + b, targets, quiet) == all_report_lines(a, targets, quiet) + all_report_lines(
            b,
            targets,
            quiet,
        ),
        all_report_lines(seq![report], targets, quiet) == report_lines(report, targets, quiet),
        all_report_lines(Seq::empty(), targets, quiet) == Seq::<Printed>::empty(),
    decreases b.len(),
{
    let one = seq![report];
    assert(one.drop_last() =~= Seq::empty());
    assert(all_report_lines(one.drop_last(), targets, quiet) =~= Seq::<Printed>::empty());
    assert(all_report_lines(one, targets, quiet) =~= report_lines(report, targets, quiet));
    if b.len() == 0 {
        assert(a + b =~= a);
        assert(all_report_lines(a, targets, quiet) + all_report_lines(b, targets, quiet) =~= all_report_lines(
            a,
            targets,
            quiet,
        ));
    } else {
        assert((a + b).drop_last() =~= a + b.drop_last());
        assert((a + b).last() == b.last());
        law_reports_are_printed_one_by_one(a, b.drop_last(), targets, quiet, report);
        assert(all_report_lines(a + b, targets, quiet) =~= all_report_lines(a, targets, quiet) + all_report_lines(
            b,
            targets,
            quiet,
        ));
    }
}

/// Behind the reports each blocked spec that has a summary is told with it, in their order; one
/// without a summary adds no line.
pub proof fn law_reasons_are_printed_one_by_one(blocked: Seq<Blocked>, b: Blocked, summary: Seq<char>)
    ensures
        summary_lines(Seq::empty()) == Seq::<Printed>::empty(),
        b.summary == Some(summary) ==> summary_lines(blocked.push(b)) == summary_lines(blocked).push(
            Printed::Stdout("      "@ + b.target + ": "@ + summary),
        ),
        b.summary is None ==> summary_lines(blocked.push(b)) == summary_lines(blocked),
{
    assert(blocked.push(b).drop_last() =~= blocked);
}

/// At the end a run that is blocked says so, quiet or not: how many specs of how many, and at
/// which level. One that passes says so unless it is quiet, and tells what bypassed it.
pub proof fn law_closing_tells_the_outcome(gate: Gate, quiet: bool, allowlisted: nat)
    ensures
        !gate.allowed ==> closing_lines(gate, quiet, allowlisted) == seq![
            Printed::Stderr(Seq::empty()),
            Printed::Stderr(
                "pkgradar: gate blocked "@ + decimal(gate.blocked.len()) + " of "@ + decimal(gate.reports.len())
                    + " (fail_on="@ + gate.fail_on + ")."@,
            ),
        ],
        gate.allowed && quiet ==> closing_lines(gate, quiet, allowlisted) == Seq::<Printed>::empty(),
        gate.allowed && !quiet && allowlisted > 0 ==> closing_lines(gate, quiet, allowlisted) == seq![
            Printed::Stderr(Seq::empty()),
            Printed::Stderr(
                "pkgradar: "@ + decimal(gate.reports.len()) + " specs passed"@ + (" ("@ + decimal(allowlisted)
                    + " skipped via allowlist)"@) + "."@,
            ),
        ],
        gate.allowed && !quiet && allowlisted == 0 ==> closing_lines(gate, quiet, allowlisted) == seq![
            Printed::Stderr(Seq::empty()),
            Printed::Stderr("pkgradar: "@ + decimal(gate.reports.len()) + " specs passed"@ + "."@),
        ],
{
    let passed = "pkgradar: "@ + decimal(gate.reports.len()) + " specs passed"@;
    assert(passed + Seq::<char>::empty() + "."@ =~= passed + "."@);
}

/// The text of a run is its reports, then the reasons, then the outcome, and nothing else.
pub proof fn law_text_is_reports_reasons_and_outcome(gate: Gate, quiet: bool, allowlisted: nat)
    ensures
        gate_text(gate, quiet, allowlisted) == all_report_lines(gate.reports, targets_of(gate.blocked), quiet)
            + summary_lines(gate.blocked) + closing_lines(gate, quiet, allowlisted),
        targets_of(gate.blocked).len() == gate.blocked.len(),
        forall|i: int|
            0 <= i < gate.blocked.len() ==> #[trigger] targets_of(gate.blocked)[i] == gate.blocked[i].target,
{
}

/// Specs that were not checked are told first, unless the run is quiet; then comes the text, or
/// the JSON alone where that is asked for. The run exits with 0 exactly where it is allowed.
pub proof fn law_unchecked_specs_are_told_first(tally: Tally, allowlisted: nat, json: Seq<char>)
    ensures
        tally.skipped > 0 ==> run_lines(tally, allowlisted, false, None) == seq![
            Printed::Stderr(
                "pkgradar: warning — "@ + decimal(tally.skipped)
                    + " spec(s) were not checked (fail-open); results below are partial."@,
            ),
        ] + gate_text(tally.gate, false, allowlisted),
        tally.skipped > 0 ==> run_lines(tally, allowlisted, false, Some(json)) == seq![
            Printed::Stderr(partial_warning(tally.skipped)),
            Printed::Stdout(json),
        ],
        tally.skipped == 0 ==> run_lines(tally, allowlisted, false, None) == gate_text(tally.gate, false, allowlisted),
        tally.skipped == 0 ==> run_lines(tally, allowlisted, false, Some(json)) == seq![Printed::Stdout(json)],
        run_lines(tally, allowlisted, true, None) == gate_text(tally.gate, true, allowlisted),
        run_lines(tally, allowlisted, true, Some(json)) == seq![Printed::Stdout(json)],
        run_code(tally) == if tally.gate.allowed {
            0int
        } else {
            1int
        },
{
    let none = Seq::<Printed>::empty();
    let text = gate_text(tally.gate, false, allowlisted);
    let quiet = gate_text(tally.gate, true, allowlisted);
    assert(none + text =~= text);
    assert(none + quiet =~= quiet);
    assert(none + seq![Printed::Stdout(json)] =~= seq![Printed::Stdout(json)]);
    let warning = Printed::Stderr(partial_warning(tally.skipped));
    assert(seq![warning] + seq![Printed::Stdout(json)] =~= seq![warning, Printed::Stdout(json)]);
}

// ---------------------------------------------------------------------------
// JSON
// ---------------------------------------------------------------------------

/// The JSON of a run tells whether it is allowed, the level, each blocked spec and the decision on
/// each report, in their order.
pub proof fn law_json_tells_the_run(gate: Gate)
    ensures
        gate_json(gate).field("allowed"@) == Some(Json::Bool(gate.allowed)),
        gate_json(gate).field("fail_on"@) == Some(Json::Text(gate.fail_on)),
        gate_json(gate).field("blocked"@) matches Some(Json::List(items)) && items.len() == gate.blocked.len()
            && forall|i: int| 0 <= i < items.len() ==> #[trigger] items[i] == blocked_json(gate.blocked[i]),
        gate_json(gate).field("decisions"@) matches Some(Json::List(items)) && items.len() == gate.reports.len()
            && forall|i: int| 0 <= i < items.len() ==> #[trigger] items[i] == decision(gate.reports[i]),
{
    reveal_strlit("allowed");
    reveal_strlit("blocked");
    reveal_strlit("decisions");
    reveal_strlit("fail_on");
    reveal_with_fuel(field_index, 5);
    assert("allowed"@[0] == 'a' && "blocked"@[0] == 'b' && "decisions"@[0] == 'd' && "fail_on"@[0] == 'f');
}

/// A blocked spec is told with its spec, its risk, and its score and summary where it has them.
pub proof fn law_json_tells_what_is_blocked(b: Blocked)
    ensures
        blocked_json(b).field("target"@) == Some(Json::Text(b.target)),
        blocked_json(b).field("risk"@) == Some(Json::Text(b.risk)),
        blocked_json(b).field("score"@) == Some(
            match b.score {
                Some(n) => Json::Number(Some(n as u64), decimal(n as nat)),
                None => Json::Null,
            },
        ),
        blocked_json(b).field("summary"@) == Some(
            match b.summary {
                Some(s) => Json::Text(s),
                None => Json::Null,
            },
        ),
{
    reveal_strlit("risk");
    reveal_strlit("score");
    reveal_strlit("summary");
    reveal_strlit("target");
    reveal_with_fuel(field_index, 5);
    assert("risk"@[0] == 'r' && "score"@[1] == 'c' && "summary"@[1] == 'u' && "target"@[0] == 't');
    assert("score"@[0] == 's' && "summary"@[0] == 's');
}

/// A decision tells what its report tells of ecosystem, spec, risk and score, and null where it
/// tells nothing.
pub proof fn law_json_tells_each_decision(report: Json, text: Seq<char>, n: u64, notation: Seq<char>)
    ensures
        report.field("ecosystem"@) == Some(Json::Text(text)) ==> decision(report).field("ecosystem"@) == Some(
            Json::Text(text),
        ),
        report.field("target"@) == Some(Json::Text(text)) ==> decision(report).field("target"@) == Some(
            Json::Text(text),
        ),
        report.field("risk"@) == Some(Json::Text(text)) ==> decision(report).field("risk"@) == Some(
            Json::Text(text),
        ),
        report.field("score"@) == Some(Json::Number(Some(n), notation)) ==> decision(report).field("score"@) == Some(
            Json::Number(Some(n), decimal(n as nat)),
        ),
        report.field("ecosystem"@) is None ==> decision(report).field("ecosystem"@) == Some(Json::Null),
        report.field("target"@) is None ==> decision(report).field("target"@) == Some(Json::Null),
        report.field("risk"@) is None ==> decision(report).field("risk"@) == Some(Json::Null),
        report.field("score"@) is None ==> decision(report).field("score"@) == Some(Json::Null),
{
    reveal_strlit("ecosystem");
    reveal_strlit("risk");
    reveal_strlit("score");
    reveal_strlit("target");
    assert("ecosystem"@[0] == 'e' && "risk"@[0] == 'r' && "score"@[0] == 's' && "target"@[0] == 't');
    lemma_four("ecosystem"@, "risk"@, "score"@, "target"@, decision(report)->Record_0);
}

/// The fields of a record with four keys.
proof fn lemma_four(a: Seq<char>, b: Seq<char>, c: Seq<char>, d: Seq<char>, fields: Seq<(Seq<char>, Json)>)
    requires
        fields.len() == 4,
        fields[0].0 == a && fields[1].0 == b && fields[2].0 == c && fields[3].0 == d,
        a != b && a != c && a != d && b != c && b != d && c != d,
    ensures
        Json::Record(fields).field(a) == Some(fields[0].1),
        Json::Record(fields).field(b) == Some(fields[1].1),
        Json::Record(fields).field(c) == Some(fields[2].1),
        Json::Record(fields).field(d) == Some(fields[3].1),
{
    reveal_with_fuel(field_index, 5);
}

} // verus!
