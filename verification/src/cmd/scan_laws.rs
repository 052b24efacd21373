//! What a scan prints, told by what its reports say.
use vstd::prelude::*;

use crate::cmd::scan::{finding_line, finding_lines, findings_of, scan_line, scan_lines, scan_text};
use crate::cmd::Printed;
use crate::json::Json;
use crate::text::{decimal, pad_right};

verus! {

/// The line of a report shows its ecosystem, its spec, its risk, its score and how many findings
/// it has.
pub proof fn law_scan_line_shows_the_report(
    report: Json,
    ecosystem: Seq<char>,
    target: Seq<char>,
    risk: Seq<char>,
    score: u64,
    notation: Seq<char>,
    findings: Seq<Json>,
)
    requires
        report.field("ecosystem"@) == Some(Json::Text(ecosystem)),
        report.field("target"@) == Some(Json::Text(target)),
        report.field("risk"@) == Some(Json::Text(risk)),
        report.field("score"@) == Some(Json::Number(Some(score), notation)),
        report.field("findings"@) == Some(Json::List(findings)),
    ensures
        scan_line(report) == "["@ + pad_right(ecosystem, 4) + "] "@ + target + "  risk="@ + risk + "  score="@
            + decimal(score as nat) + "  findings="@ + decimal(findings.len()),
        findings_of(report) == findings,
{
}

/// What a report does not say is shown as npm, as unknown, or as zero.
pub proof fn law_scan_line_without_fields(report: Json)
    requires
        report.field("ecosystem"@) is None,
        report.field("target"@) is None,
        report.field("risk"@) is None,
        report.field("score"@) is None,
        report.field("findings"@) is None,
    ensures
        scan_line(report) == "["@ + pad_right("npm"@, 4) + "] "@ + "<unknown>"@ + "  risk="@ + "unknown"@
            + "  score="@ + decimal(0) + "  findings="@ + decimal(0),
        findings_of(report).len() == 0,
{
}

/// The line of a finding shows its severity, its kind, its points and its detail.
pub proof fn law_finding_line_shows_the_finding(
    finding: Json,
    severity: Seq<char>,
    kind: Seq<char>,
    points: u64,
    notation: Seq<char>,
    detail: Seq<char>,
)
    requires
        finding.field("severity"@) == Some(Json::Text(severity)),
        finding.field("kind"@) == Some(Json::Text(kind)),
        finding.field("points"@) == Some(Json::Number(Some(points), notation)),
        finding.field("detail"@) == Some(Json::Text(detail)),
    ensures
        finding_line(finding) == "  ["@ + severity + "] "@ + kind + " (+"@ + decimal(points as nat) + "): "@ + detail,
{
}

/// The first six findings are shown in their order; where there are more, a last line tells how
/// many, and where there are not, there is no such line.
pub proof fn law_first_findings_are_shown(findings: Seq<Json>)
    ensures
        forall|i: int|
            0 <= i < findings.len() && i < 6 ==> #[trigger] finding_lines(findings)[i] == Printed::Stdout(
                finding_line(findings[i]),
            ),
        findings.len() <= 6 ==> finding_lines(findings).len() == findings.len(),
        findings.len() > 6 ==> finding_lines(findings).len() == 7 && finding_lines(findings)[6] == Printed::Stdout(
            "  ... "@ + decimal((findings.len() - 6) as nat) + " more findings"@,
        ),
{
}

/// Reports are printed one by one, in their order: each with its line, and with its findings
/// unless the run is quiet.
pub proof fn law_scans_are_printed_one_by_one(a: Seq<Json>, b: Seq<Json>, quiet: bool, report: Json)
    ensures
        scan_text(a + b, quiet) == scan_text(a, quiet) + scan_text(b, quiet),
        scan_text(seq![report], true) == seq![Printed::Stdout(scan_line(report))],
        scan_text(seq![report], false) == seq![Printed::Stdout(scan_line(report))] + finding_lines(
            findings_of(report),
        ),
        scan_text(Seq::empty(), quiet) == Seq::<Printed>::empty(),
    decreases b.len(),
{
    let one = seq![report];
    let none = Seq::<Printed>::empty();
    assert(one.drop_last() =~= Seq::empty());
    assert(scan_text(one.drop_last(), true) =~= none);
    assert(scan_text(one.drop_last(), false) =~= none);
    assert(scan_text(one, true) =~= scan_lines(report, true));
    assert(scan_lines(report, true) =~= seq![Printed::Stdout(scan_line(report))]);
    assert(scan_text(one, false) =~= scan_lines(report, false));
    if b.len() == 0 {
        assert(a + b =~= a);
        assert(scan_text(a, quiet) + scan_text(b, quiet) =~= scan_text(a, quiet));
    } else {
        assert((a + b).drop_last() =~= a + b.drop_last());
        assert((a + b).last() == b.last());
        law_scans_are_printed_one_by_one(a, b.drop_last(), quiet, report);
        assert(scan_text(a + b, quiet) =~= scan_text(a, quiet) + scan_text(b, quiet));
    }
}

} // verus!
