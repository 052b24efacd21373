//! The commands: what they take, and what they share.
use vstd::hash_set::StringHashSet;
use vstd::prelude::*;

use crate::cmd::gate::GateArgs;
use crate::cmd::scan::ScanArgs;
use crate::entry::{entries, Ecosystem, Entry, LockfileEntry};
use crate::json::{json_views, law_field_written_is_read, lemma_json_view, with_field, Json, JsonRecord, JsonValue};
use crate::lists::texts;
use crate::text::{chars_of, contains_text, find, lemma_find, string_of, trim, trim_text};

pub mod gate;
pub mod scan;
pub mod scan_laws;
pub mod version;

verus! {

/// A command.
#[derive(Debug)]
pub enum Command {
    /// Ask the service whether package versions should be blocked.
    Gate(GateArgs),
    /// Fetch the full scan report of package versions.
    Scan(ScanArgs),
    /// Print the version of the program and the address of the API.
    Version,
}

/// What every command that talks to the API takes.
#[derive(Debug, Clone)]
pub struct CommonArgs {
    /// The API token.
    pub token: String,
    /// The address of the API.
    pub base_url: String,
    /// The timeout of a request in milliseconds, where one was given.
    pub timeout_ms: Option<u64>,
    /// The format of the output: `text` or `json`.
    pub format: String,
    /// Suppress what is not an error.
    pub quiet: bool,
}

/// The timeout of a request in milliseconds where none is given. It is generous, because a first
/// question about many packages has the server fetch and analyse each of them.
pub const DEFAULT_TIMEOUT_MS: u64 = 60000;

/// The timeout of a request: the flag wins over the configuration, and that over the default.
pub fn timeout(flag: Option<u64>, config: Option<u64>) -> (r: u64)
    ensures
        r == match (flag, config) {
            (Some(ms), _) => ms,
            (None, Some(ms)) => ms,
            (None, None) => DEFAULT_TIMEOUT_MS,
        },
{
    match flag {
        Some(ms) => ms,
        None => match config {
            Some(ms) => ms,
            None => DEFAULT_TIMEOUT_MS,
        },
    }
}

// ---------------------------------------------------------------------------
// Output
// ---------------------------------------------------------------------------

/// A line of output, as a mathematical value.
pub enum Printed {
    Stdout(Seq<char>),
    Stderr(Seq<char>),
}

/// A line of output: to the standard output, or to the standard error.
#[derive(Debug, PartialEq, Eq)]
pub enum Line {
    Stdout(String),
    Stderr(String),
}

impl View for Line {
    type V = Printed;

    open spec fn view(&self) -> Printed {
        match self {
            Line::Stdout(s) => Printed::Stdout(s@),
            Line::Stderr(s) => Printed::Stderr(s@),
        }
    }
}

/// The lines of a list.
pub open spec fn printed(v: Seq<Line>) -> Seq<Printed> {
    Seq::new(v.len(), |i: int| v[i]@)
}

/// What a command prints, and the code with which it exits.
#[derive(Debug)]
pub struct Outcome {
    pub lines: Vec<Line>,
    pub code: i32,
}

/// Adds a line.
pub fn push_line(lines: &mut Vec<Line>, line: Line)
    ensures
        printed(final(lines)@) == printed(old(lines)@).push(line@),
{
    lines.push(line);
    assert(printed(lines@) =~= printed(old(lines)@).push(line@));
}

// ---------------------------------------------------------------------------
// Candidates
// ---------------------------------------------------------------------------

/// The spec that an argument gives, and its ecosystem: the one that is forced; else PyPI where
/// it has `==`, and npm otherwise.
pub open spec fn cli_spec(raw: Seq<char>, forced: Option<Ecosystem>) -> (Ecosystem, Seq<char>) {
    match forced {
        Some(ecosystem) => (ecosystem, trim(raw)),
        None => if find(trim(raw), "=="@) is Some {
            (Ecosystem::Pypi, trim(raw))
        } else {
            (Ecosystem::Npm, trim(raw))
        },
    }
}

/// The specs that arguments give.
pub open spec fn cli_specs(raws: Seq<Seq<char>>, forced: Option<Ecosystem>) -> Seq<(Ecosystem, Seq<char>)> {
    Seq::new(raws.len(), |i: int| cli_spec(raws[i], forced))
}

/// The specs of lockfile entries.
pub open spec fn entry_specs(list: Seq<Entry>) -> Seq<(Ecosystem, Seq<char>)> {
    Seq::new(list.len(), |i: int| (list[i].ecosystem, list[i].spec_text()))
}

/// An argument gives its text without the white space around it. Its ecosystem is the one that is
/// forced; where none is, a text with `==` somewhere in it is of PyPI, and any other of npm.
pub proof fn law_argument_gives_its_spec(raw: Seq<char>, forced: Ecosystem)
    ensures
        cli_spec(raw, Some(forced)) == (forced, trim(raw)),
        cli_spec(raw, None).1 == trim(raw),
        cli_spec(raw, None).0 is Pypi || cli_spec(raw, None).0 is Npm,
        cli_spec(raw, None).0 is Pypi <==> exists|a: Seq<char>, b: Seq<char>| trim(raw) == #[trigger] (a + "=="@ + b),
{
    let t = trim(raw);
    lemma_find(t, "=="@);
    if find(t, "=="@) is Some {
        let i = find(t, "=="@).unwrap();
        assert(t =~= t.take(i) + "=="@ + t.skip(i + "=="@.len()));
    }
    if exists|a: Seq<char>, b: Seq<char>| t == #[trigger] (a + "=="@ + b) {
        let (a, b) = choose|a: Seq<char>, b: Seq<char>| t == #[trigger] (a + "=="@ + b);
        assert(t.subrange(a.len() as int, (a.len() + "=="@.len()) as int) =~= "=="@);
        assert(crate::text::match_at(t, "=="@, a.len() as int));
    }
}

/// The candidates of a list, as mathematical values.
pub open spec fn candidates(v: Seq<(Ecosystem, String)>) -> Seq<(Ecosystem, Seq<char>)> {
    Seq::new(v.len(), |i: int| (v[i].0, v[i].1@))
}

/// The spec that an argument gives, and its ecosystem by the version separator: `==` is PyPI,
/// anything else npm.
pub fn classify_cli_spec(raw: &str) -> (r: (Ecosystem, String))
    ensures
        (r.0, r.1@) == cli_spec(raw@, None),
{
    let chars: Vec<char> = chars_of(raw);
    let bare: &[char] = trim_text(chars.as_slice());
    if contains_text(bare, "==") {
        (Ecosystem::Pypi, string_of(bare))
    } else {
        (Ecosystem::Npm, string_of(bare))
    }
}

/// Adds the specs that arguments give.
pub fn add_cli_specs(out: &mut Vec<(Ecosystem, String)>, raws: &[String], forced: Option<Ecosystem>)
    ensures
        candidates(final(out)@) == candidates(old(out)@) + cli_specs(texts(raws@), forced),
{
    let ghost before = candidates(out@);
    let ghost all = cli_specs(texts(raws@), forced);
    let mut i: usize = 0;
    assert(before =~= before + all.take(0));
    while i < raws.len()
        invariant
            i <= raws.len(),
            all == cli_specs(texts(raws@), forced),
            candidates(out@) == before + all.take(i as int),
        decreases raws.len() - i,
    {
        let next: (Ecosystem, String) = match forced {
            Some(ecosystem) => {
                let chars: Vec<char> = chars_of(raws[i].as_str());
                (ecosystem, string_of(trim_text(chars.as_slice())))
            },
            None => classify_cli_spec(raws[i].as_str()),
        };
        assert((next.0, next.1@) == all[i as int]);
        let ghost done = candidates(out@);
        out.push(next);
        assert(candidates(out@) =~= done.push(all[i as int]));
        assert(before + all.take(i + 1) =~= (before + all.take(i as int)).push(all[i as int]));
        i += 1;
    }
    assert(all.take(i as int) =~= all);
}

/// Adds the specs of lockfile entries.
pub fn add_entries(out: &mut Vec<(Ecosystem, String)>, list: &[LockfileEntry])
    ensures
        candidates(final(out)@) == candidates(old(out)@) + entry_specs(entries(list@)),
{
    let ghost before = candidates(out@);
    let ghost all = entry_specs(entries(list@));
    let mut i: usize = 0;
    assert(before =~= before + all.take(0));
    while i < list.len()
        invariant
            i <= list.len(),
            all == entry_specs(entries(list@)),
            candidates(out@) == before + all.take(i as int),
        decreases list.len() - i,
    {
        let spec: String = list[i].spec();
        let ghost done = candidates(out@);
        out.push((list[i].ecosystem, spec));
        assert(candidates(out@) =~= done.push(all[i as int]));
        assert(before + all.take(i + 1) =~= (before + all.take(i as int)).push(all[i as int]));
        i += 1;
    }
    assert(all.take(i as int) =~= all);
}

// ---------------------------------------------------------------------------
// Specs of an ecosystem
// ---------------------------------------------------------------------------

/// The specs of an ecosystem among the candidates that `keep` holds of, each once, in the order
/// in which they come first.
pub open spec fn picked(
    all: Seq<(Ecosystem, Seq<char>)>,
    ecosystem: Ecosystem,
    keep: spec_fn(Seq<char>) -> bool,
) -> Seq<Seq<char>>
    decreases all.len(),
{
    if all.len() == 0 {
        Seq::empty()
    } else {
        let front = picked(all.drop_last(), ecosystem, keep);
        let (e, s) = all.last();
        if e == ecosystem && s.len() > 0 && keep(s) && !front.contains(s) {
            front.push(s)
        } else {
            front
        }
    }
}

/// A spec is picked if and only if it is a candidate of the ecosystem, not empty, and `keep`
/// holds of it.
pub proof fn law_picked_are_the_kept_candidates(
    all: Seq<(Ecosystem, Seq<char>)>,
    ecosystem: Ecosystem,
    keep: spec_fn(Seq<char>) -> bool,
    s: Seq<char>,
)
    ensures
        picked(all, ecosystem, keep).contains(s) <==> all.contains((ecosystem, s)) && s.len() > 0 && keep(s),
    decreases all.len(),
{
    if all.len() > 0 {
        let rest = all.drop_last();
        let front = picked(rest, ecosystem, keep);
        law_picked_are_the_kept_candidates(rest, ecosystem, keep, s);
        law_picked_are_the_kept_candidates(rest, ecosystem, keep, all.last().1);
        assert(all[all.len() - 1] == all.last());
        if rest.contains((ecosystem, s)) {
            let i = choose|i: int| 0 <= i < rest.len() && rest[i] == (ecosystem, s);
            assert(all[i] == (ecosystem, s));
        }
        if all.contains((ecosystem, s)) && all.last() != (ecosystem, s) {
            let i = choose|i: int| 0 <= i < all.len() && all[i] == (ecosystem, s);
            assert(rest[i] == (ecosystem, s));
        }
        let out = picked(all, ecosystem, keep);
        if out.len() > front.len() {
            assert(out[front.len() as int] == all.last().1);
            if front.contains(s) {
                let i = choose|i: int| 0 <= i < front.len() && front[i] == s;
                assert(out[i] == s);
            }
            if out.contains(s) && s != all.last().1 {
                let i = choose|i: int| 0 <= i < out.len() && out[i] == s;
                assert(front[i] == s);
            }
        }
    }
}

/// No spec is picked twice.
pub proof fn law_picked_once(
    all: Seq<(Ecosystem, Seq<char>)>,
    ecosystem: Ecosystem,
    keep: spec_fn(Seq<char>) -> bool,
)
    ensures
        picked(all, ecosystem, keep).no_duplicates(),
    decreases all.len(),
{
    if all.len() > 0 {
        law_picked_once(all.drop_last(), ecosystem, keep);
        let front = picked(all.drop_last(), ecosystem, keep);
        let out = picked(all, ecosystem, keep);
        assert forall|i: int, j: int| 0 <= i < out.len() && 0 <= j < out.len() && i != j implies out[i]
            != out[j] by {
            if i < front.len() && j < front.len() {
                assert(front[i] != front[j]);
            } else if i < front.len() {
                assert(front.contains(front[i]));
            } else {
                assert(front.contains(front[j]));
            }
        }
    }
}

/// What is picked of the first candidates stays in its place when more candidates follow.
pub proof fn law_first_candidates_come_first(
    a: Seq<(Ecosystem, Seq<char>)>,
    b: Seq<(Ecosystem, Seq<char>)>,
    ecosystem: Ecosystem,
    keep: spec_fn(Seq<char>) -> bool,
)
    ensures
        picked(a, ecosystem, keep).is_prefix_of(picked(a + b, ecosystem, keep)),
    decreases b.len(),
{
    let front = picked(a, ecosystem, keep);
    if b.len() == 0 {
        assert(a + b =~= a);
        assert(front =~= front.take(front.len() as int));
    } else {
        law_first_candidates_come_first(a, b.drop_last(), ecosystem, keep);
        assert((a + b).drop_last() =~= a + b.drop_last());
        let most = picked(a + b.drop_last(), ecosystem, keep);
        let whole = picked(a + b, ecosystem, keep);
        assert(whole.take(front.len() as int) =~= most.take(front.len() as int));
    }
}

/// The specs that are kept and those that are left out together are all specs.
proof fn lemma_kept_and_left_out(
    all: Seq<(Ecosystem, Seq<char>)>,
    ecosystem: Ecosystem,
    keep: spec_fn(Seq<char>) -> bool,
)
    ensures
        picked(all, ecosystem, keep).len() + picked(all, ecosystem, |s: Seq<char>| !keep(s)).len() == picked(
            all,
            ecosystem,
            |s: Seq<char>| true,
        ).len(),
    decreases all.len(),
{
    if all.len() > 0 {
        let front = all.drop_last();
        let s = all.last().1;
        lemma_kept_and_left_out(front, ecosystem, keep);
        law_picked_are_the_kept_candidates(front, ecosystem, keep, s);
        law_picked_are_the_kept_candidates(front, ecosystem, |x: Seq<char>| !keep(x), s);
        law_picked_are_the_kept_candidates(front, ecosystem, |x: Seq<char>| true, s);
    }
}

/// The ecosystem that the service asks about at a place.
pub open spec fn ecosystem_at(place: int) -> Ecosystem {
    if place == 0 {
        Ecosystem::Npm
    } else if place == 1 {
        Ecosystem::Pypi
    } else if place == 2 {
        Ecosystem::Rubygems
    } else if place == 3 {
        Ecosystem::Cargo
    } else if place == 4 {
        Ecosystem::Maven
    } else if place == 5 {
        Ecosystem::Nuget
    } else {
        Ecosystem::Composer
    }
}

/// The number of ecosystems.
pub const ECOSYSTEMS: usize = 7;

/// The ecosystem that the service asks about at a place.
pub fn nth_ecosystem(place: usize) -> (r: Ecosystem)
    ensures
        r == ecosystem_at(place as int),
{
    match place {
        0 => Ecosystem::Npm,
        1 => Ecosystem::Pypi,
        2 => Ecosystem::Rubygems,
        3 => Ecosystem::Cargo,
        4 => Ecosystem::Maven,
        5 => Ecosystem::Nuget,
        _ => Ecosystem::Composer,
    }
}

/// How many specs are picked of the first `n` ecosystems.
pub open spec fn picked_count(
    all: Seq<(Ecosystem, Seq<char>)>,
    keep: spec_fn(Seq<char>) -> bool,
    n: nat,
) -> nat
    decreases n,
{
    if n == 0 {
        0
    } else {
        picked_count(all, keep, (n - 1) as nat) + picked(all, ecosystem_at(n - 1), keep).len()
    }
}

/// No more specs are picked than there are candidates.
pub proof fn lemma_picked_count(
    all: Seq<(Ecosystem, Seq<char>)>,
    keep: spec_fn(Seq<char>) -> bool,
    n: nat,
)
    requires
        n <= 7,
    ensures
        picked_count(all, keep, n) <= all.len(),
    decreases all.len(),
{
    reveal_with_fuel(picked_count, 8);
    if all.len() > 0 {
        lemma_picked_count(all.drop_last(), keep, n);
    }
}

/// The specs that are kept and those that are left out add up to all specs: none is counted twice,
/// and none is lost.
pub proof fn law_kept_and_left_out_add_up(
    all: Seq<(Ecosystem, Seq<char>)>,
    keep: spec_fn(Seq<char>) -> bool,
    n: nat,
)
    ensures
        picked_count(all, keep, n) + picked_count(all, |s: Seq<char>| !keep(s), n) == picked_count(
            all,
            |s: Seq<char>| true,
            n,
        ),
    decreases n,
{
    if n > 0 {
        law_kept_and_left_out_add_up(all, keep, (n - 1) as nat);
        lemma_kept_and_left_out(all, ecosystem_at(n - 1), keep);
    }
}

/// Specs are counted if and only if there is one: a candidate that is not empty and that is kept.
pub proof fn law_something_is_counted_iff_something_is_kept(
    all: Seq<(Ecosystem, Seq<char>)>,
    keep: spec_fn(Seq<char>) -> bool,
)
    ensures
        picked_count(all, keep, 7) > 0 <==> exists|i: int|
            0 <= i < all.len() && (#[trigger] all[i]).1.len() > 0 && keep(all[i].1),
{
    reveal_with_fuel(picked_count, 8);
    if exists|i: int| 0 <= i < all.len() && (#[trigger] all[i]).1.len() > 0 && keep(all[i].1) {
        let i = choose|i: int| 0 <= i < all.len() && (#[trigger] all[i]).1.len() > 0 && keep(all[i].1);
        assert(all.contains((all[i].0, all[i].1)));
        law_picked_are_the_kept_candidates(all, all[i].0, keep, all[i].1);
    }
    if picked_count(all, keep, 7) > 0 {
        let place = choose|place: int| 0 <= place < 7 && picked(all, #[trigger] ecosystem_at(place), keep).len() > 0;
        assert(picked(all, ecosystem_at(0), keep).len() > 0 || picked(all, ecosystem_at(1), keep).len() > 0
            || picked(all, ecosystem_at(2), keep).len() > 0 || picked(all, ecosystem_at(3), keep).len() > 0
            || picked(all, ecosystem_at(4), keep).len() > 0 || picked(all, ecosystem_at(5), keep).len() > 0
            || picked(all, ecosystem_at(6), keep).len() > 0);
        let e = ecosystem_at(place);
        let some = picked(all, e, keep);
        assert(some.contains(some[0]));
        law_picked_are_the_kept_candidates(all, e, keep, some[0]);
        let i = choose|i: int| 0 <= i < all.len() && all[i] == (e, some[0]);
        assert(all[i].1 == some[0]);
    }
}

/// A list of strings as a set.
pub fn text_set(list: &[String]) -> (r: StringHashSet)
    ensures
        forall|s: Seq<char>| #[trigger] r@.contains(s) <==> texts(list@).contains(s),
{
    let mut r: StringHashSet = StringHashSet::new();
    let mut i: usize = 0;
    while i < list.len()
        invariant
            i <= list.len(),
            forall|s: Seq<char>| #[trigger]
                r@.contains(s) <==> exists|k: int| 0 <= k < i && #[trigger] texts(list@)[k] == s,
        decreases list.len() - i,
    {
        let ghost before = r@;
        r.insert(list[i].clone());
        assert forall|s: Seq<char>| #[trigger]
            r@.contains(s) <==> exists|k: int| 0 <= k < i + 1 && #[trigger] texts(list@)[k] == s by {
            assert(texts(list@)[i as int] == list@[i as int]@);
            assert(r@.contains(s) <==> before.contains(s) || s == list@[i as int]@);
        }
        i += 1;
    }
    assert forall|s: Seq<char>| #[trigger] r@.contains(s) <==> texts(list@).contains(s) by {
        if texts(list@).contains(s) {
            let k = choose|k: int| 0 <= k < texts(list@).len() && texts(list@)[k] == s;
            assert(texts(list@)[k] == s);
        }
    }
    r
}

/// The specs of an ecosystem among the candidates that are in `set`, or that are not in it, each
/// once.
pub fn pick(all: &[(Ecosystem, String)], ecosystem: Ecosystem, set: &StringHashSet, inside: bool) -> (r: Vec<
    String,
>)
    ensures
        texts(r@) == picked(
            candidates(all@),
            ecosystem,
            |s: Seq<char>| set@.contains(s) == inside,
        ),
{
    let ghost list = candidates(all@);
    let ghost keep = |s: Seq<char>| set@.contains(s) == inside;
    let mut out: Vec<String> = Vec::new();
    let mut seen: StringHashSet = StringHashSet::new();
    let mut i: usize = 0;
    assert(texts(out@) =~= Seq::empty());
    assert(list.take(0) =~= Seq::empty());
    while i < all.len()
        invariant
            i <= all.len(),
            list == candidates(all@),
            keep == (|s: Seq<char>| set@.contains(s) == inside),
            texts(out@) == picked(list.take(i as int), ecosystem, keep),
            forall|s: Seq<char>| #[trigger] seen@.contains(s) <==> texts(out@).contains(s),
        decreases all.len() - i,
    {
        assert(list.take(i + 1).drop_last() =~= list.take(i as int));
        assert(list.take(i + 1).last() == list[i as int]);
        let spec: &String = &all[i].1;
        assert(list[i as int] == (all@[i as int].0, spec@));
        let ghost before = texts(out@);
        if all[i].0 == ecosystem && !spec.as_str().is_empty() && set.contains(spec.as_str()) == inside {
            if seen.insert(spec.clone()) {
                out.push(spec.clone());
                assert(texts(out@) =~= before.push(spec@));
                assert forall|s: Seq<char>| #[trigger] seen@.contains(s) <==> texts(out@).contains(s) by {
                    if before.contains(s) {
                        let k = choose|k: int| 0 <= k < before.len() && before[k] == s;
                        assert(texts(out@)[k] == s);
                    }
                    assert(texts(out@)[before.len() as int] == spec@);
                    if texts(out@).contains(s) && s != spec@ {
                        let k = choose|k: int| 0 <= k < texts(out@).len() && texts(out@)[k] == s;
                        assert(before[k] == s);
                    }
                }
            } else {
                assert(seen@ =~= seen@.insert(spec@));
            }
        }
        i += 1;
    }
    assert(list.take(i as int) =~= list);
    out
}

// ---------------------------------------------------------------------------
// Reports
// ---------------------------------------------------------------------------

/// A report with the ecosystem that it is about, where the server did not say it.
pub open spec fn tagged(report: Json, ecosystem: Seq<char>) -> Json {
    match report {
        Json::Record(fields) => if report.field("ecosystem"@) is None {
            Json::Record(with_field(fields, "ecosystem"@, Json::Text(ecosystem)))
        } else {
            report
        },
        _ => report,
    }
}

/// A report that is a record tells its ecosystem once it is tagged, and its other fields stay as
/// they were.
pub proof fn law_tagged_record_tells_its_ecosystem(report: Json, ecosystem: Seq<char>, key: Seq<char>)
    requires
        report is Record,
    ensures
        tagged(report, ecosystem).field("ecosystem"@) is Some,
        report.field("ecosystem"@) is None ==> tagged(report, ecosystem).field_text("ecosystem"@) == Some(
            ecosystem,
        ),
        key != "ecosystem"@ ==> tagged(report, ecosystem).field(key) == report.field(key),
        report.field("ecosystem"@) is Some ==> tagged(report, ecosystem) == report,
{
    law_field_written_is_read(report->Record_0, "ecosystem"@, Json::Text(ecosystem), key);
}

/// A report with the ecosystem that it is about, where the server did not say it.
pub fn tag(report: JsonValue, ecosystem: Ecosystem) -> (r: JsonValue)
    ensures
        r@ == tagged(report@, ecosystem.label()),
{
    match report.get("ecosystem") {
        Some(_) => {
            return report;
        },
        None => {},
    }
    match report {
        JsonValue::Record(record) => {
            proof {
                lemma_json_view(report);
            }
            let more: JsonRecord = record.with(
                "ecosystem".to_owned(),
                JsonValue::Text(ecosystem.as_str().to_owned()),
            );
            JsonValue::record(more)
        },
        other => other,
    }
}

/// Reports with the ecosystem that they are about.
pub open spec fn all_tagged(reports: Seq<Json>, ecosystem: Ecosystem) -> Seq<Json> {
    Seq::new(reports.len(), |i: int| tagged(reports[i], ecosystem.label()))
}

/// Adds reports, each with the ecosystem that it is about.
pub fn add_reports(out: &mut Vec<JsonValue>, reports: Vec<JsonValue>, ecosystem: Ecosystem)
    ensures
        json_views(final(out)@) == json_views(old(out)@) + all_tagged(json_views(reports@), ecosystem),
{
    let ghost before = json_views(out@);
    let ghost all = all_tagged(json_views(reports@), ecosystem);
    assert(before + all.take(0) =~= before);
    for report in it: reports
        invariant
            it.seq() == reports@,
            all == all_tagged(json_views(reports@), ecosystem),
            json_views(out@) == before + all.take(it.index() as int),
    {
        let ghost i = it.index() as int;
        let ghost done = json_views(out@);
        let next: JsonValue = tag(report, ecosystem);
        assert(next@ == all[i]);
        out.push(next);
        assert(json_views(out@) =~= done.push(all[i]));
        assert(before + all.take(i + 1) =~= (before + all.take(i)).push(all[i]));
    }
    assert(all.take(reports@.len() as int) =~= all);
}

} // verus!
