//! `pkgradar gate`: asks the service about package versions, and fails where it blocks one.
use vstd::hash_set::StringHashSet;
use vstd::prelude::*;

use crate::cmd::{
    add_cli_specs, add_entries, candidates, cli_spec, cli_specs, ecosystem_at, entry_specs,
    law_kept_and_left_out_add_up, law_picked_are_the_kept_candidates, law_picked_once, lemma_picked_count, nth_ecosystem, pick, picked, picked_count, text_set, timeout, CommonArgs, DEFAULT_TIMEOUT_MS, ECOSYSTEMS,
};
use crate::config::RepoConfig;
use crate::entry::{entries, Ecosystem, Entry, LockfileEntry};
use crate::lists::{chunks, joined_parts, law_chunks_make_up_the_list, lemma_filter_contains, lemma_filter_ends, lemma_filter_next, texts};
use crate::lockfile::{is_lockfile_name, kind_of, unicode_lower};
use crate::text::{chars_of, equals};

pub mod render;
pub mod render_laws;
pub mod session;
pub mod session_laws;

verus! {

/// What `gate` takes.
#[derive(Debug)]
pub struct GateArgs {
    /// Package specs, such as `lodash@4.17.21` (npm), `requests==2.31.0` (PyPI) or `rails@8.0.0`
    /// (RubyGems, with `--ecosystem rubygems`).
    pub specs: Vec<String>,
    /// The ecosystem of the specs, where it is forced.
    pub ecosystem: Option<String>,
    /// Block when the risk of a spec is at or above this level.
    pub fail_on: Option<String>,
    /// Block also on known vulnerabilities at or above this severity.
    pub fail_on_cve: Option<String>,
    /// The path of a lockfile whose entries are gated.
    pub lockfile: Option<String>,
    /// The git ref against which the lockfile is compared, so that only what is new is gated.
    pub baseline: Option<String>,
    /// The path of the configuration.
    pub config: Option<String>,
    /// Exit with an error where the API cannot be reached.
    pub no_fail_open: bool,
    pub common: CommonArgs,
}

// ---------------------------------------------------------------------------
// Settings
// ---------------------------------------------------------------------------

/// What flags and configuration settle.
#[derive(Debug)]
pub struct Settings {
    /// Block when the risk of a spec is at or above this level.
    pub fail_on: String,
    /// Block also on known vulnerabilities at or above this severity.
    pub fail_on_cve: Option<String>,
    /// The timeout of a request in milliseconds.
    pub timeout_ms: u64,
    /// Whether a call that fails lets the build pass.
    pub fail_open: bool,
}

/// The characters of an optional string.
pub open spec fn text_of(s: Option<String>) -> Option<Seq<char>> {
    match s {
        Some(t) => Some(t@),
        None => None,
    }
}

/// The flag where it is given, else the configuration.
pub open spec fn first_of(flag: Option<String>, config: Option<String>) -> Option<Seq<char>> {
    match flag {
        Some(t) => Some(t@),
        None => text_of(config),
    }
}

/// A flag settles a value whatever the configuration says; without it the configuration does.
pub proof fn law_flag_wins_over_configuration(value: String, config: Option<String>)
    ensures
        first_of(Some(value), config) == Some(value@),
        first_of(None, Some(value)) == Some(value@),
        first_of(None, None) is None,
{
}

/// The flag where it is given, else the configuration.
fn first(flag: &Option<String>, config: &Option<String>) -> (r: Option<String>)
    ensures
        text_of(r) == first_of(*flag, *config),
{
    match flag {
        Some(t) => Some(t.clone()),
        None => match config {
            Some(t) => Some(t.clone()),
            None => None,
        },
    }
}

/// What the flags and the configuration settle: a flag wins over the configuration, and that over
/// the default. Known vulnerabilities do not block unless a severity is set, and a call
/// that fails lets the build pass unless that is switched off.
pub fn settings(args: &GateArgs, config: &RepoConfig) -> (r: Settings)
    ensures
        r.fail_on@ == match first_of(args.fail_on, config.fail_on) {
            Some(level) => level,
            None => "high"@,
        },
        text_of(r.fail_on_cve) == first_of(args.fail_on_cve, config.fail_on_cve),
        r.timeout_ms == match (args.common.timeout_ms, config.timeout_ms) {
            (Some(ms), _) => ms,
            (None, Some(ms)) => ms,
            (None, None) => DEFAULT_TIMEOUT_MS,
        },
        r.fail_open == (!args.no_fail_open && config.fail_open != Some(false)),
{
    let fail_on: String = match first(&args.fail_on, &config.fail_on) {
        Some(level) => level,
        None => "high".to_owned(),
    };
    let fail_open: bool = if args.no_fail_open {
        false
    } else {
        match config.fail_open {
            Some(open) => open,
            None => true,
        }
    };
    Settings {
        fail_on,
        fail_on_cve: first(&args.fail_on_cve, &config.fail_on_cve),
        timeout_ms: timeout(args.common.timeout_ms, config.timeout_ms),
        fail_open,
    }
}

/// The ecosystem with a name.
pub open spec fn ecosystem_named(name: Seq<char>) -> Option<Ecosystem> {
    if name == "npm"@ {
        Some(Ecosystem::Npm)
    } else if name == "pypi"@ {
        Some(Ecosystem::Pypi)
    } else if name == "rubygems"@ {
        Some(Ecosystem::Rubygems)
    } else if name == "cargo"@ {
        Some(Ecosystem::Cargo)
    } else if name == "maven"@ {
        Some(Ecosystem::Maven)
    } else if name == "nuget"@ {
        Some(Ecosystem::Nuget)
    } else if name == "composer"@ {
        Some(Ecosystem::Composer)
    } else {
        None
    }
}

/// Every ecosystem is found by its name.
pub proof fn law_label_names_ecosystem(ecosystem: Ecosystem)
    ensures
        ecosystem_named(ecosystem.label()) == Some(ecosystem),
{
    reveal_strlit("npm");
    reveal_strlit("pypi");
    reveal_strlit("rubygems");
    reveal_strlit("cargo");
    reveal_strlit("maven");
    reveal_strlit("nuget");
    reveal_strlit("composer");
    assert("npm"@.len() == 3 && "pypi"@.len() == 4 && "rubygems"@.len() == 8 && "composer"@.len() == 8);
    assert("rubygems"@[0] == 'r' && "composer"@[0] == 'c');
    assert("cargo"@[0] == 'c' && "maven"@[0] == 'm' && "nuget"@[0] == 'n');
    assert("cargo"@.len() == 5 && "maven"@.len() == 5 && "nuget"@.len() == 5);
}

/// A name is that of an ecosystem if and only if it is its label, letter for letter.
pub proof fn law_ecosystem_is_forced_by_its_label_alone(name: String, ecosystem: Ecosystem)
    ensures
        forced_by(Some(name)) == Some(ecosystem) <==> name@ == ecosystem.label(),
        forced_by(None) is None,
{
    law_label_names_ecosystem(ecosystem);
}

/// The ecosystem that `--ecosystem` forces.
pub open spec fn forced_by(flag: Option<String>) -> Option<Ecosystem> {
    match flag {
        Some(name) => ecosystem_named(name@),
        None => None,
    }
}

/// The ecosystem that `--ecosystem` forces.
pub fn forced_ecosystem(flag: &Option<String>) -> (r: Option<Ecosystem>)
    ensures
        r == forced_by(*flag),
{
    let name: Vec<char> = match flag {
        Some(name) => chars_of(name.as_str()),
        None => {
            return None;
        },
    };
    let n: &[char] = name.as_slice();
    if equals(n, "npm") {
        Some(Ecosystem::Npm)
    } else if equals(n, "pypi") {
        Some(Ecosystem::Pypi)
    } else if equals(n, "rubygems") {
        Some(Ecosystem::Rubygems)
    } else if equals(n, "cargo") {
        Some(Ecosystem::Cargo)
    } else if equals(n, "maven") {
        Some(Ecosystem::Maven)
    } else if equals(n, "nuget") {
        Some(Ecosystem::Nuget)
    } else if equals(n, "composer") {
        Some(Ecosystem::Composer)
    } else {
        None
    }
}

/// The lockfiles that are gated: the one that was given; where none was and there is a baseline to
/// compare with, those among the files of the working directory.
pub open spec fn chosen(lockfile: Option<String>, baseline: Option<String>, files: Seq<Seq<char>>) -> Seq<
    Seq<char>,
> {
    match (lockfile, baseline) {
        (Some(path), _) => seq![path@],
        (None, Some(_)) => files.filter(|name: Seq<char>| kind_of(unicode_lower(name)) is Some),
        (None, None) => Seq::empty(),
    }
}

/// A lockfile that is given is the only one that is gated, whatever the baseline. Without one, a
/// baseline has every file gated whose name is that of a lockfile, in any case of its letters, and
/// no other; without either, none is.
pub proof fn law_lockfiles_are_found_by_name(
    path: String,
    baseline: Option<String>,
    git_ref: String,
    files: Seq<Seq<char>>,
    name: Seq<char>,
)
    ensures
        chosen(Some(path), baseline, files) == seq![path@],
        chosen(None, Some(git_ref), files).contains(name) <==> files.contains(name) && kind_of(
            unicode_lower(name),
        ) is Some,
        chosen(None, None, files) == Seq::<Seq<char>>::empty(),
{
    lemma_filter_contains(files, |x: Seq<char>| kind_of(unicode_lower(x)) is Some, name);
}

/// The lockfiles that are gated. `files` has the names of the files in the working directory.
pub fn chosen_lockfiles(args: &GateArgs, files: &[String]) -> (r: Vec<String>)
    ensures
        texts(r@) == chosen(args.lockfile, args.baseline, texts(files@)),
{
    let mut out: Vec<String> = Vec::new();
    assert(texts(out@) =~= Seq::empty());
    match (&args.lockfile, &args.baseline) {
        (Some(path), _) => {
            out.push(path.clone());
            assert(texts(out@) =~= seq![path@]);
        },
        (None, Some(_)) => {
            let ghost all = texts(files@);
            let ghost keep = |name: Seq<char>| kind_of(unicode_lower(name)) is Some;
            let mut i: usize = 0;
            proof {
                lemma_filter_ends(all, keep);
            }
            while i < files.len()
                invariant
                    i <= files.len(),
                    all == texts(files@),
                    keep == (|name: Seq<char>| kind_of(unicode_lower(name)) is Some),
                    texts(out@) == all.take(i as int).filter(keep),
                decreases files.len() - i,
            {
                proof {
                    lemma_filter_next(all, keep, i as int);
                }
                if is_lockfile_name(files[i].as_str()) {
                    let ghost before = texts(out@);
                    out.push(files[i].clone());
                    assert(texts(out@) =~= before.push(all[i as int]));
                }
                i += 1;
            }
        },
        (None, None) => {},
    }
    out
}

// ---------------------------------------------------------------------------
// The plan
// ---------------------------------------------------------------------------

/// The number of specs that one request asks about at most.
pub const GATE_BATCH: usize = 25;

/// Specs that one request asks about.
#[derive(Debug)]
pub struct Batch {
    pub ecosystem: Ecosystem,
    pub specs: Vec<String>,
}

impl View for Batch {
    type V = (Ecosystem, Seq<Seq<char>>);

    open spec fn view(&self) -> (Ecosystem, Seq<Seq<char>>) {
        (self.ecosystem, texts(self.specs@))
    }
}

/// The batches of a list.
pub open spec fn batches(v: Seq<Batch>) -> Seq<(Ecosystem, Seq<Seq<char>>)> {
    Seq::new(v.len(), |i: int| v[i]@)
}

/// How many specs batches hold.
pub open spec fn spec_count(list: Seq<(Ecosystem, Seq<Seq<char>>)>) -> nat
    decreases list.len(),
{
    if list.len() == 0 {
        0
    } else {
        spec_count(list.drop_last()) + list.last().1.len()
    }
}

/// Everything that may be gated: the specs of the command line, then the watchlist, then the
/// entries of the lockfile.
pub open spec fn gate_candidates(
    args: GateArgs,
    config: RepoConfig,
    list: Seq<Entry>,
) -> Seq<(Ecosystem, Seq<char>)> {
    cli_specs(texts(args.specs@) + texts(config.watchlist@), forced_by(args.ecosystem)) + entry_specs(list)
}

/// The specs of an ecosystem that are gated: the candidates that the allowlist does not have.
pub open spec fn gated(
    all: Seq<(Ecosystem, Seq<char>)>,
    allowlist: Seq<Seq<char>>,
    ecosystem: Ecosystem,
) -> Seq<Seq<char>> {
    picked(all, ecosystem, |s: Seq<char>| !allowlist.contains(s))
}

/// The batches in which the service is asked about specs of one ecosystem.
pub open spec fn batches_for(ecosystem: Ecosystem, specs: Seq<Seq<char>>) -> Seq<
    (Ecosystem, Seq<Seq<char>>),
> {
    Seq::new(
        chunks(specs, GATE_BATCH as nat).len(),
        |i: int| (ecosystem, chunks(specs, GATE_BATCH as nat)[i]),
    )
}

/// The batches in which the service is asked about the first `n` ecosystems.
pub open spec fn planned(
    all: Seq<(Ecosystem, Seq<char>)>,
    allowlist: Seq<Seq<char>>,
    n: nat,
) -> Seq<(Ecosystem, Seq<Seq<char>>)>
    decreases n,
{
    if n == 0 {
        Seq::empty()
    } else {
        planned(all, allowlist, (n - 1) as nat) + batches_for(
            ecosystem_at(n - 1),
            gated(all, allowlist, ecosystem_at(n - 1)),
        )
    }
}

/// The batches of a list of specs are its first part, and those of the rest.
proof fn lemma_batches_next(ecosystem: Ecosystem, specs: Seq<Seq<char>>)
    ensures
        specs.len() == 0 ==> batches_for(ecosystem, specs).len() == 0,
        0 < specs.len() <= 25 ==> batches_for(ecosystem, specs) == seq![(ecosystem, specs)],
        specs.len() > 25 ==> batches_for(ecosystem, specs) == seq![(ecosystem, specs.take(25))] + batches_for(
            ecosystem,
            specs.skip(25),
        ),
{
    if 0 < specs.len() <= 25 {
        assert(batches_for(ecosystem, specs) =~= seq![(ecosystem, specs)]);
    } else if specs.len() > 25 {
        assert(batches_for(ecosystem, specs) =~= seq![(ecosystem, specs.take(25))] + batches_for(
            ecosystem,
            specs.skip(25),
        ));
    }
}

/// How many specs two lists of batches hold together.
proof fn lemma_count_sum(a: Seq<(Ecosystem, Seq<Seq<char>>)>, b: Seq<(Ecosystem, Seq<Seq<char>>)>)
    ensures
        spec_count(a + b) == spec_count(a) + spec_count(b),
    decreases b.len(),
{
    if b.len() == 0 {
        assert(a + b =~= a);
    } else {
        lemma_count_sum(a, b.drop_last());
        assert((a + b).drop_last() =~= a + b.drop_last());
        assert((a + b).last() == b.last());
    }
}

/// The batches of one ecosystem hold all its specs.
proof fn lemma_batches_count(ecosystem: Ecosystem, specs: Seq<Seq<char>>)
    ensures
        spec_count(batches_for(ecosystem, specs)) == specs.len(),
    decreases specs.len(),
{
    lemma_batches_next(ecosystem, specs);
    if specs.len() == 0 {
    } else if specs.len() <= 25 {
        let one = seq![(ecosystem, specs)];
        assert(one.drop_last() =~= Seq::empty());
        assert(spec_count(one.drop_last()) == 0);
    } else {
        let one = seq![(ecosystem, specs.take(25))];
        assert(one.drop_last() =~= Seq::empty());
        assert(spec_count(one.drop_last()) == 0);
        lemma_batches_count(ecosystem, specs.skip(25));
        lemma_count_sum(one, batches_for(ecosystem, specs.skip(25)));
    }
}

/// The batches hold as many specs as are gated.
pub proof fn law_batches_hold_every_gated_spec(
    all: Seq<(Ecosystem, Seq<char>)>,
    allowlist: Seq<Seq<char>>,
    n: nat,
)
    ensures
        spec_count(planned(all, allowlist, n)) == picked_count(
            all,
            |s: Seq<char>| !allowlist.contains(s),
            n,
        ),
    decreases n,
{
    if n > 0 {
        law_batches_hold_every_gated_spec(all, allowlist, (n - 1) as nat);
        let e = ecosystem_at(n - 1);
        lemma_batches_count(e, gated(all, allowlist, e));
        lemma_count_sum(
            planned(all, allowlist, (n - 1) as nat),
            batches_for(e, gated(all, allowlist, e)),
        );
    }
}

/// Every batch asks about at least one spec and about no more than a request takes, and every
/// spec in it is one that is gated: a candidate of its ecosystem that is not allowlisted.
pub proof fn law_batches_are_bounded_and_gated(
    all: Seq<(Ecosystem, Seq<char>)>,
    allowlist: Seq<Seq<char>>,
    n: nat,
    i: int,
)
    requires
        0 <= i < planned(all, allowlist, n).len(),
    ensures
        0 < planned(all, allowlist, n)[i].1.len() <= GATE_BATCH,
        forall|k: int|
            #![trigger planned(all, allowlist, n)[i].1[k]]
            0 <= k < planned(all, allowlist, n)[i].1.len() ==> {
                &&& all.contains((planned(all, allowlist, n)[i].0, planned(all, allowlist, n)[i].1[k]))
                &&& planned(all, allowlist, n)[i].1[k].len() > 0
                &&& !allowlist.contains(planned(all, allowlist, n)[i].1[k])
            },
    decreases n,
{
    let before = planned(all, allowlist, (n - 1) as nat);
    let e = ecosystem_at(n - 1);
    let specs = gated(all, allowlist, e);
    if i < before.len() {
        law_batches_are_bounded_and_gated(all, allowlist, (n - 1) as nat, i);
        assert(planned(all, allowlist, n)[i] == before[i]);
    } else {
        let parts = chunks(specs, GATE_BATCH as nat);
        let j = i - before.len();
        law_chunks_make_up_the_list(specs, GATE_BATCH as nat);
        assert(planned(all, allowlist, n)[i] == (e, parts[j]));
        assert(0 < parts[j].len() <= GATE_BATCH);
        assert forall|k: int| 0 <= k < parts[j].len() implies {
            &&& all.contains((e, #[trigger] parts[j][k]))
            &&& parts[j][k].len() > 0
            &&& !allowlist.contains(parts[j][k])
        } by {
            lemma_part_of(specs, GATE_BATCH as nat, j, k);
            law_picked_are_the_kept_candidates(
                all,
                e,
                |s: Seq<char>| !allowlist.contains(s),
                parts[j][k],
            );
        }
    }
}

/// What stands in a part stands in the list.
proof fn lemma_part_of(s: Seq<Seq<char>>, n: nat, j: int, k: int)
    requires
        n > 0,
        0 <= j < chunks(s, n).len(),
        0 <= k < chunks(s, n)[j].len(),
    ensures
        s.contains(chunks(s, n)[j][k]),
    decreases s.len(),
{
    if s.len() <= n {
        assert(s[k] == chunks(s, n)[j][k]);
    } else if j == 0 {
        assert(s[k] == chunks(s, n)[j][k]);
    } else {
        let rest = s.skip(n as int);
        lemma_part_of(rest, n, j - 1, k);
        assert(chunks(s, n)[j] == chunks(rest, n)[j - 1]);
        let x = chunks(rest, n)[j - 1][k];
        let m = choose|m: int| 0 <= m < rest.len() && rest[m] == x;
        assert(s[m + n] == x);
    }
}

/// What stands in a list stands in one of its parts.
proof fn lemma_in_a_part(s: Seq<Seq<char>>, n: nat, x: Seq<char>) -> (j: int)
    requires
        n > 0,
        s.contains(x),
    ensures
        0 <= j < chunks(s, n).len(),
        chunks(s, n)[j].contains(x),
    decreases s.len(),
{
    let m = choose|m: int| 0 <= m < s.len() && s[m] == x;
    if s.len() <= n {
        assert(chunks(s, n)[0][m] == x);
        0
    } else if m < n {
        assert(chunks(s, n)[0][m] == x);
        0
    } else {
        let rest = s.skip(n as int);
        assert(rest[m - n] == x);
        let j = lemma_in_a_part(rest, n, x);
        assert(chunks(s, n)[j + 1] == chunks(rest, n)[j]);
        j + 1
    }
}

/// The service is asked about every candidate that is not allowlisted: some batch of its ecosystem
/// has it.
pub proof fn law_every_gated_candidate_is_asked(
    all: Seq<(Ecosystem, Seq<char>)>,
    allowlist: Seq<Seq<char>>,
    ecosystem: Ecosystem,
    s: Seq<char>,
)
    requires
        all.contains((ecosystem, s)),
        s.len() > 0,
        !allowlist.contains(s),
    ensures
        exists|i: int|
            0 <= i < planned(all, allowlist, 7).len() && (#[trigger] planned(all, allowlist, 7)[i]).0
                == ecosystem && planned(all, allowlist, 7)[i].1.contains(s),
{
    law_picked_are_the_kept_candidates(all, ecosystem, |x: Seq<char>| !allowlist.contains(x), s);
    let place = ecosystem.rank() as int;
    assert(ecosystem_at(place) == ecosystem);
    let j = lemma_in_a_part(gated(all, allowlist, ecosystem), GATE_BATCH as nat, s);
    let i = planned(all, allowlist, place as nat).len() + j;
    assert(planned(all, allowlist, (place + 1) as nat)[i] == batches_for(
        ecosystem,
        gated(all, allowlist, ecosystem),
    )[j]);
    lemma_planned_grows(all, allowlist, (place + 1) as nat, 7);
    assert(planned(all, allowlist, 7)[i].1.contains(s));
}

/// The batches of the first ecosystems come first.
proof fn lemma_planned_grows(
    all: Seq<(Ecosystem, Seq<char>)>,
    allowlist: Seq<Seq<char>>,
    m: nat,
    n: nat,
)
    requires
        m <= n,
    ensures
        planned(all, allowlist, m).len() <= planned(all, allowlist, n).len(),
        forall|i: int|
            0 <= i < planned(all, allowlist, m).len() ==> #[trigger] planned(all, allowlist, n)[i]
                == planned(all, allowlist, m)[i],
    decreases n,
{
    if m < n {
        lemma_planned_grows(all, allowlist, m, (n - 1) as nat);
        assert forall|i: int| 0 <= i < planned(all, allowlist, m).len() implies #[trigger] planned(
            all,
            allowlist,
            n,
        )[i] == planned(all, allowlist, m)[i] by {
            assert(planned(all, allowlist, n)[i] == planned(all, allowlist, (n - 1) as nat)[i]);
        }
    }
}

/// The batches of an ecosystem together are its gated specs in their order, and no spec is asked
/// about twice.
pub proof fn law_no_spec_is_asked_twice(
    all: Seq<(Ecosystem, Seq<char>)>,
    allowlist: Seq<Seq<char>>,
    ecosystem: Ecosystem,
)
    ensures
        joined_parts(chunks(gated(all, allowlist, ecosystem), GATE_BATCH as nat)) == gated(
            all,
            allowlist,
            ecosystem,
        ),
        gated(all, allowlist, ecosystem).no_duplicates(),
{
    law_chunks_make_up_the_list(gated(all, allowlist, ecosystem), GATE_BATCH as nat);
    law_picked_once(all, ecosystem, |s: Seq<char>| !allowlist.contains(s));
}

/// Everything that is given is a candidate, whatever else is given or not: every entry of the
/// lockfile, every spec of the command line, and every spec of the watchlist.
pub proof fn law_everything_given_is_a_candidate(args: GateArgs, config: RepoConfig, list: Seq<Entry>)
    ensures
        forall|k: int|
            0 <= k < list.len() ==> gate_candidates(args, config, list).contains(
                ((#[trigger] list[k]).ecosystem, list[k].spec_text()),
            ),
        forall|k: int|
            0 <= k < args.specs@.len() ==> gate_candidates(args, config, list).contains(
                cli_spec((#[trigger] args.specs@[k])@, forced_by(args.ecosystem)),
            ),
        forall|k: int|
            0 <= k < config.watchlist@.len() ==> gate_candidates(args, config, list).contains(
                cli_spec((#[trigger] config.watchlist@[k])@, forced_by(args.ecosystem)),
            ),
        gate_candidates(args, config, list).len() == args.specs@.len() + config.watchlist@.len() + list.len(),
{
    let all = gate_candidates(args, config, list);
    let given = args.specs@.len();
    let watched = config.watchlist@.len();
    assert forall|k: int| 0 <= k < list.len() implies all.contains(
        ((#[trigger] list[k]).ecosystem, list[k].spec_text()),
    ) by {
        assert(all[given + watched + k] == (list[k].ecosystem, list[k].spec_text()));
    }
    assert forall|k: int| 0 <= k < given implies all.contains(
        cli_spec((#[trigger] args.specs@[k])@, forced_by(args.ecosystem)),
    ) by {
        assert(all[k] == cli_spec(args.specs@[k]@, forced_by(args.ecosystem)));
    }
    assert forall|k: int| 0 <= k < watched implies all.contains(
        cli_spec((#[trigger] config.watchlist@[k])@, forced_by(args.ecosystem)),
    ) by {
        assert(all[given + k] == cli_spec(config.watchlist@[k]@, forced_by(args.ecosystem)));
    }
}

/// Nothing that is not given is a candidate: each is an entry of the lockfile, or a spec of the
/// command line or of the watchlist.
pub proof fn law_every_candidate_is_given(
    args: GateArgs,
    config: RepoConfig,
    list: Seq<Entry>,
    ecosystem: Ecosystem,
    s: Seq<char>,
)
    requires
        gate_candidates(args, config, list).contains((ecosystem, s)),
    ensures
        ({
            ||| exists|k: int| 0 <= k < list.len() && (#[trigger] list[k]).ecosystem == ecosystem && list[k].spec_text() == s
            ||| exists|k: int|
                0 <= k < args.specs@.len() && cli_spec((#[trigger] args.specs@[k])@, forced_by(args.ecosystem)) == (
                    ecosystem,
                    s,
                )
            ||| exists|k: int|
                0 <= k < config.watchlist@.len() && cli_spec(
                    (#[trigger] config.watchlist@[k])@,
                    forced_by(args.ecosystem),
                ) == (ecosystem, s)
        }),
{
    let all = gate_candidates(args, config, list);
    let given = args.specs@.len();
    let watched = config.watchlist@.len();
    let i = choose|i: int| 0 <= i < all.len() && all[i] == (ecosystem, s);
    if i < given {
        assert(cli_spec(args.specs@[i]@, forced_by(args.ecosystem)) == (ecosystem, s));
    } else if i < given + watched {
        assert(cli_spec(config.watchlist@[i - given]@, forced_by(args.ecosystem)) == (ecosystem, s));
    } else {
        assert(list[i - given - watched].spec_text() == s);
    }
}

/// A request of a plan is about a spec of an ecosystem.
pub open spec fn asks(requests: Seq<(Ecosystem, Seq<Seq<char>>)>, ecosystem: Ecosystem, s: Seq<char>) -> bool {
    exists|i: int| 0 <= i < requests.len() && (#[trigger] requests[i]).0 == ecosystem && requests[i].1.contains(s)
}

/// The service is asked about a spec if and only if it is given, is not empty and is not
/// allowlisted. A lockfile entry is never empty, so that each is asked about or allowlisted.
pub proof fn law_service_is_asked_about_what_is_given(
    args: GateArgs,
    config: RepoConfig,
    list: Seq<Entry>,
    ecosystem: Ecosystem,
    s: Seq<char>,
)
    ensures
        asks(planned(gate_candidates(args, config, list), texts(config.allowlist@), 7), ecosystem, s) <==> s.len()
            > 0 && !texts(config.allowlist@).contains(s) && {
            ||| exists|k: int|
                0 <= k < list.len() && (#[trigger] list[k]).ecosystem == ecosystem && list[k].spec_text() == s
            ||| exists|k: int|
                0 <= k < args.specs@.len() && cli_spec((#[trigger] args.specs@[k])@, forced_by(args.ecosystem)) == (
                    ecosystem,
                    s,
                )
            ||| exists|k: int|
                0 <= k < config.watchlist@.len() && cli_spec(
                    (#[trigger] config.watchlist@[k])@,
                    forced_by(args.ecosystem),
                ) == (ecosystem, s)
        },
        forall|k: int| 0 <= k < list.len() ==> (#[trigger] list[k]).spec_text().len() > 0,
{
    let all = gate_candidates(args, config, list);
    let allowlist = texts(config.allowlist@);
    let requests = planned(all, allowlist, 7);
    law_everything_given_is_a_candidate(args, config, list);
    if all.contains((ecosystem, s)) {
        law_every_candidate_is_given(args, config, list, ecosystem, s);
        if s.len() > 0 && !allowlist.contains(s) {
            law_every_gated_candidate_is_asked(all, allowlist, ecosystem, s);
        }
    }
    if asks(requests, ecosystem, s) {
        let i = choose|i: int|
            0 <= i < requests.len() && (#[trigger] requests[i]).0 == ecosystem && requests[i].1.contains(s);
        law_batches_are_bounded_and_gated(all, allowlist, 7, i);
        let k = choose|k: int| 0 <= k < requests[i].1.len() && requests[i].1[k] == s;
        assert(all.contains((requests[i].0, requests[i].1[k])));
    }
    assert forall|k: int| 0 <= k < list.len() implies (#[trigger] list[k]).spec_text().len() > 0 by {
        reveal_strlit("==");
        reveal_strlit("@");
    }
}

/// What the service is asked about and what bypasses gating add up to all specs that are given,
/// each counted once.
pub proof fn law_gated_and_bypassing_specs_add_up(all: Seq<(Ecosystem, Seq<char>)>, allowlist: Seq<Seq<char>>)
    ensures
        spec_count(planned(all, allowlist, 7)) + picked_count(all, |s: Seq<char>| allowlist.contains(s), 7)
            == picked_count(all, |s: Seq<char>| true, 7),
{
    let bypass = |s: Seq<char>| allowlist.contains(s);
    law_kept_and_left_out_add_up(all, bypass, 7);
    law_batches_hold_every_gated_spec(all, allowlist, 7);
    assert((|s: Seq<char>| !bypass(s)) =~= (|s: Seq<char>| !allowlist.contains(s)));
}

/// The requests of a plan that are about an ecosystem.
pub open spec fn requests_about(
    requests: Seq<(Ecosystem, Seq<Seq<char>>)>,
    ecosystem: Ecosystem,
) -> Seq<(Ecosystem, Seq<Seq<char>>)> {
    requests.filter(about(ecosystem))
}

/// A request is about an ecosystem, as a predicate on requests.
pub open spec fn about(ecosystem: Ecosystem) -> spec_fn((Ecosystem, Seq<Seq<char>>)) -> bool {
    |b: (Ecosystem, Seq<Seq<char>>)| b.0 == ecosystem
}

/// A list of which all is kept stays as it is.
proof fn lemma_all_kept<T>(s: Seq<T>, keep: spec_fn(T) -> bool)
    requires
        forall|i: int| 0 <= i < s.len() ==> keep(#[trigger] s[i]),
    ensures
        s.filter(keep) == s,
    decreases s.len(),
{
    reveal(Seq::filter);
    if s.len() > 0 {
        let front = s.drop_last();
        assert forall|i: int| 0 <= i < front.len() implies keep(#[trigger] front[i]) by {
            assert(front[i] == s[i]);
        }
        lemma_all_kept(front, keep);
        assert(keep(s[s.len() - 1]));
        assert(front.push(s.last()) =~= s);
    } else {
        assert(s.filter(keep) =~= s);
    }
}

/// Of a list of which nothing is kept nothing is left.
proof fn lemma_none_kept<T>(s: Seq<T>, keep: spec_fn(T) -> bool)
    requires
        forall|i: int| 0 <= i < s.len() ==> !keep(#[trigger] s[i]),
    ensures
        s.filter(keep) == Seq::<T>::empty(),
    decreases s.len(),
{
    reveal(Seq::filter);
    if s.len() > 0 {
        let front = s.drop_last();
        assert forall|i: int| 0 <= i < front.len() implies !keep(#[trigger] front[i]) by {
            assert(front[i] == s[i]);
        }
        lemma_none_kept(front, keep);
        assert(!keep(s[s.len() - 1]));
    } else {
        assert(s.filter(keep) =~= Seq::empty());
    }
}

/// The requests about an ecosystem among those about the first ecosystems.
proof fn lemma_requests_about(
    all: Seq<(Ecosystem, Seq<char>)>,
    allowlist: Seq<Seq<char>>,
    ecosystem: Ecosystem,
    n: nat,
)
    requires
        n <= 7,
    ensures
        requests_about(planned(all, allowlist, n), ecosystem) == if ecosystem.rank() < n {
            batches_for(ecosystem, gated(all, allowlist, ecosystem))
        } else {
            Seq::empty()
        },
    decreases n,
{
    let keep = about(ecosystem);
    if n == 0 {
        lemma_none_kept(planned(all, allowlist, 0), keep);
    } else {
        lemma_requests_about(all, allowlist, ecosystem, (n - 1) as nat);
        let x = ecosystem_at(n - 1);
        let front = planned(all, allowlist, (n - 1) as nat);
        let more = batches_for(x, gated(all, allowlist, x));
        lemma_place((n - 1) as nat, ecosystem);
        lemma_batches_about(x, gated(all, allowlist, x), ecosystem);
        Seq::filter_distributes_over_add(front, more, keep);
        assert(planned(all, allowlist, n) == front + more);
        let kept = more.filter(keep);
        let none = Seq::<(Ecosystem, Seq<Seq<char>>)>::empty();
        if ecosystem == x {
            assert(none + kept =~= kept);
        } else {
            assert(front.filter(keep) + none =~= front.filter(keep));
        }
    }
}

/// An ecosystem stands at its place and at no other.
proof fn lemma_place(n: nat, ecosystem: Ecosystem)
    requires
        n < 7,
    ensures
        ecosystem_at(n as int) == ecosystem <==> ecosystem.rank() == n,
{
}

/// The batches of an ecosystem are about it and about no other.
proof fn lemma_batches_about(x: Ecosystem, specs: Seq<Seq<char>>, ecosystem: Ecosystem)
    ensures
        requests_about(batches_for(x, specs), ecosystem) == if x == ecosystem {
            batches_for(x, specs)
        } else {
            Seq::empty()
        },
{
    let keep = about(ecosystem);
    let more = batches_for(x, specs);
    if x == ecosystem {
        assert forall|i: int| 0 <= i < more.len() implies keep(#[trigger] more[i]) by {
            assert(more[i].0 == x);
        }
        lemma_all_kept(more, keep);
    } else {
        assert forall|i: int| 0 <= i < more.len() implies !keep(#[trigger] more[i]) by {
            assert(more[i].0 == x);
        }
        lemma_none_kept(more, keep);
    }
}

/// The requests about an ecosystem together ask about its gated specs, each once and in the order
/// in which they are given, up to 25 in a request; only the last may have fewer.
pub proof fn law_requests_ask_in_order_and_once(
    all: Seq<(Ecosystem, Seq<char>)>,
    allowlist: Seq<Seq<char>>,
    ecosystem: Ecosystem,
)
    ensures
        ({
            let own = requests_about(planned(all, allowlist, 7), ecosystem);
            let parts = Seq::new(own.len(), |i: int| own[i].1);
            &&& joined_parts(parts) == gated(all, allowlist, ecosystem)
            &&& joined_parts(parts).no_duplicates()
            &&& forall|i: int| 0 <= i < own.len() ==> 0 < (#[trigger] own[i]).1.len() <= 25
            &&& forall|i: int| 0 <= i < own.len() - 1 ==> (#[trigger] own[i]).1.len() == 25
        }),
{
    let specs = gated(all, allowlist, ecosystem);
    lemma_requests_about(all, allowlist, ecosystem, 7);
    law_chunks_make_up_the_list(specs, GATE_BATCH as nat);
    law_no_spec_is_asked_twice(all, allowlist, ecosystem);
    let own = requests_about(planned(all, allowlist, 7), ecosystem);
    let parts = Seq::new(own.len(), |i: int| own[i].1);
    let cut = chunks(specs, GATE_BATCH as nat);
    assert(own.len() == cut.len());
    assert(forall|i: int| 0 <= i < own.len() ==> (#[trigger] own[i]).1 == cut[i]);
    assert(parts =~= cut);
}

/// The requests go ecosystem by ecosystem, in the order of these.
pub proof fn law_requests_go_ecosystem_by_ecosystem(
    all: Seq<(Ecosystem, Seq<char>)>,
    allowlist: Seq<Seq<char>>,
    n: nat,
)
    requires
        n <= 7,
    ensures
        forall|i: int|
            0 <= i < planned(all, allowlist, n).len() ==> (#[trigger] planned(all, allowlist, n)[i]).0.rank() < n,
        forall|i: int, j: int|
            0 <= i < j < planned(all, allowlist, n).len() ==> (#[trigger] planned(all, allowlist, n)[i]).0.rank()
                <= (#[trigger] planned(all, allowlist, n)[j]).0.rank(),
    decreases n,
{
    if n > 0 {
        law_requests_go_ecosystem_by_ecosystem(all, allowlist, (n - 1) as nat);
        let x = ecosystem_at(n - 1);
        assert(x.rank() == n - 1);
        let front = planned(all, allowlist, (n - 1) as nat);
        let more = batches_for(x, gated(all, allowlist, x));
        let whole = planned(all, allowlist, n);
        assert(forall|i: int| 0 <= i < front.len() ==> #[trigger] whole[i] == front[i]);
        assert forall|i: int| front.len() <= i < whole.len() implies (#[trigger] whole[i]).0 == x by {
            assert(whole[i] == more[i - front.len()]);
        }
    }
}

/// What the service is asked, in batches.
pub struct GatePlan {
    batches: Vec<Batch>,
    specs: usize,
    allowlisted: usize,
}

impl GatePlan {
    /// The batches, in the order in which they are sent.
    pub closed spec fn requests(self) -> Seq<(Ecosystem, Seq<Seq<char>>)> {
        batches(self.batches@)
    }

    /// How many specs are gated.
    pub closed spec fn gated_count(self) -> nat {
        self.specs as nat
    }

    /// How many specs bypass gating.
    pub closed spec fn bypass_count(self) -> nat {
        self.allowlisted as nat
    }

    /// The number of specs is that of the batches.
    #[verifier::type_invariant]
    spec fn well_formed(self) -> bool {
        spec_count(batches(self.batches@)) == self.specs
    }

    /// Whether there is nothing to gate.
    pub fn is_empty(&self) -> (r: bool)
        ensures
            r == (self.gated_count() == 0),
    {
        self.specs == 0
    }

    /// The batches, the number of specs in them, and how many specs bypass gating.
    pub(crate) fn into_parts(self) -> (r: (Vec<Batch>, usize, usize))
        ensures
            batches(r.0@) == self.requests(),
            r.1 == self.gated_count(),
            r.2 == self.bypass_count(),
            spec_count(batches(r.0@)) == r.1,
    {
        proof {
            use_type_invariant(&self);
        }
        (self.batches, self.specs, self.allowlisted)
    }
}

/// Adds the batches of the specs of one ecosystem.
fn add_batches(out: &mut Vec<Batch>, ecosystem: Ecosystem, specs: &[String])
    ensures
        batches(final(out)@) == batches(old(out)@) + batches_for(ecosystem, texts(specs@)),
{
    let ghost before = batches(out@);
    let ghost s = texts(specs@);
    let ghost whole = batches_for(ecosystem, s);
    let mut from: usize = 0;
    assert(s.skip(0) =~= s);
    while from < specs.len()
        invariant
            from <= specs.len(),
            s == texts(specs@),
            batches(out@) + batches_for(ecosystem, s.skip(from as int)) == before + whole,
        decreases specs.len() - from,
    {
        let ghost rest = s.skip(from as int);
        let ghost done = batches(out@);
        let end: usize = if specs.len() - from <= GATE_BATCH {
            specs.len()
        } else {
            from + GATE_BATCH
        };
        let mut part: Vec<String> = Vec::new();
        let mut i: usize = from;
        assert(texts(part@) =~= s.subrange(from as int, from as int));
        while i < end
            invariant
                from <= i <= end <= specs.len(),
                s == texts(specs@),
                texts(part@) == s.subrange(from as int, i as int),
            decreases end - i,
        {
            let ghost taken = texts(part@);
            part.push(specs[i].clone());
            assert(texts(part@) =~= taken.push(s[i as int]));
            assert(s.subrange(from as int, i + 1) =~= s.subrange(from as int, i as int).push(s[i as int]));
            i += 1;
        }
        proof {
            lemma_batches_next(ecosystem, rest);
            assert(rest.skip(end - from) =~= s.skip(end as int));
            if rest.len() <= 25 {
                assert(s.subrange(from as int, end as int) =~= rest);
                lemma_batches_next(ecosystem, s.skip(end as int));
                assert(batches_for(ecosystem, s.skip(end as int)) =~= Seq::empty());
            } else {
                assert(s.subrange(from as int, end as int) =~= rest.take(25));
            }
        }
        let next: Batch = Batch { ecosystem, specs: part };
        let ghost view = next@;
        out.push(next);
        assert(batches(out@) =~= done + seq![view]);
        assert(batches(out@) + batches_for(ecosystem, s.skip(end as int)) =~= done + batches_for(
            ecosystem,
            rest,
        ));
        from = end;
    }
    proof {
        lemma_batches_next(ecosystem, s.skip(from as int));
        assert(batches(out@) + batches_for(ecosystem, s.skip(from as int)) =~= batches(out@));
    }
}

/// Plans what the service is asked. Of the candidates, those that the allowlist has bypass gating;
/// of the others each is asked about once, in batches, ecosystem by ecosystem.
pub fn plan(args: &GateArgs, config: &RepoConfig, list: &[LockfileEntry]) -> (r: GatePlan)
    ensures
        r.requests() == planned(
            gate_candidates(*args, *config, entries(list@)),
            texts(config.allowlist@),
            7,
        ),
        r.gated_count() == spec_count(r.requests()),
        r.bypass_count() == picked_count(
            gate_candidates(*args, *config, entries(list@)),
            |s: Seq<char>| texts(config.allowlist@).contains(s),
            7,
        ),
{
    let forced: Option<Ecosystem> = forced_ecosystem(&args.ecosystem);
    let mut all: Vec<(Ecosystem, String)> = Vec::new();
    assert(candidates(all@) =~= Seq::empty());
    add_cli_specs(&mut all, args.specs.as_slice(), forced);
    add_cli_specs(&mut all, config.watchlist.as_slice(), forced);
    add_entries(&mut all, list);
    let ghost c = gate_candidates(*args, *config, entries(list@));
    assert(candidates(all@) =~= c);
    let allow: StringHashSet = text_set(config.allowlist.as_slice());
    let ghost allowlist = texts(config.allowlist@);
    let ghost keep = |s: Seq<char>| !allowlist.contains(s);
    let ghost bypass = |s: Seq<char>| allowlist.contains(s);
    proof {
        assert(keep =~= (|s: Seq<char>| allow@.contains(s) == false));
        assert(bypass =~= (|s: Seq<char>| allow@.contains(s) == true));
    }
    let mut out: Vec<Batch> = Vec::new();
    let mut specs: usize = 0;
    let mut allowlisted: usize = 0;
    let mut i: usize = 0;
    assert(batches(out@) =~= Seq::empty());
    while i < ECOSYSTEMS
        invariant
            i <= 7,
            c == candidates(all@),
            allowlist == texts(config.allowlist@),
            keep == (|s: Seq<char>| !allowlist.contains(s)),
            keep == (|s: Seq<char>| allow@.contains(s) == false),
            bypass == (|s: Seq<char>| allow@.contains(s) == true),
            batches(out@) == planned(c, allowlist, i as nat),
            specs == picked_count(c, keep, i as nat),
            allowlisted == picked_count(c, bypass, i as nat),
        decreases 7 - i,
    {
        let ecosystem: Ecosystem = nth_ecosystem(i);
        let part: Vec<String> = pick(all.as_slice(), ecosystem, &allow, false);
        let skipped: Vec<String> = pick(all.as_slice(), ecosystem, &allow, true);
        add_batches(&mut out, ecosystem, part.as_slice());
        proof {
            lemma_picked_count(c, keep, (i + 1) as nat);
            lemma_picked_count(c, bypass, (i + 1) as nat);
            assert(texts(part@).len() == part@.len());
            assert(texts(skipped@).len() == skipped@.len());
            assert(candidates(all@).len() == all@.len());
            assert(all@.len() == all.len());
        }
        specs += part.len();
        allowlisted += skipped.len();
        i += 1;
    }
    proof {
        law_batches_hold_every_gated_spec(c, allowlist, 7);
    }
    GatePlan { batches: out, specs, allowlisted }
}

} // verus!
