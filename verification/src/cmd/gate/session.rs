//! A gate run: which batch comes next, and what an answer or a failure does to the run.
use vstd::prelude::*;
use vstd::string::StringExecFns;

use crate::client::{blocked_views, Blocked, BlockedItem, CallError, Gate, GateResponse};
use crate::cmd::gate::{batches, spec_count, Batch, GatePlan, Settings};
use crate::cmd::{add_reports, all_tagged, Line, Printed};
use crate::entry::Ecosystem;
use crate::json::JsonValue;
use crate::text::{decimal, decimal_of};

verus! {

/// What the answers so far say together.
pub struct Tally {
    /// What the batches that were answered say.
    pub gate: Gate,
    /// How many specs were not checked.
    pub skipped: nat,
}

/// Nothing was asked yet.
pub open spec fn nothing_yet(fail_on: Seq<char>) -> Tally {
    Tally {
        gate: Gate { allowed: true, fail_on, blocked: Seq::empty(), reports: Seq::empty() },
        skipped: 0,
    }
}

/// What the answers say together with one more: the run is allowed as long as every answer
/// allows its batch; what is blocked and what is reported adds up.
pub open spec fn answered(tally: Tally, ecosystem: Ecosystem, answer: Gate) -> Tally {
    Tally {
        gate: Gate {
            allowed: tally.gate.allowed && answer.allowed,
            fail_on: answer.fail_on,
            blocked: tally.gate.blocked + answer.blocked,
            reports: tally.gate.reports + all_tagged(answer.reports, ecosystem),
        },
        skipped: tally.skipped,
    }
}

/// What the answers say where a batch of `n` specs could not be checked.
pub open spec fn unanswered(tally: Tally, n: nat) -> Tally {
    Tally { gate: tally.gate, skipped: tally.skipped + n }
}

/// The warning about a batch that could not be checked.
pub open spec fn skip_warning(ecosystem: Ecosystem, n: nat, cause: Seq<char>) -> Seq<char> {
    "pkgradar: gate API call for "@ + ecosystem.label() + " (batch of "@ + decimal(n) + ") failed ("@ + cause
        + "); fail-open enabled, skipping this batch. Other batches still gate. Set `fail_open: false` in .pkgradar.yml or pass --no-fail-open to harden."@
}

// ---------------------------------------------------------------------------
// Whole runs
// ---------------------------------------------------------------------------

/// What a call of the service brings.
pub enum Reply {
    Answer(Gate),
    /// The call failed; whether a run that fails open goes on after it.
    Failure(bool),
}

/// The result of a run in which the first `replies.len()` requests got these replies; nothing
/// where a failure ended it.
pub open spec fn result_of_run(
    requests: Seq<(Ecosystem, Seq<Seq<char>>)>,
    replies: Seq<Reply>,
    fail_open: bool,
    fail_on: Seq<char>,
) -> Option<Tally>
    decreases replies.len(),
{
    if replies.len() == 0 {
        Some(nothing_yet(fail_on))
    } else {
        match result_of_run(requests, replies.drop_last(), fail_open, fail_on) {
            None => None,
            Some(tally) => {
                let request = requests[replies.len() - 1];
                match replies.last() {
                    Reply::Answer(answer) => Some(answered(tally, request.0, answer)),
                    Reply::Failure(skippable) => if fail_open && skippable {
                        Some(unanswered(tally, request.1.len()))
                    } else {
                        None
                    },
                }
            },
        }
    }
}

/// One more reply takes a run one step on, as it takes a `GateRun`: an answer is added, a
/// failure that can be skipped is where the run fails open, and any other failure ends it.
pub proof fn law_run_goes_on_by_its_replies(
    requests: Seq<(Ecosystem, Seq<Seq<char>>)>,
    replies: Seq<Reply>,
    fail_open: bool,
    fail_on: Seq<char>,
    next: Reply,
)
    requires
        result_of_run(requests, replies, fail_open, fail_on) is Some,
    ensures
        result_of_run(requests, replies.push(next), fail_open, fail_on) == match next {
            Reply::Answer(answer) => Some(
                answered(
                    result_of_run(requests, replies, fail_open, fail_on)->Some_0,
                    requests[replies.len() as int].0,
                    answer,
                ),
            ),
            Reply::Failure(skippable) => if fail_open && skippable {
                Some(
                    unanswered(
                        result_of_run(requests, replies, fail_open, fail_on)->Some_0,
                        requests[replies.len() as int].1.len(),
                    ),
                )
            } else {
                None
            },
        },
{
    assert(replies.push(next).drop_last() =~= replies);
}

/// A run passes if and only if no answer blocks: one batch that is blocked blocks the run,
/// whatever the others say, and whichever could not be checked.
pub proof fn law_run_is_allowed_iff_every_answer_allows(
    requests: Seq<(Ecosystem, Seq<Seq<char>>)>,
    replies: Seq<Reply>,
    fail_open: bool,
    fail_on: Seq<char>,
)
    requires
        result_of_run(requests, replies, fail_open, fail_on) is Some,
    ensures
        result_of_run(requests, replies, fail_open, fail_on)->Some_0.gate.allowed <==> (forall|i: int|
            0 <= i < replies.len() ==> (#[trigger] replies[i] matches Reply::Answer(a) ==> a.allowed)),
    decreases replies.len(),
{
    if replies.len() > 0 {
        let front = replies.drop_last();
        law_run_is_allowed_iff_every_answer_allows(requests, front, fail_open, fail_on);
        let before = result_of_run(requests, front, fail_open, fail_on)->Some_0;
        let after = result_of_run(requests, replies, fail_open, fail_on)->Some_0;
        let n = replies.len() - 1;
        assert(replies[n] == replies.last());
        if after.gate.allowed {
            assert forall|i: int| 0 <= i < replies.len() implies (#[trigger] replies[i] matches Reply::Answer(
                a,
            ) ==> a.allowed) by {
                if i < n {
                    assert(front[i] == replies[i]);
                }
            }
        }
        if forall|i: int| 0 <= i < replies.len() ==> (#[trigger] replies[i] matches Reply::Answer(a) ==> a.allowed) {
            assert forall|i: int| 0 <= i < front.len() implies (#[trigger] front[i] matches Reply::Answer(a)
                ==> a.allowed) by {
                assert(replies[i] == front[i]);
            }
            assert(before.gate.allowed);
        }
    }
}

/// A failure that cannot be skipped ends a run whether or not it fails open.
pub proof fn law_only_skippable_failures_fail_open(
    requests: Seq<(Ecosystem, Seq<Seq<char>>)>,
    replies: Seq<Reply>,
    fail_open: bool,
    fail_on: Seq<char>,
    i: int,
)
    requires
        0 <= i < replies.len(),
        replies[i] == Reply::Failure(false),
    ensures
        result_of_run(requests, replies, fail_open, fail_on) is None,
    decreases replies.len(),
{
    if i < replies.len() - 1 {
        assert(replies.drop_last()[i] == replies[i]);
        law_only_skippable_failures_fail_open(requests, replies.drop_last(), fail_open, fail_on, i);
    }
}

/// A rejected token is the one failure that cannot be skipped: no run fails open on it, and a run
/// that fails open goes on after any other.
pub proof fn law_rejected_token_alone_ends_every_run(e: CallError)
    ensures
        e.is_skippable() <==> !(e is Auth),
{
}

/// Where a run does not fail open and ends well, every spec was checked.
pub proof fn law_hardened_run_checks_everything(
    requests: Seq<(Ecosystem, Seq<Seq<char>>)>,
    replies: Seq<Reply>,
    fail_on: Seq<char>,
)
    requires
        result_of_run(requests, replies, false, fail_on) is Some,
    ensures
        result_of_run(requests, replies, false, fail_on)->Some_0.skipped == 0,
        forall|i: int| 0 <= i < replies.len() ==> #[trigger] replies[i] is Answer,
    decreases replies.len(),
{
    if replies.len() > 0 {
        let front = replies.drop_last();
        law_hardened_run_checks_everything(requests, front, fail_on);
        assert forall|i: int| 0 <= i < replies.len() implies #[trigger] replies[i] is Answer by {
            if i < replies.len() - 1 {
                assert(front[i] == replies[i]);
            }
        }
    }
}

/// What one answer blocks is blocked at the end of the run.
pub proof fn law_blocked_stays_blocked(
    requests: Seq<(Ecosystem, Seq<Seq<char>>)>,
    replies: Seq<Reply>,
    fail_open: bool,
    fail_on: Seq<char>,
    i: int,
    item: Blocked,
)
    requires
        0 <= i < replies.len(),
        result_of_run(requests, replies, fail_open, fail_on) is Some,
        replies[i] matches Reply::Answer(a) && a.blocked.contains(item),
    ensures
        result_of_run(requests, replies, fail_open, fail_on)->Some_0.gate.blocked.contains(item),
    decreases replies.len(),
{
    let front = replies.drop_last();
    let before = result_of_run(requests, front, fail_open, fail_on)->Some_0.gate.blocked;
    let after = result_of_run(requests, replies, fail_open, fail_on)->Some_0.gate.blocked;
    if i < replies.len() - 1 {
        assert(front[i] == replies[i]);
        law_blocked_stays_blocked(requests, front, fail_open, fail_on, i, item);
        let k = choose|k: int| 0 <= k < before.len() && before[k] == item;
        assert(after[k] == item);
    } else {
        let a = replies[i]->Answer_0;
        let k = choose|k: int| 0 <= k < a.blocked.len() && a.blocked[k] == item;
        assert(after[before.len() + k] == item);
    }
}

// ---------------------------------------------------------------------------
// A run
// ---------------------------------------------------------------------------

/// A gate run.
pub struct GateRun {
    batches: Vec<Batch>,
    at: usize,
    fail_open: bool,
    skipped: usize,
    allowlisted: usize,
    merged: GateResponse,
}

/// The batches before a place hold no more specs than all.
proof fn lemma_count_front(list: Seq<(Ecosystem, Seq<Seq<char>>)>, n: int)
    requires
        0 <= n <= list.len(),
    ensures
        spec_count(list.take(n)) <= spec_count(list),
    decreases list.len(),
{
    if n == list.len() {
        assert(list.take(n) =~= list);
    } else {
        lemma_count_front(list.drop_last(), n);
        assert(list.drop_last().take(n) =~= list.take(n));
    }
}

/// One more batch.
proof fn lemma_count_next(list: Seq<(Ecosystem, Seq<Seq<char>>)>, n: int)
    requires
        0 <= n < list.len(),
    ensures
        spec_count(list.take(n + 1)) == spec_count(list.take(n)) + list[n].1.len(),
{
    assert(list.take(n + 1).drop_last() =~= list.take(n));
}

impl GateRun {
    /// The batches of the run.
    pub closed spec fn requests(self) -> Seq<(Ecosystem, Seq<Seq<char>>)> {
        batches(self.batches@)
    }

    /// How many batches have had their reply.
    pub closed spec fn done(self) -> nat {
        self.at as nat
    }

    /// Whether a call that fails lets the build pass.
    pub closed spec fn fails_open(self) -> bool {
        self.fail_open
    }

    /// What the answers so far say together.
    pub closed spec fn tally(self) -> Tally {
        Tally { gate: self.merged@, skipped: self.skipped as nat }
    }

    /// How many specs bypass gating.
    pub closed spec fn bypass_count(self) -> nat {
        self.allowlisted as nat
    }

    /// No more specs were skipped than were asked about.
    #[verifier::type_invariant]
    spec fn well_formed(self) -> bool {
        &&& self.at <= self.batches@.len()
        &&& self.skipped <= spec_count(batches(self.batches@).take(self.at as int))
        &&& spec_count(batches(self.batches@)) <= usize::MAX
    }

    /// A run that has asked nothing yet.
    pub fn new(plan: GatePlan, settings: &Settings) -> (r: GateRun)
        ensures
            r.requests() == plan.requests(),
            r.bypass_count() == plan.bypass_count(),
            r.fails_open() == settings.fail_open,
            r.done() == 0,
            r.tally() == nothing_yet(settings.fail_on@),
    {
        let (list, specs, allowlisted) = plan.into_parts();
        let merged: GateResponse = GateResponse {
            allowed: true,
            fail_on: settings.fail_on.clone(),
            blocked: Vec::new(),
            reports: Vec::new(),
        };
        assert(merged@.blocked =~= Seq::empty());
        assert(merged@.reports =~= Seq::empty());
        GateRun {
            batches: list,
            at: 0,
            fail_open: settings.fail_open,
            skipped: 0,
            allowlisted,
            merged,
        }
    }

    /// The batch that is asked about next; none where all have had their reply.
    pub fn next(&self) -> (r: Option<&Batch>)
        ensures
            match r {
                Some(batch) => self.done() < self.requests().len() && batch@ == self.requests()[self.done() as int],
                None => self.done() == self.requests().len(),
            },
    {
        proof {
            use_type_invariant(self);
        }
        if self.at < self.batches.len() {
            Some(&self.batches[self.at])
        } else {
            None
        }
    }

    /// Takes the reply to the batch that was asked about. An answer is added to the others. Where the
    /// call failed, a run that fails open goes on with a warning, without having checked the batch;
    /// a rejected token, or any failure where the run does not fail open, ends the run.
    pub fn reply(self, reply: Result<GateResponse, CallError>) -> (r: Result<
        (GateRun, Option<Line>),
        CallError,
    >)
        requires
            self.done() < self.requests().len(),
        ensures
            match reply {
                Ok(answer) => r matches Ok((run, None)) && {
                    &&& run.tally() == answered(
                        self.tally(),
                        self.requests()[self.done() as int].0,
                        answer@,
                    )
                    &&& run.goes_on_from(self)
                },
                Err(e) => if self.fails_open() && e.is_skippable() {
                    r matches Ok((run, Some(line))) && {
                        &&& run.tally() == unanswered(
                            self.tally(),
                            self.requests()[self.done() as int].1.len(),
                        )
                        &&& line@ == Printed::Stderr(
                            skip_warning(
                                self.requests()[self.done() as int].0,
                                self.requests()[self.done() as int].1.len(),
                                e.text(),
                            ),
                        )
                        &&& run.goes_on_from(self)
                    }
                } else {
                    r matches Err(error) && error == e
                },
            },
    {
        proof {
            use_type_invariant(&self);
        }
        let ghost list = batches(self.batches@);
        proof {
            lemma_count_next(list, self.at as int);
            lemma_count_front(list, self.at + 1);
        }
        assert(self.at < self.batches.len());
        let ecosystem: Ecosystem = self.batches[self.at].ecosystem;
        let n: usize = self.batches[self.at].specs.len();
        assert(list[self.at as int] == self.batches@[self.at as int]@);
        match reply {
            Ok(answer) => {
                let merged: GateResponse = merge(self.merged, ecosystem, answer);
                let run: GateRun = GateRun {
                    batches: self.batches,
                    at: self.at + 1,
                    fail_open: self.fail_open,
                    skipped: self.skipped,
                    allowlisted: self.allowlisted,
                    merged,
                };
                Ok((run, None))
            },
            Err(e) => {
                if !(self.fail_open && e.skippable()) {
                    return Err(e);
                }
                let line: Line = Line::Stderr(warning_of_skip(ecosystem, n, e.message().as_str()));
                let run: GateRun = GateRun {
                    batches: self.batches,
                    at: self.at + 1,
                    fail_open: self.fail_open,
                    skipped: self.skipped + n,
                    allowlisted: self.allowlisted,
                    merged: self.merged,
                };
                Ok((run, Some(line)))
            },
        }
    }

    /// The run has had one reply more than `before`, and is the same run.
    pub open spec fn goes_on_from(self, before: GateRun) -> bool {
        &&& self.requests() == before.requests()
        &&& self.done() == before.done() + 1
        &&& self.fails_open() == before.fails_open()
        &&& self.bypass_count() == before.bypass_count()
    }

    /// What the run came to: what the service says, how many specs were not checked, and how many
    /// bypass gating.
    pub(crate) fn into_parts(self) -> (r: (GateResponse, usize, usize))
        ensures
            self.tally() == (Tally { gate: r.0@, skipped: r.1 as nat }),
            self.bypass_count() == r.2,
    {
        (self.merged, self.skipped, self.allowlisted)
    }
}

/// The warning about a batch that could not be checked.
fn warning_of_skip(ecosystem: Ecosystem, n: usize, cause: &str) -> (r: String)
    ensures
        r@ == skip_warning(ecosystem, n as nat, cause@),
{
    let mut r: String = "pkgradar: gate API call for ".to_owned();
    r.append(ecosystem.as_str());
    r.append(" (batch of ");
    r.append(decimal_of(n as u64).as_str());
    r.append(") failed (");
    r.append(cause);
    r.append(
        "); fail-open enabled, skipping this batch. Other batches still gate. Set `fail_open: false` in .pkgradar.yml or pass --no-fail-open to harden.",
    );
    r
}

/// Adds an answer to what the others say.
fn merge(merged: GateResponse, ecosystem: Ecosystem, answer: GateResponse) -> (r: GateResponse)
    ensures
        r@ == answered(Tally { gate: merged@, skipped: 0 }, ecosystem, answer@).gate,
{
    let mut blocked: Vec<BlockedItem> = merged.blocked;
    let mut more: Vec<BlockedItem> = answer.blocked;
    let ghost a = blocked_views(blocked@);
    let ghost b = blocked_views(more@);
    blocked.append(&mut more);
    assert(blocked_views(blocked@) =~= a + b);
    let mut reports: Vec<JsonValue> = merged.reports;
    add_reports(&mut reports, answer.reports, ecosystem);
    GateResponse {
        allowed: merged.allowed && answer.allowed,
        fail_on: answer.fail_on,
        blocked,
        reports,
    }
}

} // verus!
