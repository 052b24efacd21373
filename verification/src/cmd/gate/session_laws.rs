//! What the replies of a whole run come to.
use vstd::prelude::*;

use crate::client::{Blocked, CallError, Gate};
use crate::cmd::gate::session::{
    answered, nothing_yet, result_of_run, skip_warning, unanswered, Reply, Tally,
};
use crate::cmd::{all_tagged, tagged};
use crate::entry::Ecosystem;
use crate::json::Json;
use crate::text::decimal;

verus! {

/// An answer adds what it blocks and what it reports to what the answers before it did, in their
/// order; each report is told its ecosystem. The level is that of the last answer, and one answer
/// that does not allow is enough.
pub proof fn law_answer_adds_to_the_run(tally: Tally, ecosystem: Ecosystem, answer: Gate)
    ensures
        ({
            let after = answered(tally, ecosystem, answer);
            &&& after.gate.allowed == (tally.gate.allowed && answer.allowed)
            &&& after.gate.fail_on == answer.fail_on
            &&& after.skipped == tally.skipped
            &&& after.gate.blocked.len() == tally.gate.blocked.len() + answer.blocked.len()
            &&& forall|i: int|
                0 <= i < tally.gate.blocked.len() ==> #[trigger] after.gate.blocked[i] == tally.gate.blocked[i]
            &&& forall|i: int|
                0 <= i < answer.blocked.len() ==> after.gate.blocked[tally.gate.blocked.len() + i]
                    == #[trigger] answer.blocked[i]
            &&& after.gate.reports.len() == tally.gate.reports.len() + answer.reports.len()
            &&& forall|i: int|
                0 <= i < tally.gate.reports.len() ==> #[trigger] after.gate.reports[i] == tally.gate.reports[i]
            &&& forall|i: int|
                0 <= i < answer.reports.len() ==> after.gate.reports[tally.gate.reports.len() + i] == tagged(
                    #[trigger] answer.reports[i],
                    ecosystem.label(),
                )
        }),
{
}

/// A batch that could not be checked changes nothing but the number of specs that were not.
pub proof fn law_failure_only_counts(tally: Tally, n: nat)
    ensures
        unanswered(tally, n).gate == tally.gate,
        unanswered(tally, n).skipped == tally.skipped + n,
{
}

/// A run starts allowed, at the level that was asked for, with nothing blocked, nothing reported
/// and nothing skipped.
pub proof fn law_run_starts_with_nothing(fail_on: Seq<char>)
    ensures
        nothing_yet(fail_on).gate.allowed,
        nothing_yet(fail_on).gate.fail_on == fail_on,
        nothing_yet(fail_on).gate.blocked.len() == 0,
        nothing_yet(fail_on).gate.reports.len() == 0,
        nothing_yet(fail_on).skipped == 0,
{
}

/// A run ends well if and only if each reply is an answer, or a failure that can be skipped in a
/// run that fails open.
pub proof fn law_run_ends_iff_a_failure_ends_it(
    requests: Seq<(Ecosystem, Seq<Seq<char>>)>,
    replies: Seq<Reply>,
    fail_open: bool,
    fail_on: Seq<char>,
)
    ensures
        result_of_run(requests, replies, fail_open, fail_on) is Some <==> forall|i: int|
            0 <= i < replies.len() ==> (#[trigger] replies[i] is Answer || fail_open && replies[i] == Reply::Failure(
                true,
            )),
    decreases replies.len(),
{
    if replies.len() > 0 {
        let front = replies.drop_last();
        let n = replies.len() - 1;
        law_run_ends_iff_a_failure_ends_it(requests, front, fail_open, fail_on);
        assert(replies[n] == replies.last());
        assert(forall|i: int| 0 <= i < n ==> #[trigger] front[i] == replies[i]);
        if result_of_run(requests, replies, fail_open, fail_on) is Some {
            assert forall|i: int| 0 <= i < replies.len() implies (#[trigger] replies[i] is Answer || fail_open
                && replies[i] == Reply::Failure(true)) by {
                if i < n {
                    assert(front[i] == replies[i]);
                }
            }
        }
        if forall|i: int|
            0 <= i < replies.len() ==> (#[trigger] replies[i] is Answer || fail_open && replies[i] == Reply::Failure(
                true,
            )) {
            assert forall|i: int| 0 <= i < front.len() implies (#[trigger] front[i] is Answer || fail_open
                && front[i] == Reply::Failure(true)) by {
                assert(front[i] == replies[i]);
            }
            assert(replies[n] is Answer || replies[n] == Reply::Failure(true));
        }
    }
}

/// At the end of a run exactly that is blocked which some answer blocks.
pub proof fn law_blocked_iff_some_answer_blocks(
    requests: Seq<(Ecosystem, Seq<Seq<char>>)>,
    replies: Seq<Reply>,
    fail_open: bool,
    fail_on: Seq<char>,
    item: Blocked,
)
    requires
        result_of_run(requests, replies, fail_open, fail_on) is Some,
    ensures
        result_of_run(requests, replies, fail_open, fail_on)->Some_0.gate.blocked.contains(item) <==> exists|i: int|
            0 <= i < replies.len() && (#[trigger] replies[i] matches Reply::Answer(a) && a.blocked.contains(item)),
    decreases replies.len(),
{
    if replies.len() > 0 {
        let front = replies.drop_last();
        let n = replies.len() - 1;
        law_blocked_iff_some_answer_blocks(requests, front, fail_open, fail_on, item);
        let before = result_of_run(requests, front, fail_open, fail_on)->Some_0.gate.blocked;
        let after = result_of_run(requests, replies, fail_open, fail_on)->Some_0.gate.blocked;
        assert(replies[n] == replies.last());
        assert(forall|i: int| 0 <= i < n ==> #[trigger] front[i] == replies[i]);
        match replies.last() {
            Reply::Answer(a) => {
                lemma_in_both(before, a.blocked, item);
                assert(after == before + a.blocked);
            },
            Reply::Failure(_) => {
                assert(after == before);
            },
        }
        if exists|i: int|
            0 <= i < front.len() && (#[trigger] front[i] matches Reply::Answer(a) && a.blocked.contains(item)) {
            let i = choose|i: int|
                0 <= i < front.len() && (#[trigger] front[i] matches Reply::Answer(a) && a.blocked.contains(item));
            assert(replies[i] == front[i]);
        }
        if exists|i: int|
            0 <= i < replies.len() && (#[trigger] replies[i] matches Reply::Answer(a) && a.blocked.contains(item)) {
            let i = choose|i: int|
                0 <= i < replies.len() && (#[trigger] replies[i] matches Reply::Answer(a) && a.blocked.contains(
                    item,
                ));
            if i < n {
                assert(front[i] == replies[i]);
            }
        }
    }
}

/// What stands in two lists together stands in one of them.
proof fn lemma_in_both<T>(a: Seq<T>, b: Seq<T>, x: T)
    ensures
        (a + b).contains(x) <==> a.contains(x) || b.contains(x),
{
    if (a + b).contains(x) {
        let k = choose|k: int| 0 <= k < (a + b).len() && (a + b)[k] == x;
        if k < a.len() {
            assert(a[k] == x);
        } else {
            assert(b[k - a.len()] == x);
        }
    }
    if a.contains(x) {
        let k = choose|k: int| 0 <= k < a.len() && a[k] == x;
        assert((a + b)[k] == x);
    }
    if b.contains(x) {
        let k = choose|k: int| 0 <= k < b.len() && b[k] == x;
        assert((a + b)[a.len() + k] == x);
    }
}

/// A reply brings a report: the answer has it, but for the ecosystem that it is told.
pub open spec fn brings(ecosystem: Ecosystem, reply: Reply, report: Json) -> bool {
    &&& reply matches Reply::Answer(a)
    &&& exists|k: int| 0 <= k < a.reports.len() && tagged(#[trigger] a.reports[k], ecosystem.label()) == report
}

/// At the end of a run exactly that is reported which some answer reports, told the ecosystem of
/// its request.
pub proof fn law_reported_iff_some_answer_reports(
    requests: Seq<(Ecosystem, Seq<Seq<char>>)>,
    replies: Seq<Reply>,
    fail_open: bool,
    fail_on: Seq<char>,
    report: Json,
)
    requires
        result_of_run(requests, replies, fail_open, fail_on) is Some,
    ensures
        result_of_run(requests, replies, fail_open, fail_on)->Some_0.gate.reports.contains(report) <==> exists|i: int|
            0 <= i < replies.len() && brings(requests[i].0, #[trigger] replies[i], report),
    decreases replies.len(),
{
    if replies.len() > 0 {
        let front = replies.drop_last();
        let n = replies.len() - 1;
        law_reported_iff_some_answer_reports(requests, front, fail_open, fail_on, report);
        let before = result_of_run(requests, front, fail_open, fail_on)->Some_0.gate.reports;
        let after = result_of_run(requests, replies, fail_open, fail_on)->Some_0.gate.reports;
        assert(replies[n] == replies.last());
        match replies.last() {
            Reply::Answer(a) => {
                let more = all_tagged(a.reports, requests[n].0);
                lemma_in_both(before, more, report);
                assert(after == before + more);
                assert(more.contains(report) <==> brings(requests[n].0, replies[n], report)) by {
                    if more.contains(report) {
                        let k = choose|k: int| 0 <= k < more.len() && more[k] == report;
                        assert(tagged(a.reports[k], requests[n].0.label()) == report);
                    }
                    if brings(requests[n].0, replies[n], report) {
                        let k = choose|k: int|
                            0 <= k < a.reports.len() && tagged(#[trigger] a.reports[k], requests[n].0.label())
                                == report;
                        assert(more[k] == report);
                    }
                }
            },
            Reply::Failure(_) => {
                assert(after == before);
            },
        }
        if exists|i: int| 0 <= i < front.len() && brings(requests[i].0, #[trigger] front[i], report) {
            let i = choose|i: int| 0 <= i < front.len() && brings(requests[i].0, #[trigger] front[i], report);
            assert(replies[i] == front[i]);
        }
        if exists|i: int| 0 <= i < replies.len() && brings(requests[i].0, #[trigger] replies[i], report) {
            let i = choose|i: int| 0 <= i < replies.len() && brings(requests[i].0, #[trigger] replies[i], report);
            if i < n {
                assert(front[i] == replies[i]);
            }
        }
    }
}

/// How many specs stand in the requests among the first `n` whose call failed.
pub open spec fn unchecked(requests: Seq<(Ecosystem, Seq<Seq<char>>)>, replies: Seq<Reply>, n: nat) -> nat
    decreases n,
{
    if n == 0 {
        0
    } else {
        unchecked(requests, replies, (n - 1) as nat) + if replies[n - 1] is Failure {
            requests[n - 1].1.len()
        } else {
            0
        }
    }
}

/// The specs that were not checked are those of the requests whose call failed, and no others.
pub proof fn law_skipped_specs_are_those_of_failed_calls(
    requests: Seq<(Ecosystem, Seq<Seq<char>>)>,
    replies: Seq<Reply>,
    fail_open: bool,
    fail_on: Seq<char>,
)
    requires
        result_of_run(requests, replies, fail_open, fail_on) is Some,
    ensures
        result_of_run(requests, replies, fail_open, fail_on)->Some_0.skipped == unchecked(
            requests,
            replies,
            replies.len(),
        ),
    decreases replies.len(),
{
    if replies.len() > 0 {
        let front = replies.drop_last();
        law_skipped_specs_are_those_of_failed_calls(requests, front, fail_open, fail_on);
        lemma_unchecked_front(requests, replies, front.len());
    }
}

proof fn lemma_unchecked_front(requests: Seq<(Ecosystem, Seq<Seq<char>>)>, replies: Seq<Reply>, n: nat)
    requires
        n < replies.len(),
    ensures
        unchecked(requests, replies, n) == unchecked(requests, replies.drop_last(), n),
    decreases n,
{
    if n > 0 {
        lemma_unchecked_front(requests, replies, (n - 1) as nat);
        assert(replies[n - 1] == replies.drop_last()[n - 1]);
    }
}

/// The level of a run is that of its last answer, or the one asked for where none came.
pub proof fn law_level_is_that_of_the_last_answer(
    requests: Seq<(Ecosystem, Seq<Seq<char>>)>,
    replies: Seq<Reply>,
    fail_open: bool,
    fail_on: Seq<char>,
    i: int,
)
    requires
        result_of_run(requests, replies, fail_open, fail_on) is Some,
        -1 <= i < replies.len(),
        i >= 0 ==> replies[i] is Answer,
        forall|k: int| i < k < replies.len() ==> #[trigger] replies[k] is Failure,
    ensures
        result_of_run(requests, replies, fail_open, fail_on)->Some_0.gate.fail_on == if i >= 0 {
            replies[i]->Answer_0.fail_on
        } else {
            fail_on
        },
    decreases replies.len(),
{
    if replies.len() > 0 && i < replies.len() - 1 {
        let front = replies.drop_last();
        assert(replies[replies.len() - 1] is Failure);
        assert(i >= 0 ==> front[i] == replies[i]);
        assert forall|k: int| i < k < front.len() implies #[trigger] front[k] is Failure by {
            assert(front[k] == replies[k]);
        }
        law_level_is_that_of_the_last_answer(requests, front, fail_open, fail_on, i);
    }
}

/// The warning about a batch names its ecosystem, how many specs it has and why the call failed.
pub proof fn law_warning_tells_what_was_skipped(ecosystem: Ecosystem, n: nat, cause: Seq<char>)
    ensures
        skip_warning(ecosystem, n, cause) == "pkgradar: gate API call for "@ + ecosystem.label() + " (batch of "@
            + decimal(n) + ") failed ("@ + cause
            + "); fail-open enabled, skipping this batch. Other batches still gate. Set `fail_open: false` in .pkgradar.yml or pass --no-fail-open to harden."@,
{
}

/// The message of a failure is its cause; an unexpected answer is told with its status and body.
pub proof fn law_failure_tells_its_cause(cause: String, status: u16, name: String, body: String)
    ensures
        CallError::Transport(cause).text() == cause@,
        CallError::Malformed(cause).text() == cause@,
        CallError::Status(status, name, body).text() == "unexpected response "@ + name@ + ": "@ + body@,
{
}

} // verus!
