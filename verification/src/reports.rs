//! Handing what a listing comes to over to a callback.

use crate::changes::{Listing, Outcome, OutcomeView};
use crate::vcs::{self, ErrorView, Report, ReportView, VcsError};
use vstd::prelude::*;

verus! {

/// What is done next in the course of a listing.
#[derive(Debug)]
pub enum Step {
    /// The callback is handed a report.
    Report(Report),
    /// The listing ends.
    Done(Result<(), VcsError>),
}

/// What is done next in the course of a listing.
pub enum StepView {
    Report(ReportView),
    Done(Result<(), ErrorView>),
}

impl View for Step {
    type V = StepView;

    open spec fn view(&self) -> StepView {
        match *self {
            Step::Report(report) => StepView::Report(vcs::report_view(report)),
            Step::Done(r) => StepView::Done(done_answer(r)),
        }
    }
}

/// An outcome without content.
pub open spec fn done_answer(r: Result<(), VcsError>) -> Result<(), ErrorView> {
    match r {
        Ok(_) => Ok(()),
        Err(e) => Err(e@),
    }
}

/// The first place from `at` on that comes to something; the end if none does.
pub open spec fn next_place(listing: Seq<OutcomeView>, at: int) -> int
    decreases listing.len() - at,
{
    if at >= listing.len() {
        listing.len() as int
    } else if listing[at] is Nothing {
        next_place(listing, at + 1)
    } else {
        at
    }
}

/// What is done next when the places before `at` are done with: the place to go
/// on from, and the step. Once an answer says to stop, the listing ends. It
/// also ends when all is reported, and where it fails.
pub open spec fn step(listing: Seq<OutcomeView>, at: int, go_on: bool) -> (int, StepView) {
    let place = next_place(listing, at);
    if !go_on || place >= listing.len() {
        (listing.len() as int, StepView::Done(Ok(())))
    } else {
        match listing[place] {
            OutcomeView::Report(report) => (place + 1, StepView::Report(report)),
            OutcomeView::Fails(e) => (listing.len() as int, StepView::Done(Err(e))),
            OutcomeView::Nothing => (listing.len() as int, StepView::Done(Ok(()))),
        }
    }
}

/// `f`, handed a report in the state `s`, may leave the state `end` and answer
/// whether to go on.
pub open spec fn answered<S, F: Fn(S, Report) -> (S, bool)>(
    f: F,
    s: S,
    report: ReportView,
    end: S,
    more: bool,
) -> bool {
    exists|r: Report|
        vcs::report_view(r) == report && #[trigger] call_ensures(f, (s, r), (end, more))
}

/// The listing is followed from a place on: `f` is called for the reports that
/// the steps ask for, in order, and not otherwise. The first call gets the state
/// `s`, each later one the state that the call before it left, and `end` is
/// what the last one left.
pub open spec fn follows<S, F: Fn(S, Report) -> (S, bool)>(
    f: F,
    listing: Seq<OutcomeView>,
    at: int,
    go_on: bool,
    s: S,
    end: S,
    out: Result<(), ErrorView>,
) -> bool
    decreases listing.len() - at,
    via follows_decreases::<S, F>
{
    match step(listing, at, go_on).1 {
        StepView::Done(r) => end == s && out == r,
        StepView::Report(report) => exists|mid: S, more: bool| #[trigger]
            answered(f, s, report, mid, more) && follows(
                f,
                listing,
                step(listing, at, go_on).0,
                more,
                mid,
                end,
                out,
            ),
    }
}

#[via_fn]
proof fn follows_decreases<S, F: Fn(S, Report) -> (S, bool)>(
    f: F,
    listing: Seq<OutcomeView>,
    at: int,
    go_on: bool,
    s: S,
    end: S,
    out: Result<(), ErrorView>,
) {
    lemma_next_place(listing, at);
}

proof fn lemma_next_place(listing: Seq<OutcomeView>, at: int)
    ensures
        at <= next_place(listing, at) || next_place(listing, at) == listing.len(),
        next_place(listing, at) <= listing.len(),
    decreases listing.len() - at,
{
    if at < listing.len() && listing[at] is Nothing {
        lemma_next_place(listing, at + 1);
    }
}

/// What is done next when the places before `at` are done with.
pub fn next_step(listing: &Listing, at: usize, go_on: bool) -> (r: (usize, Step))
    requires
        at <= listing@.len(),
    ensures
        (r.0 as int, r.1@) == step(listing@, at as int, go_on),
        !go_on ==> r.1 == Step::Done(Ok(())),
        r.1 is Report ==> at < r.0 <= listing@.len(),
{
    let n: usize = listing.len();
    if !go_on {
        return (n, Step::Done(Ok(())));
    }
    let mut i: usize = at;
    while i < n
        invariant
            at <= i <= n,
            n == listing@.len(),
            go_on,
            next_place(listing@, at as int) == next_place(listing@, i as int),
        decreases n - i,
    {
        match listing.outcome(i) {
            Outcome::Report(report) => {
                return (i + 1, Step::Report(report));
            },
            Outcome::Nothing => {},
            Outcome::Fails(e) => {
                return (n, Step::Done(Err(e)));
            },
        }
        i += 1;
    }
    (n, Step::Done(Ok(())))
}

/// Calls `f` for what a listing has to report, until it answers that it wants
/// no more. The state that `f` is given and leaves is handed from call to call.
pub fn follow<S, F: Fn(S, Report) -> (S, bool)>(listing: &Listing, state: S, f: &F) -> (r: (
    S,
    Result<(), VcsError>,
))
    requires
        forall|s: S, report: Report| #[trigger] f.requires((s, report)),
    ensures
        follows(*f, listing@, 0, true, state, r.0, done_answer(r.1)),
{
    let mut at: usize = 0;
    let mut go_on = true;
    let mut current = state;
    loop
        invariant
            at <= listing@.len(),
            forall|s: S, report: Report| #[trigger] f.requires((s, report)),
            forall|end: S, out: Result<(), ErrorView>| #[trigger]
                follows(*f, listing@, at as int, go_on, current, end, out) ==> follows(
                    *f,
                    listing@,
                    0,
                    true,
                    state,
                    end,
                    out,
                ),
        decreases listing@.len() - at,
    {
        let (next, step) = next_step(listing, at, go_on);
        match step {
            Step::Done(r) => {
                assert(follows(
                    *f,
                    listing@,
                    at as int,
                    go_on,
                    current,
                    current,
                    done_answer(r),
                ));
                return (current, r);
            },
            Step::Report(report) => {
                let ghost view = vcs::report_view(report);
                let ghost before = current;
                let (left, more) = f(current, report);
                proof {
                    assert(answered(*f, before, view, left, more));
                    assert forall|end: S, out: Result<(), ErrorView>| #[trigger]
                        follows(*f, listing@, next as int, more, left, end, out) implies follows(
                        *f,
                        listing@,
                        0,
                        true,
                        state,
                        end,
                        out,
                    ) by {
                        assert(follows(*f, listing@, at as int, go_on, before, end, out));
                    }
                }
                current = left;
                at = next;
                go_on = more;
            },
        }
    }
}

// Which calls are made. ---------------------------------------------------------

/// Reports that were made, each with the answer whether to go on.
pub type ReportLog = Seq<(ReportView, bool)>;

/// `f` is called once for each report of the log, in order, and answers as the
/// log says. The first call gets the state `s`, and the last one leaves `end`.
pub open spec fn calls<S, F: Fn(S, Report) -> (S, bool)>(
    f: F,
    log: ReportLog,
    s: S,
    end: S,
) -> bool
    decreases log.len(),
{
    if log.len() == 0 {
        end == s
    } else {
        exists|mid: S| #[trigger]
            answered(f, s, log[0].0, mid, log[0].1) && calls(f, log.drop_first(), mid, end)
    }
}

/// No report follows one that was answered with `false`.
pub open spec fn until_refused(log: ReportLog) -> bool {
    forall|i: int| 0 <= i < log.len() - 1 ==> (#[trigger] log[i]).1
}

/// No report was answered with `false`.
pub open spec fn never_refused(log: ReportLog) -> bool {
    forall|i: int| 0 <= i < log.len() ==> (#[trigger] log[i]).1
}

/// The reports of a listing from a place on, up to where it fails.
pub open spec fn reports_from(listing: Seq<OutcomeView>, at: int) -> Seq<ReportView>
    decreases listing.len() - at,
{
    if at >= listing.len() {
        Seq::empty()
    } else {
        match listing[at] {
            OutcomeView::Report(report) => seq![report] + reports_from(listing, at + 1),
            OutcomeView::Nothing => reports_from(listing, at + 1),
            OutcomeView::Fails(_) => Seq::empty(),
        }
    }
}

/// How a listing ends, from a place on.
pub open spec fn ending_from(listing: Seq<OutcomeView>, at: int) -> Result<(), ErrorView>
    decreases listing.len() - at,
{
    if at >= listing.len() {
        Ok(())
    } else {
        match listing[at] {
            OutcomeView::Fails(e) => Err(e),
            _ => ending_from(listing, at + 1),
        }
    }
}

/// The reports of a log.
pub open spec fn reports_of(log: ReportLog) -> Seq<ReportView> {
    log.map_values(|entry: (ReportView, bool)| entry.0)
}

proof fn lemma_from_next_place(listing: Seq<OutcomeView>, at: int)
    requires
        0 <= at,
    ensures
        reports_from(listing, at) == reports_from(listing, next_place(listing, at)),
        ending_from(listing, at) == ending_from(listing, next_place(listing, at)),
        next_place(listing, at) < listing.len() ==> !(listing[next_place(
            listing,
            at,
        )] is Nothing),
        next_place(listing, at) < listing.len() ==> at <= next_place(listing, at),
    decreases listing.len() - at,
{
    if at < listing.len() && listing[at] is Nothing {
        lemma_from_next_place(listing, at + 1);
    }
}

/// Following a listing is calling `f` for its reports, in order and one after
/// the other. No call follows one that was answered with `false`, which ends
/// the listing well. Without such an answer all is reported.
pub proof fn law_refusal_is_final<S, F: Fn(S, Report) -> (S, bool)>(
    f: F,
    listing: Seq<OutcomeView>,
    s: S,
    end: S,
    out: Result<(), ErrorView>,
) -> (log: ReportLog)
    requires
        follows(f, listing, 0, true, s, end, out),
    ensures
        calls(f, log, s, end),
        until_refused(log),
        reports_of(log).is_prefix_of(reports_from(listing, 0)),
        if never_refused(log) {
            reports_of(log) == reports_from(listing, 0) && out == ending_from(listing, 0)
        } else {
            out == Ok::<(), ErrorView>(())
        },
{
    lemma_follows_calls(f, listing, 0, s, end, out)
}

proof fn lemma_follows_calls<S, F: Fn(S, Report) -> (S, bool)>(
    f: F,
    listing: Seq<OutcomeView>,
    at: int,
    s: S,
    end: S,
    out: Result<(), ErrorView>,
) -> (log: ReportLog)
    requires
        0 <= at,
        follows(f, listing, at, true, s, end, out),
    ensures
        calls(f, log, s, end),
        until_refused(log),
        reports_of(log).is_prefix_of(reports_from(listing, at)),
        if never_refused(log) {
            reports_of(log) == reports_from(listing, at) && out == ending_from(listing, at)
        } else {
            out == Ok::<(), ErrorView>(())
        },
    decreases listing.len() - at,
{
    lemma_next_place(listing, at);
    lemma_from_next_place(listing, at);
    match step(listing, at, true).1 {
        StepView::Done(_) => {
            let log: ReportLog = Seq::empty();
            assert(reports_of(log) =~= reports_from(listing, at));
            log
        },
        StepView::Report(report) => {
            let next = step(listing, at, true).0;
            let (mid, more) = choose|mid: S, more: bool| #[trigger]
                answered(f, s, report, mid, more) && follows(
                    f,
                    listing,
                    next,
                    more,
                    mid,
                    end,
                    out,
                );
            let entry = (report, more);
            let rest: ReportLog = if more {
                lemma_follows_calls(f, listing, next, mid, end, out)
            } else {
                Seq::empty()
            };
            let log = seq![entry] + rest;
            assert(log.drop_first() =~= rest);
            assert(log[0] == entry);
            assert(answered(f, s, log[0].0, mid, log[0].1));
            assert(calls(f, rest, mid, end));
            assert(reports_of(log) =~= seq![report] + reports_of(rest));
            assert(reports_from(listing, at) == seq![report] + reports_from(listing, next));
            assert forall|i: int| 0 <= i < log.len() - 1 implies (#[trigger] log[i]).1 by {
                if i > 0 {
                    assert(log[i] == rest[i - 1]);
                }
            }
            if never_refused(log) {
                assert(log[0].1);
                assert forall|i: int| 0 <= i < rest.len() implies (#[trigger] rest[i]).1 by {
                    assert(log[i + 1] == rest[i]);
                }
            } else if more {
                let i = choose|i: int| 0 <= i < log.len() && !(#[trigger] log[i]).1;
                assert(log[i] == rest[i - 1]);
            }
            log
        },
    }
}

/// A callback that never answers `false` is called for all that a listing has to
/// report, in order, and for nothing else.
pub proof fn law_all_is_reported<S, F: Fn(S, Report) -> (S, bool)>(
    f: F,
    listing: Seq<OutcomeView>,
    s: S,
    end: S,
    out: Result<(), ErrorView>,
) -> (log: ReportLog)
    requires
        follows(f, listing, 0, true, s, end, out),
        forall|a: S, report: Report, b: S, more: bool| #[trigger]
            call_ensures(f, (a, report), (b, more)) ==> more,
    ensures
        calls(f, log, s, end),
        reports_of(log) == reports_from(listing, 0),
        out == ending_from(listing, 0),
{
    let log = law_refusal_is_final(f, listing, s, end, out);
    lemma_never_refused(f, log, s, end);
    log
}

proof fn lemma_never_refused<S, F: Fn(S, Report) -> (S, bool)>(f: F, log: ReportLog, s: S, end: S)
    requires
        calls(f, log, s, end),
        forall|a: S, report: Report, b: S, more: bool| #[trigger]
            call_ensures(f, (a, report), (b, more)) ==> more,
    ensures
        never_refused(log),
    decreases log.len(),
{
    if log.len() > 0 {
        let mid = choose|mid: S| #[trigger]
            answered(f, s, log[0].0, mid, log[0].1) && calls(f, log.drop_first(), mid, end);
        lemma_never_refused(f, log.drop_first(), mid, end);
        assert forall|i: int| 0 <= i < log.len() implies (#[trigger] log[i]).1 by {
            if i > 0 {
                assert(log.drop_first()[i - 1] == log[i]);
            }
        }
    }
}

/// One thing to report is reported by one call, whatever its answer.
pub proof fn law_one_report_is_one_call<S, F: Fn(S, Report) -> (S, bool)>(
    f: F,
    report: ReportView,
    s: S,
    end: S,
    out: Result<(), ErrorView>,
)
    ensures
        follows(f, seq![OutcomeView::Report(report)], 0, true, s, end, out) <==> out == Ok::<
            (),
            ErrorView,
        >(()) && exists|more: bool| #[trigger] answered(f, s, report, end, more),
{
    let listing = seq![OutcomeView::Report(report)];
    assert(next_place(listing, 0) == 0);
    assert(next_place(listing, 1) == 1);
    assert(step(listing, 0, true) == (1int, StepView::Report(report)));
    assert forall|mid: S, more: bool| #[trigger]
        follows(f, listing, 1, more, mid, end, out) <==> end == mid && out == Ok::<
            (),
            ErrorView,
        >(()) by {
        assert(step(listing, 1, more).1 == StepView::Done(Ok(())));
    }
    if follows(f, listing, 0, true, s, end, out) {
        let (mid, more) = choose|mid: S, more: bool| #[trigger]
            answered(f, s, report, mid, more) && follows(f, listing, 1, more, mid, end, out);
        assert(answered(f, s, report, end, more));
    }
    if out == Ok::<(), ErrorView>(()) && exists|more: bool| #[trigger]
        answered(f, s, report, end, more) {
        let more = choose|more: bool| #[trigger] answered(f, s, report, end, more);
        assert(follows(f, listing, 1, more, end, end, out));
    }
}

/// Calls one after the other.
pub(crate) proof fn lemma_calls_append<S, F: Fn(S, Report) -> (S, bool)>(
    f: F,
    one: ReportLog,
    two: ReportLog,
    s: S,
    mid: S,
    end: S,
)
    requires
        calls(f, one, s, mid),
        calls(f, two, mid, end),
    ensures
        calls(f, one + two, s, end),
    decreases one.len(),
{
    if one.len() == 0 {
        assert(one + two =~= two);
    } else {
        let first = choose|first: S| #[trigger]
            answered(f, s, one[0].0, first, one[0].1) && calls(f, one.drop_first(), first, mid);
        lemma_calls_append(f, one.drop_first(), two, first, mid, end);
        assert((one + two).drop_first() =~= one.drop_first() + two);
        assert((one + two)[0] == one[0]);
        assert(answered(f, s, (one + two)[0].0, first, (one + two)[0].1));
    }
}

} // verus!
