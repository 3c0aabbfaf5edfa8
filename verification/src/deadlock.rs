//! The watch for threads that wait for each other, and the report on them.

use vstd::prelude::*;

use crate::text;

verus! {

/// A thread that is part of a deadlock.
pub struct DeadlockedThread {
    /// What identifies the thread, as text.
    pub thread_id: String,
    /// Where the thread waits, as text.
    pub backtrace: String,
}

/// How many seconds pass before each look.
pub const CHECK_INTERVAL: u64 = 10;

/// What the watch waits for.
pub enum DetectorState {
    /// The time of the next look.
    Waiting,
    /// What the look finds.
    Checking,
    /// Nothing any more: deadlocks were found.
    Reported,
}

/// What happened.
pub enum DetectorEvent {
    /// The time has passed.
    Waited,
    /// These deadlocks were found.
    Checked(Vec<Vec<DeadlockedThread>>),
}

/// One thing done with a report.
pub enum ReportStep {
    /// Log the report.
    Log(String),
    /// Keep the report for the window to show.
    Keep(String),
    /// Have the window drawn again.
    Redraw,
}

/// What is to be done next.
pub enum DetectorAction {
    /// Let this time pass.
    Wait { seconds: u64 },
    /// Look for deadlocks.
    Check,
    /// Do these things in order, and end the watch.
    Report(Vec<ReportStep>),
}

/// What the report says of the thread number `index` of a deadlock.
pub open spec fn thread_text(index: nat, thread: DeadlockedThread) -> Seq<char> {
    "== Thread #"@ + text::decimal(index) + " ("@ + thread.thread_id@ + ") ==\n"@
        + thread.backtrace@ + "\n"@
}

/// What the report says of the threads of a deadlock.
pub open spec fn threads_text(threads: Seq<DeadlockedThread>) -> Seq<char>
    decreases threads.len(),
{
    if threads.len() == 0 {
        seq![]
    } else {
        threads_text(threads.drop_last()) + thread_text(
            (threads.len() - 1) as nat,
            threads.last(),
        )
    }
}

/// What the report says of the deadlock number `index`.
pub open spec fn deadlock_text(index: nat, threads: Seq<DeadlockedThread>) -> Seq<char> {
    "==== Deadlock #"@ + text::decimal(index) + " ("@ + text::decimal(threads.len())
        + " threads) ====\n"@ + threads_text(threads)
}

/// What the report says of all the deadlocks.
pub open spec fn deadlocks_text(deadlocks: Seq<Vec<DeadlockedThread>>) -> Seq<char>
    decreases deadlocks.len(),
{
    if deadlocks.len() == 0 {
        seq![]
    } else {
        deadlocks_text(deadlocks.drop_last()) + deadlock_text(
            (deadlocks.len() - 1) as nat,
            deadlocks.last()@,
        )
    }
}

/// The whole report.
pub open spec fn report_text(deadlocks: Seq<Vec<DeadlockedThread>>) -> Seq<char> {
    text::decimal(deadlocks.len()) + " deadlock(s) detected\n"@ + deadlocks_text(deadlocks)
}

/// Whether the event is one that the state waits for.
pub open spec fn waits_for(state: DetectorState, event: DetectorEvent) -> bool {
    match (state, event) {
        (DetectorState::Waiting, DetectorEvent::Waited) => true,
        (DetectorState::Checking, DetectorEvent::Checked(_)) => true,
        _ => false,
    }
}

/// The next look comes after the interval.
pub open spec fn waits(state: DetectorState, action: DetectorAction) -> bool {
    &&& state is Waiting
    &&& action == DetectorAction::Wait { seconds: CHECK_INTERVAL }
}

/// A report is logged, then kept, and then shown.
pub open spec fn publishes(steps: Seq<ReportStep>, report: Seq<char>) -> bool {
    &&& steps.len() == 3
    &&& steps[0] matches ReportStep::Log(logged) && logged@ == report
    &&& steps[1] matches ReportStep::Keep(kept) && kept@ == report
    &&& steps[2] is Redraw
}

/// What a state and an event lead to.
pub open spec fn leads_to(
    state: DetectorState,
    event: DetectorEvent,
    next: DetectorState,
    action: DetectorAction,
) -> bool {
    match (state, event) {
        (DetectorState::Waiting, DetectorEvent::Waited) => next is Checking && action is Check,
        (DetectorState::Checking, DetectorEvent::Checked(deadlocks)) => if deadlocks@.len() == 0 {
            waits(next, action)
        } else {
            &&& next is Reported
            &&& action matches DetectorAction::Report(steps)
            &&& publishes(steps@, report_text(deadlocks@))
        },
        _ => false,
    }
}

/// Writes what the report says of one thread.
fn append_thread(report: &mut String, index: usize, thread: &DeadlockedThread)
    ensures
        final(report)@ == old(report)@ + thread_text(index as nat, *thread),
{
    report.append("== Thread #");
    text::append_numeral(report, index as u64, 10);
    report.append(" (");
    report.append(thread.thread_id.as_str());
    report.append(") ==\n");
    report.append(thread.backtrace.as_str());
    report.append("\n");
    assert(report@ =~= old(report)@ + thread_text(index as nat, *thread));
}

/// Writes what the report says of one deadlock.
fn append_deadlock(report: &mut String, index: usize, threads: &Vec<DeadlockedThread>)
    ensures
        final(report)@ == old(report)@ + deadlock_text(index as nat, threads@),
{
    report.append("==== Deadlock #");
    text::append_numeral(report, index as u64, 10);
    report.append(" (");
    text::append_numeral(report, threads.len() as u64, 10);
    report.append(" threads) ====\n");
    let ghost start = report@;
    assert(threads@.take(0) =~= seq![]);
    assert(report@ =~= start + threads_text(threads@.take(0)));
    let mut i: usize = 0;
    while i < threads.len()
        invariant
            i <= threads@.len(),
            report@ == start + threads_text(threads@.take(i as int)),
        decreases threads@.len() - i,
    {
        append_thread(report, i, &threads[i]);
        assert(threads@.take(i + 1).drop_last() =~= threads@.take(i as int));
        assert(report@ =~= start + threads_text(threads@.take(i + 1)));
        i += 1;
    }
    assert(threads@.take(threads@.len() as int) =~= threads@);
    assert(report@ =~= old(report)@ + deadlock_text(index as nat, threads@));
}

/// The report on the deadlocks that were found, or nothing where there is none.
pub fn deadlock_report(deadlocks: &Vec<Vec<DeadlockedThread>>) -> (report: Option<String>)
    ensures
        report is Some <==> deadlocks@.len() > 0,
        report matches Some(report) ==> report@ == report_text(deadlocks@),
{
    if deadlocks.len() == 0 {
        return None;
    }
    let mut report = String::new();
    text::append_numeral(&mut report, deadlocks.len() as u64, 10);
    report.append(" deadlock(s) detected\n");
    let ghost start = report@;
    assert(start =~= text::decimal(deadlocks@.len()) + " deadlock(s) detected\n"@);
    assert(deadlocks@.take(0) =~= seq![]);
    assert(report@ =~= start + deadlocks_text(deadlocks@.take(0)));
    let mut i: usize = 0;
    while i < deadlocks.len()
        invariant
            i <= deadlocks@.len(),
            report@ == start + deadlocks_text(deadlocks@.take(i as int)),
        decreases deadlocks@.len() - i,
    {
        append_deadlock(&mut report, i, &deadlocks[i]);
        assert(deadlocks@.take(i + 1).drop_last() =~= deadlocks@.take(i as int));
        assert(report@ =~= start + deadlocks_text(deadlocks@.take(i + 1)));
        i += 1;
    }
    assert(deadlocks@.take(deadlocks@.len() as int) =~= deadlocks@);
    Some(report)
}

/// What is done with a report.
fn publish(report: String) -> (steps: Vec<ReportStep>)
    ensures
        publishes(steps@, report@),
{
    let mut steps: Vec<ReportStep> = Vec::new();
    steps.push(ReportStep::Log(report.clone()));
    steps.push(ReportStep::Keep(report));
    steps.push(ReportStep::Redraw);
    steps
}

impl DetectorState {
    /// The watch at its start, and what is to be done first.
    pub fn new() -> (start: (DetectorState, DetectorAction))
        ensures
            waits(start.0, start.1),
    {
        (DetectorState::Waiting, DetectorAction::Wait { seconds: CHECK_INTERVAL })
    }

    /// Whether the event is one that is waited for.
    pub fn expects(&self, event: &DetectorEvent) -> (expected: bool)
        ensures
            expected == waits_for(*self, *event),
    {
        match (self, event) {
            (DetectorState::Waiting, DetectorEvent::Waited) => true,
            (DetectorState::Checking, DetectorEvent::Checked(_)) => true,
            _ => false,
        }
    }

    /// Takes what happened, and says what to do next.
    pub fn step(self, event: DetectorEvent) -> (next: (DetectorState, DetectorAction))
        requires
            waits_for(self, event),
        ensures
            leads_to(self, event, next.0, next.1),
    {
        match event {
            DetectorEvent::Waited => (DetectorState::Checking, DetectorAction::Check),
            DetectorEvent::Checked(deadlocks) => match deadlock_report(&deadlocks) {
                Some(report) => (DetectorState::Reported, DetectorAction::Report(publish(report))),
                None => Self::new(),
            },
        }
    }
}

/// The watch ends with the first deadlocks that are found, and only with them:
/// it reports then and at no other time, and takes nothing afterwards.
pub proof fn law_watch_ends_with_the_first_find(
    state: DetectorState,
    event: DetectorEvent,
    next: DetectorState,
    action: DetectorAction,
    later: DetectorEvent,
)
    requires
        leads_to(state, event, next, action),
    ensures
        next is Reported <==> (event matches DetectorEvent::Checked(deadlocks) && deadlocks@.len()
            > 0),
        action is Report <==> next is Reported,
        next is Reported ==> !waits_for(next, later),
{
}

/// How a report is made: it begins with the number of deadlocks. Each further
/// deadlock puts its own part behind those of the ones before it, with its
/// number, counted from zero, and the number of its threads. In it each further
/// thread puts its own part behind those of the ones before it, with its number,
/// counted from zero, what identifies it and where it waits.
pub proof fn law_report_grows_with_each_deadlock(
    deadlocks: Seq<Vec<DeadlockedThread>>,
    deadlock: Vec<DeadlockedThread>,
    threads: Seq<DeadlockedThread>,
    thread: DeadlockedThread,
)
    ensures
        report_text(deadlocks) == text::decimal(deadlocks.len()) + " deadlock(s) detected\n"@
            + deadlocks_text(deadlocks),
        deadlocks_text(seq![]).len() == 0,
        deadlocks_text(deadlocks.push(deadlock)) == deadlocks_text(deadlocks) + ("==== Deadlock #"@
            + text::decimal(deadlocks.len()) + " ("@ + text::decimal(deadlock@.len())
            + " threads) ====\n"@ + threads_text(deadlock@)),
        threads_text(seq![]).len() == 0,
        threads_text(threads.push(thread)) == threads_text(threads) + ("== Thread #"@
            + text::decimal(threads.len()) + " ("@ + thread.thread_id@ + ") ==\n"@
            + thread.backtrace@ + "\n"@),
{
    assert(deadlocks.push(deadlock).drop_last() =~= deadlocks);
    assert(threads.push(thread).drop_last() =~= threads);
}

/// Every thread of every deadlock is in the report: its number, what identifies
/// it, and the whole of where it waits.
pub proof fn law_every_thread_is_reported(
    deadlocks: Seq<Vec<DeadlockedThread>>,
    i: int,
    j: int,
) -> (at: int)
    requires
        0 <= i < deadlocks.len(),
        0 <= j < deadlocks[i]@.len(),
    ensures
        ({
            let thread = deadlocks[i]@[j];
            let part = "== Thread #"@ + text::decimal(j as nat) + " ("@ + thread.thread_id@
                + ") ==\n"@ + thread.backtrace@ + "\n"@;
            &&& 0 <= at <= at + part.len() <= report_text(deadlocks).len()
            &&& report_text(deadlocks).subrange(at, at + part.len()) == part
        }),
{
    let thread = deadlocks[i]@[j];
    let part = thread_text(j as nat, thread);
    let inner = lemma_thread_in_threads(deadlocks[i]@, j);
    let outer = lemma_deadlock_in_deadlocks(deadlocks, i);
    let head = text::decimal(deadlocks.len()) + " deadlock(s) detected\n"@;
    let title = "==== Deadlock #"@ + text::decimal(i as nat) + " ("@ + text::decimal(
        deadlocks[i]@.len(),
    ) + " threads) ====\n"@;
    let own = deadlock_text(i as nat, deadlocks[i]@);
    let at = head.len() + outer + title.len() + inner;
    let report = report_text(deadlocks);
    assert(own =~= title + threads_text(deadlocks[i]@));
    assert(report.len() == head.len() + deadlocks_text(deadlocks).len());
    let found = report.subrange(at, at + part.len());
    assert forall|k: int| 0 <= k < part.len() implies #[trigger] found[k] == part[k] by {
        assert(threads_text(deadlocks[i]@).subrange(inner, inner + part.len())[k] == part[k]);
        assert(own[title.len() + inner + k] == part[k]);
        assert(deadlocks_text(deadlocks).subrange(outer, outer + own.len())[title.len() + inner + k]
            == part[k]);
        assert(deadlocks_text(deadlocks)[outer + title.len() + inner + k] == part[k]);
        assert(report[head.len() + (outer + title.len() + inner + k)] == deadlocks_text(
            deadlocks,
        )[outer + title.len() + inner + k]);
        assert(found[k] == report[at + k]);
    }
    assert(found =~= part);
    at
}

/// Where the part of a thread stands among those of all threads.
proof fn lemma_thread_in_threads(threads: Seq<DeadlockedThread>, j: int) -> (at: int)
    requires
        0 <= j < threads.len(),
    ensures
        ({
            let part = thread_text(j as nat, threads[j]);
            &&& 0 <= at <= at + part.len() <= threads_text(threads).len()
            &&& threads_text(threads).subrange(at, at + part.len()) == part
        }),
    decreases threads.len(),
{
    let part = thread_text(j as nat, threads[j]);
    let before = threads_text(threads.drop_last());
    if j == threads.len() - 1 {
        let at = before.len() as int;
        assert(threads_text(threads).subrange(at, at + part.len()) =~= part);
        at
    } else {
        let at = lemma_thread_in_threads(threads.drop_last(), j);
        assert(threads_text(threads).subrange(at, at + part.len()) =~= before.subrange(
            at,
            at + part.len(),
        ));
        at
    }
}

/// Where the part of a deadlock stands among those of all deadlocks.
proof fn lemma_deadlock_in_deadlocks(deadlocks: Seq<Vec<DeadlockedThread>>, i: int) -> (at: int)
    requires
        0 <= i < deadlocks.len(),
    ensures
        ({
            let part = deadlock_text(i as nat, deadlocks[i]@);
            &&& 0 <= at <= at + part.len() <= deadlocks_text(deadlocks).len()
            &&& deadlocks_text(deadlocks).subrange(at, at + part.len()) == part
        }),
    decreases deadlocks.len(),
{
    let part = deadlock_text(i as nat, deadlocks[i]@);
    let before = deadlocks_text(deadlocks.drop_last());
    if i == deadlocks.len() - 1 {
        let at = before.len() as int;
        assert(deadlocks_text(deadlocks).subrange(at, at + part.len()) =~= part);
        at
    } else {
        let at = lemma_deadlock_in_deadlocks(deadlocks.drop_last(), i);
        assert(deadlocks_text(deadlocks).subrange(at, at + part.len()) =~= before.subrange(
            at,
            at + part.len(),
        ));
        at
    }
}

/// How the watch goes: after ten seconds there is a look, after a look that
/// found nothing ten seconds pass again, and after one that found something the
/// report on just that is logged, kept and shown, in this order.
pub proof fn law_how_the_watch_goes(
    state: DetectorState,
    event: DetectorEvent,
    next: DetectorState,
    action: DetectorAction,
)
    requires
        leads_to(state, event, next, action),
    ensures
        event is Waited ==> state is Waiting && next is Checking && action is Check,
        event matches DetectorEvent::Checked(deadlocks) ==> state is Checking && (deadlocks@.len()
            == 0 ==> next is Waiting && action == DetectorAction::Wait { seconds: 10 }) && (
        deadlocks@.len() > 0 ==> (action matches DetectorAction::Report(steps) && steps@.len() == 3
            && (steps@[0] matches ReportStep::Log(logged) && logged@ == report_text(deadlocks@))
            && (steps@[1] matches ReportStep::Keep(kept) && kept@ == report_text(deadlocks@))
            && steps@[2] is Redraw)),
{
}

/// What the watch waits for: the time to pass, or what a look found. It begins
/// with ten seconds to pass.
pub proof fn law_what_the_watch_waits_for(
    state: DetectorState,
    event: DetectorEvent,
    action: DetectorAction,
)
    ensures
        waits_for(state, event) <==> match event {
            DetectorEvent::Waited => state is Waiting,
            DetectorEvent::Checked(_) => state is Checking,
        },
        waits(state, action) <==> state is Waiting && action == (DetectorAction::Wait {
            seconds: 10,
        }),
{
}

} // verus!
