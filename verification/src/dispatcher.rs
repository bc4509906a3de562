//! Work that waits: for the thread that owns the windows, and for its time to come.

use vstd::prelude::*;

verus! {

/// The fewest worker threads to run, however few cores are reported.
///
/// One worker can deadlock: a background task that blocks on another has nobody to run it.
pub const MIN_WORKERS: usize = 2;

/// How soon a task wants to run.
#[derive(Clone, Copy, Debug, PartialEq, Eq, Structural)]
pub enum Priority {
    RealtimeAudio,
    High,
    Medium,
    Low,
}

/// Whether work of this priority runs before the rest.
pub open spec fn is_urgent(priority: Priority) -> bool {
    priority is RealtimeAudio || priority is High
}

/// Work waiting to run on the thread that owns the windows.
pub struct MainQueue<R> {
    /// Higher-priority work runs first; within a class, work runs in the order it arrived.
    high: Vec<R>,
    rest: Vec<R>,
}

/// What waits: the urgent work, and the rest, each in the order it arrived.
#[verifier::ext_equal]
pub struct Waiting<R> {
    pub high: Seq<R>,
    pub rest: Seq<R>,
}

impl<R> Waiting<R> {
    /// No work at all.
    pub open spec fn nothing() -> Waiting<R> {
        Waiting { high: Seq::empty(), rest: Seq::empty() }
    }

    /// Whether no work waits.
    pub open spec fn is_nothing(self) -> bool {
        self.high.len() == 0 && self.rest.len() == 0
    }

    /// What waits once a piece of work has arrived.
    pub open spec fn with(self, runnable: R, priority: Priority) -> Waiting<R> {
        if is_urgent(priority) {
            Waiting { high: self.high.push(runnable), rest: self.rest }
        } else {
            Waiting { high: self.high, rest: self.rest.push(runnable) }
        }
    }

    /// What waits once all of `arrived` has arrived, in order.
    pub open spec fn with_all(self, arrived: Seq<(R, Priority)>) -> Waiting<R>
        decreases arrived.len(),
    {
        if arrived.len() == 0 {
            self
        } else {
            self.with_all(arrived.drop_last()).with(arrived.last().0, arrived.last().1)
        }
    }

    /// The order in which what waits is to run.
    pub open spec fn in_order(self) -> Seq<R> {
        self.high + self.rest
    }
}

impl<R> View for MainQueue<R> {
    type V = Waiting<R>;

    closed spec fn view(&self) -> Waiting<R> {
        Waiting { high: self.high@, rest: self.rest@ }
    }
}

impl<R> MainQueue<R> {
    /// Nothing waiting.
    pub fn new() -> (queue: MainQueue<R>)
        ensures
            queue@ == Waiting::<R>::nothing(),
    {
        MainQueue { high: Vec::new(), rest: Vec::new() }
    }

    /// Adds a piece of work behind what waits in its class.
    pub fn push(&mut self, runnable: R, priority: Priority)
        ensures
            final(self)@ == old(self)@.with(runnable, priority),
    {
        match priority {
            Priority::RealtimeAudio | Priority::High => self.high.push(runnable),
            _ => self.rest.push(runnable),
        }
    }

    /// Everything queued so far, in the order it should run.
    ///
    /// Draining rather than running in place matters: a runnable is free to queue more work.
    pub fn drain(&mut self) -> (taken: Vec<R>)
        ensures
            taken@ == old(self)@.in_order(),
            final(self)@ == Waiting::<R>::nothing(),
    {
        let mut taken = Vec::new();
        std::mem::swap(&mut taken, &mut self.high);
        taken.append(&mut self.rest);
        proof {
            assert(self@ =~= Waiting::<R>::nothing());
        }
        taken
    }

    /// Whether nothing waits.
    pub fn is_empty(&self) -> (empty: bool)
        ensures
            empty == self@.is_nothing(),
    {
        self.high.len() == 0 && self.rest.len() == 0
    }

    /// Queues work for the main thread, and says whether its loop is to be woken.
    ///
    /// One wake for each time something comes to wait is enough, because the drain takes
    /// everything queued by the time it runs.
    pub fn queue_main(&mut self, runnable: R, priority: Priority) -> (wake: bool)
        ensures
            final(self)@ == old(self)@.with(runnable, priority),
            wake == old(self)@.is_nothing(),
    {
        let was_empty = self.is_empty();
        self.push(runnable, priority);
        was_empty
    }
}

/// The work of a class, in the order it arrived.
pub open spec fn of_class<R>(arrived: Seq<(R, Priority)>, urgent: bool) -> Seq<R>
    decreases arrived.len(),
{
    if arrived.len() == 0 {
        Seq::empty()
    } else {
        let rest = of_class(arrived.drop_last(), urgent);
        if is_urgent(arrived.last().1) == urgent {
            rest.push(arrived.last().0)
        } else {
            rest
        }
    }
}

/// Work runs urgent first, and within a class in the order it arrived.
pub proof fn law_work_runs_in_order<R>(arrived: Seq<(R, Priority)>)
    ensures
        Waiting::<R>::nothing().with_all(arrived).in_order() == of_class(arrived, true) + of_class(
            arrived,
            false,
        ),
{
    lemma_classes(arrived);
}

proof fn lemma_classes<R>(arrived: Seq<(R, Priority)>)
    ensures
        Waiting::<R>::nothing().with_all(arrived).high == of_class(arrived, true),
        Waiting::<R>::nothing().with_all(arrived).rest == of_class(arrived, false),
    decreases arrived.len(),
{
    if arrived.len() > 0 {
        lemma_classes(arrived.drop_last());
    }
}

/// A timer that has not fired yet, and the time it is due, in nanoseconds.
pub struct Pending<R> {
    pub at: u128,
    pub runnable: R,
}

/// Timers, the soonest first.
pub struct Timers<R> {
    pending: Vec<Pending<R>>,
    stopped: bool,
}

/// What the timer thread does next.
pub enum TimerStep<R> {
    /// End.
    Stop,
    /// Run these, in order.
    Run(Vec<R>),
    /// Sleep for so many nanoseconds, or until woken.
    SleepFor(u128),
    /// Sleep until woken.
    Sleep,
}

/// Whether the timers stand soonest first.
pub open spec fn soonest_first<R>(pending: Seq<Pending<R>>) -> bool {
    forall|i: int, j: int|
        0 <= i <= j < pending.len() ==> (#[trigger] pending[i]).at <= (#[trigger] pending[j]).at
}

/// How many of the first timers are due at the time `now`.
pub open spec fn due_count<R>(pending: Seq<Pending<R>>, now: u128) -> nat
    decreases pending.len(),
{
    if pending.len() > 0 && pending.first().at <= now {
        1 + due_count(pending.drop_first(), now)
    } else {
        0
    }
}

/// The work of some timers.
pub open spec fn runnables<R>(pending: Seq<Pending<R>>) -> Seq<R> {
    pending.map_values(|timer: Pending<R>| timer.runnable)
}

impl<R> Timers<R> {
    /// The timers, the soonest first.
    pub closed spec fn pending(self) -> Seq<Pending<R>> {
        self.pending@
    }

    /// Whether the thread is to end.
    pub closed spec fn stopped(self) -> bool {
        self.stopped
    }

    /// Whether the timers stand soonest first.
    pub open spec fn wf(self) -> bool {
        soonest_first(self.pending())
    }

    /// No timers.
    pub fn new() -> (timers: Timers<R>)
        ensures
            timers.wf(),
            timers.pending().len() == 0,
            !timers.stopped(),
    {
        Timers { pending: Vec::new(), stopped: false }
    }

    /// Ends the timer thread at its next step.
    pub fn stop(&mut self)
        ensures
            final(self).stopped(),
            final(self).pending() == old(self).pending(),
    {
        self.stopped = true;
    }

    /// Adds a timer that is due so many nanoseconds after `now`, behind those due at the same time.
    pub fn dispatch_after(&mut self, now: u128, duration: u128, runnable: R)
        requires
            old(self).wf(),
            now + duration <= u128::MAX,
        ensures
            final(self).wf(),
            final(self).stopped() == old(self).stopped(),
            ({
                let at = (now + duration) as u128;
                final(self).pending() == old(self).pending().insert(
                    due_count(old(self).pending(), at) as int,
                    Pending { at, runnable },
                )
            }),
    {
        let at = now + duration;
        let mut place: usize = 0;
        let ghost before = self.pending@;
        proof {
            assert(before.skip(0) =~= before);
        }
        while place < self.pending.len() && self.pending[place].at <= at
            invariant
                place <= self.pending@.len(),
                self.pending@ == before,
                due_count(before, at) == place + due_count(before.skip(place as int), at),
                forall|i: int| 0 <= i < place ==> (#[trigger] before[i]).at <= at,
            decreases self.pending@.len() - place,
        {
            proof {
                assert(before.skip(place as int).drop_first() =~= before.skip(place + 1));
                assert(before.skip(place as int).first() == before[place as int]);
            }
            place = place + 1;
        }
        proof {
            if place < before.len() {
                assert(before.skip(place as int).first() == before[place as int]);
            }
        }
        self.pending.insert(place, Pending { at, runnable });
        proof {
            assert forall|i: int, j: int| 0 <= i <= j < self.pending@.len() implies (
            #[trigger] self.pending@[i]).at <= (#[trigger] self.pending@[j]).at by {
                if place < before.len() && j > place {
                    assert(before[place as int].at <= before[j - 1].at);
                }
            }
        }
    }

    /// Takes every timer that is due at the time `now`, the soonest first.
    pub fn take_due(&mut self, now: u128) -> (due: Vec<R>)
        requires
            old(self).wf(),
        ensures
            final(self).wf(),
            final(self).stopped() == old(self).stopped(),
            ({
                let count = due_count(old(self).pending(), now) as int;
                &&& due@ == runnables(old(self).pending().take(count))
                &&& final(self).pending() == old(self).pending().skip(count)
            }),
    {
        let ghost before = self.pending@;
        let ghost mut taken: int = 0;
        let mut due: Vec<R> = Vec::new();
        proof {
            assert(before.skip(0) =~= before);
            assert(due@ =~= runnables(before.take(0)));
        }
        while self.pending.len() > 0 && self.pending[0].at <= now
            invariant
                soonest_first(before),
                0 <= taken <= before.len(),
                self.pending@ == before.skip(taken),
                self.stopped == old(self).stopped,
                due@ == runnables(before.take(taken)),
                due_count(before, now) == taken + due_count(self.pending@, now),
            decreases self.pending@.len(),
        {
            let ghost here = self.pending@;
            let timer = self.pending.remove(0);
            due.push(timer.runnable);
            proof {
                assert(here.first() == timer);
                assert(self.pending@ =~= here.drop_first());
                assert(self.pending@ =~= before.skip(taken + 1));
                assert(before.take(taken + 1) =~= before.take(taken).push(timer));
                assert(due@ =~= runnables(before.take(taken + 1)));
                taken = taken + 1;
            }
        }
        proof {
            assert forall|i: int, j: int| 0 <= i <= j < self.pending@.len() implies (
            #[trigger] self.pending@[i]).at <= (#[trigger] self.pending@[j]).at by {
                assert(before[taken + i].at <= before[taken + j].at);
            }
        }
        due
    }

    /// What the timer thread does at the time `now`: it ends where it was stopped, runs what has
    /// come due, and otherwise sleeps until the soonest timer is due.
    pub fn step(&mut self, now: u128) -> (step: TimerStep<R>)
        requires
            old(self).wf(),
        ensures
            final(self).wf(),
            final(self).stopped() == old(self).stopped(),
            ({
                let count = due_count(old(self).pending(), now) as int;
                if old(self).stopped() {
                    step is Stop && final(self).pending() == old(self).pending()
                } else if count > 0 {
                    &&& step matches TimerStep::Run(due) && due@ == runnables(
                        old(self).pending().take(count),
                    )
                    &&& final(self).pending() == old(self).pending().skip(count)
                } else {
                    &&& final(self).pending() == old(self).pending()
                    &&& old(self).pending().len() == 0 ==> step is Sleep
                    &&& old(self).pending().len() > 0 ==> step == TimerStep::<R>::SleepFor(
                        (old(self).pending().first().at - now) as u128,
                    )
                }
            }),
    {
        if self.stopped {
            return TimerStep::Stop;
        }
        let ghost before = self.pending@;
        let due = self.take_due(now);
        if due.len() > 0 {
            return TimerStep::Run(due);
        }
        proof {
            assert(due@.len() == before.take(due_count(before, now) as int).len());
            lemma_due_count(before, now);
            assert(self.pending@ =~= before);
        }
        if self.pending.len() > 0 {
            TimerStep::SleepFor(self.pending[0].at - now)
        } else {
            TimerStep::Sleep
        }
    }
}

proof fn lemma_due_count<R>(pending: Seq<Pending<R>>, now: u128)
    ensures
        due_count(pending, now) <= pending.len(),
        due_count(pending, now) == 0 && pending.len() > 0 ==> pending.first().at > now,
    decreases pending.len(),
{
    if pending.len() > 0 && pending.first().at <= now {
        lemma_due_count(pending.drop_first(), now);
    }
}

/// Timers that stand soonest first are due exactly where they are among the first: none that is
/// due is left, and none that is not is taken.
pub proof fn law_exactly_the_due_timers_fire<R>(pending: Seq<Pending<R>>, now: u128, i: int)
    requires
        soonest_first(pending),
        0 <= i < pending.len(),
    ensures
        i < due_count(pending, now) <==> pending[i].at <= now,
    decreases pending.len(),
{
    if pending.first().at <= now {
        if i > 0 {
            let rest = pending.drop_first();
            assert forall|a: int, b: int| 0 <= a <= b < rest.len() implies (#[trigger] rest[a]).at
                <= (#[trigger] rest[b]).at by {
                assert(pending[a + 1].at <= pending[b + 1].at);
            }
            law_exactly_the_due_timers_fire(rest, now, i - 1);
            assert(rest[i - 1] == pending[i]);
        }
    } else {
        assert(pending[0].at <= pending[i].at);
    }
}

/// How many worker threads to run, given how many threads the machine runs at once, where it says.
pub fn worker_count(parallelism: Option<usize>) -> (count: usize)
    ensures
        count == (match parallelism {
            Some(threads) => if threads > MIN_WORKERS {
                threads
            } else {
                MIN_WORKERS
            },
            None => MIN_WORKERS,
        }),
        count >= 2,
        parallelism matches Some(threads) ==> count >= threads,
        count == 2 || parallelism == Some(count),
{
    match parallelism {
        Some(threads) => if threads > MIN_WORKERS {
            threads
        } else {
            MIN_WORKERS
        },
        None => MIN_WORKERS,
    }
}

/// Real-time and high priority run before the rest, and nothing else does.
pub proof fn law_two_priorities_are_urgent(priority: Priority)
    ensures
        is_urgent(priority) <==> !(priority is Medium || priority is Low),
{
}

/// Nothing that arrives is lost or run twice: each piece runs once, after every piece of its class
/// that arrived before it, and after all urgent ones where it is not urgent.
pub proof fn law_arriving_work_runs_behind_its_class<R>(
    waiting: Waiting<R>,
    runnable: R,
    priority: Priority,
)
    ensures
        ({
            let before = waiting.in_order();
            let after = waiting.with(runnable, priority).in_order();
            let place = if priority is RealtimeAudio || priority is High {
                waiting.high.len() as int
            } else {
                before.len() as int
            };
            after == before.insert(place, runnable)
        }),
        !waiting.with(runnable, priority).is_nothing(),
        waiting.is_nothing() <==> waiting.in_order().len() == 0,
{
    let before = waiting.in_order();
    let after = waiting.with(runnable, priority).in_order();
    if priority is RealtimeAudio || priority is High {
        assert(after =~= before.insert(waiting.high.len() as int, runnable));
    } else {
        assert(after =~= before.insert(before.len() as int, runnable));
    }
}

/// A timer that is added keeps the others in order and stands behind all that are due no later, so
/// timers fire in the order of their times and, at one time, in the order they were added.
pub proof fn law_added_timer_stands_in_its_place<R>(
    pending: Seq<Pending<R>>,
    added: Pending<R>,
    i: int,
)
    requires
        soonest_first(pending),
        0 <= i < pending.len(),
    ensures
        ({
            let place = due_count(pending, added.at) as int;
            let after = pending.insert(place, added);
            &&& 0 <= place <= pending.len()
            &&& soonest_first(after)
            &&& after[place] == added
            &&& pending[i].at <= added.at ==> i < place && after[i] == pending[i]
            &&& pending[i].at > added.at ==> i >= place && after[i + 1] == pending[i]
        }),
{
    let place = due_count(pending, added.at) as int;
    let after = pending.insert(place, added);
    lemma_due_count(pending, added.at);
    law_exactly_the_due_timers_fire(pending, added.at, i);
    assert forall|a: int, b: int| 0 <= a <= b < after.len() implies (#[trigger] after[a]).at <= (
    #[trigger] after[b]).at by {
        if a < place {
            law_exactly_the_due_timers_fire(pending, added.at, a);
        }
        if b > place {
            law_exactly_the_due_timers_fire(pending, added.at, b - 1);
        }
        if a < place && b < place {
            assert(pending[a].at <= pending[b].at);
        } else if a > place {
            assert(pending[a - 1].at <= pending[b - 1].at);
        }
    }
}

/// Timers give their work in their own order, each its own.
pub proof fn law_timers_give_their_work<R>(pending: Seq<Pending<R>>, i: int)
    requires
        0 <= i < pending.len(),
    ensures
        runnables(pending).len() == pending.len(),
        runnables(pending)[i] == pending[i].runnable,
        MIN_WORKERS == 2,
{
}

} // verus!
