//! Cooperative threads.
//!
//! Exactly one thread runs at a time: the one that holds the baton. It changes
//! hands only where a thread blocks, waits for another to finish, or lends it,
//! so what runs when is decided here and nowhere else.
use vstd::prelude::*;

verus! {

/// The thread that there is from the start.
pub const MAIN: usize = 0;

/// Who runs, who waits, and who is done.
pub struct Sched {
    turn: usize,
    waiting: Vec<u32>,
    done: Vec<bool>,
    stopped: bool,
}

/// Threads as mathematics.
#[verifier::ext_equal]
pub struct Threads {
    /// Who holds the baton.
    pub turn: int,
    /// What each thread waits for; zero where it can run.
    pub waiting: Seq<u32>,
    /// Whether each thread is done.
    pub done: Seq<bool>,
    /// Whether all are to give up.
    pub stopped: bool,
}

/// What became of an offer to give the baton away.
#[derive(Clone, Copy, Debug, PartialEq, Eq, Structural)]
pub enum Handover {
    /// All are to give up.
    Stopped,
    /// Nobody else can run: the thread keeps it and runs on.
    Kept,
    /// Another thread has it now: the thread waits for its turn.
    Passed,
}

impl Threads {
    /// As many threads wait as are done or not.
    pub open spec fn wf(self) -> bool {
        self.waiting.len() == self.done.len()
    }

    /// Whether a thread can run.
    pub open spec fn can_run(self, k: int) -> bool {
        0 <= k < self.waiting.len() && !self.done[k] && self.waiting[k] == 0
    }

    /// Whether a thread still has to wait for the baton; where not, whether it
    /// is to run rather than to give up.
    pub open spec fn word_to(self, me: int) -> Option<bool> {
        if self.turn != me && !self.stopped {
            None
        } else {
            Some(!self.stopped)
        }
    }

    /// The first thread from `from` on that can run, `me` aside.
    pub open spec fn next_from(self, me: int, from: int) -> Option<int>
        decreases self.waiting.len() - from,
    {
        if from < 0 || from >= self.waiting.len() {
            None
        } else if from != me && self.can_run(from) {
            Some(from)
        } else {
            self.next_from(me, from + 1)
        }
    }

    /// Threads after `me` offered the baton, and what became of the offer.
    pub open spec fn offered(self, me: int) -> (Threads, Handover) {
        if self.stopped {
            (self, Handover::Stopped)
        } else {
            match self.next_from(me, 0) {
                Some(k) => (Threads { turn: k, ..self }, Handover::Passed),
                None => (
                    Threads { waiting: self.waiting.update(me, 0), ..self },
                    Handover::Kept,
                ),
            }
        }
    }

    /// Whether a thread is done. One that is not there counts as done.
    pub open spec fn is_done(self, k: int) -> bool {
        k >= self.done.len() || self.done[k]
    }

    /// Threads after `me` looked whether another is done, and what became of
    /// the offer that it made where that one is not.
    pub open spec fn joining(self, me: int, other: int) -> (Threads, Option<Handover>) {
        if self.is_done(other) {
            (self, None)
        } else {
            (self.offered(me).0, Some(self.offered(me).1))
        }
    }

    /// Threads with `me` waiting for a condition.
    pub open spec fn blocked(self, me: int, cond: u32) -> Threads {
        Threads { waiting: self.waiting.update(me, named(cond)), ..self }
    }

    /// Threads with nobody waiting for a condition.
    pub open spec fn signalled(self, cond: u32) -> Threads {
        Threads {
            waiting: self.waiting.map_values(
                |w: u32|
                    if w == named(cond) {
                        0
                    } else {
                        w
                    },
            ),
            ..self
        }
    }
}

/// What stands for a condition: its address, or one where that is zero.
pub open spec fn named(cond: u32) -> u32 {
    if cond == 0 {
        1
    } else {
        cond
    }
}

impl View for Sched {
    type V = Threads;

    closed spec fn view(&self) -> Threads {
        Threads {
            turn: self.turn as int,
            waiting: self.waiting@,
            done: self.done@,
            stopped: self.stopped,
        }
    }
}

impl Sched {
    /// The main thread alone, with the baton.
    pub fn new() -> (r: Sched)
        ensures
            r@ == (Threads { turn: 0, waiting: seq![0u32], done: seq![false], stopped: false }),
            r@.wf(),
    {
        let r = Sched { turn: MAIN, waiting: vec![0u32], done: vec![false], stopped: false };
        assert(r.waiting@ =~= seq![0u32]);
        assert(r.done@ =~= seq![false]);
        r
    }

    /// Adds a thread that can run, and returns its index.
    pub fn enrol(&mut self) -> (r: usize)
        requires
            old(self)@.wf(),
        ensures
            r == old(self)@.waiting.len(),
            final(self)@ == (Threads {
                waiting: old(self)@.waiting.push(0),
                done: old(self)@.done.push(false),
                ..old(self)@
            }),
            final(self)@.wf(),
    {
        let n: usize = self.waiting.len();
        self.waiting.push(0);
        self.done.push(false);
        n
    }

    /// The first thread that can run, `me` aside.
    fn runnable(&self, me: usize) -> (r: Option<usize>)
        requires
            self@.wf(),
        ensures
            match (r, self@.next_from(me as int, 0)) {
                (Some(k), Some(want)) => k == want,
                (None, None) => true,
                _ => false,
            },
    {
        let mut k: usize = 0;
        while k < self.waiting.len()
            invariant
                self@.wf(),
                k <= self.waiting@.len(),
                self@.next_from(me as int, 0) == self@.next_from(me as int, k as int),
            decreases self.waiting@.len() - k,
        {
            if k != me && !self.done[k] && self.waiting[k] == 0 {
                return Some(k);
            }
            k = k + 1;
        }
        None
    }

    /// Offers the baton to another thread.
    pub fn hand_off(&mut self, me: usize) -> (r: Handover)
        requires
            old(self)@.wf(),
            me < old(self)@.waiting.len(),
        ensures
            (final(self)@, r) == old(self)@.offered(me as int),
            final(self)@.wf(),
    {
        if self.stopped {
            return Handover::Stopped;
        }
        match self.runnable(me) {
            Some(k) => {
                self.turn = k;
                Handover::Passed
            },
            None => {
                self.waiting[me] = 0;
                Handover::Kept
            },
        }
    }

    /// Whether a thread still has to wait for the baton; where not, whether it
    /// is to run rather than to give up.
    pub fn wait_turn(&self, me: usize) -> (r: Option<bool>)
        ensures
            r == self@.word_to(me as int),
    {
        if self.turn != me && !self.stopped {
            None
        } else {
            Some(!self.stopped)
        }
    }

    /// Blocks a thread on a condition, and offers the baton.
    pub fn cond_wait(&mut self, me: usize, cond: u32) -> (r: Handover)
        requires
            old(self)@.wf(),
            me < old(self)@.waiting.len(),
        ensures
            (final(self)@, r) == old(self)@.blocked(me as int, cond).offered(me as int),
            final(self)@.wf(),
    {
        self.waiting[me] = if cond == 0 {
            1
        } else {
            cond
        };
        self.hand_off(me)
    }

    /// Lets every thread that waits for a condition run again.
    pub fn cond_signal(&mut self, cond: u32)
        requires
            old(self)@.wf(),
        ensures
            final(self)@ == old(self)@.signalled(cond),
            final(self)@.wf(),
    {
        let want: u32 = if cond == 0 {
            1
        } else {
            cond
        };
        let ghost before = self.waiting@;
        let mut k: usize = 0;
        while k < self.waiting.len()
            invariant
                self@.wf(),
                want == named(cond),
                before == old(self)@.waiting,
                k <= self.waiting@.len() == before.len(),
                self.turn == old(self)@.turn,
                self.done@ == old(self)@.done,
                self.stopped == old(self)@.stopped,
                forall|i: int|
                    0 <= i < k ==> #[trigger] self.waiting@[i] == if before[i] == want {
                        0u32
                    } else {
                        before[i]
                    },
                forall|i: int| k <= i < before.len() ==> #[trigger] self.waiting@[i] == before[i],
            decreases before.len() - k,
        {
            if self.waiting[k] == want {
                self.waiting[k] = 0;
            }
            k = k + 1;
        }
        assert(self.waiting@ =~= old(self)@.signalled(cond).waiting);
    }

    /// Whether a thread is done. One that is not there counts as done.
    pub fn finished(&self, k: usize) -> (r: bool)
        ensures
            r == self@.is_done(k as int),
    {
        if k < self.done.len() {
            self.done[k]
        } else {
            true
        }
    }

    /// One turn of waiting for another thread to finish: nothing where it is
    /// done, and otherwise an offer of the baton. The wait goes on as long as
    /// that is passed.
    pub fn join(&mut self, me: usize, other: usize) -> (r: Option<Handover>)
        requires
            old(self)@.wf(),
            me < old(self)@.waiting.len(),
        ensures
            (final(self)@, r) == old(self)@.joining(me as int, other as int),
            final(self)@.wf(),
    {
        if self.finished(other) {
            None
        } else {
            Some(self.hand_off(me))
        }
    }

    /// Marks a thread done, and passes the baton on, to the main thread where
    /// nobody can run.
    pub fn finish(&mut self, me: usize)
        requires
            old(self)@.wf(),
            me < old(self)@.waiting.len(),
        ensures
            ({
                let ended = Threads { done: old(self)@.done.update(me as int, true), ..old(self)@ };
                final(self)@ == (Threads {
                    turn: match ended.next_from(me as int, 0) {
                        Some(k) => k,
                        None => 0,
                    },
                    ..ended
                })
            }),
            final(self)@.wf(),
    {
        self.done[me] = true;
        self.turn = match self.runnable(me) {
            Some(k) => k,
            None => MAIN,
        };
    }

    /// Makes every thread give up.
    pub fn shutdown(&mut self)
        ensures
            final(self)@ == (Threads { stopped: true, ..old(self)@ }),
    {
        self.stopped = true;
    }
}

/// The baton only ever goes to another thread that can run, and it is passed
/// whenever there is one.
pub proof fn baton_goes_to_one_that_can_run(t: Threads, me: int)
    requires
        t.wf(),
        !t.stopped,
    ensures
        t.offered(me).1 == Handover::Passed ==> {
            let to = t.offered(me).0.turn;
            to != me && t.can_run(to)
        },
        (exists|k: int| k != me && t.can_run(k)) ==> t.offered(me).1 == Handover::Passed,
{
    next_is_first(t, me, 0);
    if exists|k: int| k != me && t.can_run(k) {
        let k = choose|k: int| k != me && t.can_run(k);
        assert(t.can_run(k));
    }
}

proof fn next_is_first(t: Threads, me: int, from: int)
    requires
        0 <= from,
    ensures
        match t.next_from(me, from) {
            Some(k) => from <= k && k != me && t.can_run(k) && forall|j: int|
                from <= j < k && j != me ==> !#[trigger] t.can_run(j),
            None => forall|j: int| from <= j && j != me ==> !#[trigger] t.can_run(j),
        },
    decreases t.waiting.len() - from,
{
    if from < t.waiting.len() && !(from != me && t.can_run(from)) {
        next_is_first(t, me, from + 1);
    }
}

/// A signal wakes exactly the threads that wait for it: one that waited can run
/// again, and any other is as it was.
pub proof fn signals_wake_their_waiters(t: Threads, me: int, cond: u32, k: int)
    requires
        t.wf(),
        0 <= me < t.waiting.len(),
        0 <= k < t.waiting.len(),
    ensures
        !t.done[me] ==> t.blocked(me, cond).signalled(cond).can_run(me),
        t.waiting[k] != named(cond) ==> t.signalled(cond).waiting[k] == t.waiting[k],
{
}

/// Waiting for a thread to finish ends only where it is done, all are to give
/// up, or nobody else can run, and then the baton stays where it is.
pub proof fn joins_wait_for_the_other(t: Threads, me: int, other: int)
    requires
        t.wf(),
        0 <= me < t.waiting.len(),
    ensures
        t.joining(me, other).1 != Some(Handover::Passed) ==> {
            ||| t.is_done(other)
            ||| t.stopped
            ||| forall|k: int| k != me ==> !#[trigger] t.can_run(k)
        },
        t.joining(me, other).1 != Some(Handover::Passed) ==> t.joining(me, other).0.turn == t.turn,
{
    if !t.stopped {
        baton_goes_to_one_that_can_run(t, me);
    }
}

/// Two threads are never told to run at once.
pub proof fn one_thread_runs(t: Threads, a: int, b: int)
    requires
        t.word_to(a) == Some(true),
        t.word_to(b) == Some(true),
    ensures
        a == b,
{
}

/// An offer goes to the lowest thread that can run, and nobody's waiting changes
/// by it. Where there is none the baton stays, and the one that offered waits no
/// longer.
pub proof fn offers_go_to_the_lowest(t: Threads, me: int, k: int)
    requires
        t.wf(),
        !t.stopped,
        0 <= me < t.waiting.len(),
    ensures
        k != me && t.can_run(k) ==> t.offered(me).0.turn <= k && t.offered(me).0.turn != me,
        t.offered(me).0.done == t.done,
        t.offered(me).1 == Handover::Passed ==> t.offered(me).0.waiting == t.waiting,
        t.offered(me).1 != Handover::Passed ==> t.offered(me).0.turn == t.turn && t.offered(
            me,
        ).0.waiting[me] == 0 && (k != me && 0 <= k < t.waiting.len() ==> t.offered(me).0.waiting[k]
            == t.waiting[k]),
{
    next_is_lowest(t, me, 0, k);
}

proof fn next_is_lowest(t: Threads, me: int, from: int, k: int)
    requires
        0 <= from,
    ensures
        from <= k && k != me && t.can_run(k) ==> (t.next_from(me, from) matches Some(j) && from <= j
            <= k && j != me),
    decreases t.waiting.len() - from,
{
    if from < t.waiting.len() && !(from != me && t.can_run(from)) {
        next_is_lowest(t, me, from + 1, k);
    }
}

/// A thread that waits for a condition cannot run until that is signalled: no
/// other signal wakes it, and no other thread's waiting changes by its own.
pub proof fn waiters_wait_for_their_signal(t: Threads, me: int, cond: u32, other: u32, k: int)
    requires
        t.wf(),
        0 <= me < t.waiting.len(),
        0 <= k < t.waiting.len(),
        k != me,
        cond > 1,
        other != cond,
    ensures
        !t.blocked(me, cond).can_run(me),
        !t.blocked(me, cond).signalled(other).can_run(me),
        t.blocked(me, cond).waiting[k] == t.waiting[k],
        t.blocked(me, cond).done == t.done,
        t.signalled(cond).done == t.done,
        t.signalled(cond).turn == t.turn,
        t.stopped ==> t.word_to(k) == Some(false),
        !t.stopped && t.turn == me ==> t.word_to(me) == Some(true) && t.word_to(k) is None,
{
}

} // verus!
