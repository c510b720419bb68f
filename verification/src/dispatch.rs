//! The dispatch channel and the workers that read it, as a transition
//! system, and what holds of every run of it.
//!
//! The channel is a queue: messages leave it in the order in which they were
//! sent, each to one worker. A worker takes the receive lock, receives one
//! message and lets the lock go; a job it then runs to its end before it
//! asks for the lock again, and an order to stop ends it.

use crate::worker::{Message, WorkerState};
use vstd::prelude::*;

verus! {

/// The channel and the workers at one moment.
pub struct Dispatch<J> {
    /// Every message sent so far, in the order of sending.
    pub sent: Seq<Message<J>>,
    /// How many of them have been received; the others wait in the queue.
    pub taken: nat,
    /// The state of each worker, by its number.
    pub workers: Seq<WorkerState>,
    /// For a worker that runs a job: the place of that job in `sent`.
    pub running: Seq<int>,
    /// The jobs that were run to their end, in the order in which they
    /// ended: the number of the worker, and the place of the job in `sent`.
    pub finished: Seq<(int, int)>,
}

/// What can happen to the channel and the workers.
pub enum Move<J> {
    /// A message is sent.
    Post(Message<J>),
    /// The worker is granted the receive lock.
    Grant(int),
    /// The worker receives the message at the head of the queue and lets
    /// the lock go.
    Deliver(int),
    /// The job that the worker runs comes to its end.
    Complete(int),
}

impl<J> Dispatch<J> {
    /// The start: `size` idle workers and nothing sent.
    pub open spec fn start(size: nat) -> Dispatch<J> {
        Dispatch {
            sent: Seq::empty(),
            taken: 0,
            workers: Seq::new(size, |w: int| WorkerState::Idle),
            running: Seq::new(size, |w: int| 0int),
            finished: Seq::empty(),
        }
    }

    /// The messages that wait in the queue, the next one first.
    pub open spec fn queue(self) -> Seq<Message<J>> {
        self.sent.skip(self.taken as int)
    }

    /// `w` is the number of a worker.
    pub open spec fn is_worker(self, w: int) -> bool {
        0 <= w < self.workers.len()
    }

    /// No worker holds the receive lock.
    pub open spec fn lock_free(self) -> bool {
        forall|w: int| self.is_worker(w) ==> self.workers[w] != WorkerState::Dequeuing
    }

    /// Every worker has been told to stop and has stopped.
    pub open spec fn all_terminated(self) -> bool {
        forall|w: int| self.is_worker(w) ==> self.workers[w] == WorkerState::Terminated
    }

    /// Whether `m` can happen now.
    pub open spec fn enabled(self, m: Move<J>) -> bool {
        match m {
            Move::Post(_) => true,
            Move::Grant(w) => self.is_worker(w) && self.workers[w] == WorkerState::Idle
                && self.lock_free(),
            Move::Deliver(w) => self.is_worker(w) && self.workers[w] == WorkerState::Dequeuing
                && self.taken < self.sent.len(),
            Move::Complete(w) => self.is_worker(w) && self.workers[w] == WorkerState::Running,
        }
    }

    /// The channel and the workers after `m` has happened.
    pub open spec fn apply(self, m: Move<J>) -> Dispatch<J> {
        match m {
            Move::Post(message) => Dispatch { sent: self.sent.push(message), ..self },
            Move::Grant(w) => Dispatch {
                workers: self.workers.update(w, WorkerState::Dequeuing),
                ..self
            },
            Move::Deliver(w) => {
                let message = self.sent[self.taken as int];
                if message.is_job() {
                    Dispatch {
                        taken: self.taken + 1,
                        workers: self.workers.update(w, WorkerState::Running),
                        running: self.running.update(w, self.taken as int),
                        ..self
                    }
                } else {
                    Dispatch {
                        taken: self.taken + 1,
                        workers: self.workers.update(w, WorkerState::Terminated),
                        ..self
                    }
                }
            },
            Move::Complete(w) => Dispatch {
                workers: self.workers.update(w, WorkerState::Idle),
                finished: self.finished.push((w, self.running[w])),
                ..self
            },
        }
    }

    /// Each of `moves` can happen in its turn, from `self` on.
    pub open spec fn admits(self, moves: Seq<Move<J>>) -> bool
        decreases moves.len(),
    {
        moves.len() > 0 ==> self.admits(moves.drop_last()) && self.after(
            moves.drop_last(),
        ).enabled(moves.last())
    }

    /// The channel and the workers after `moves` have happened in turn.
    pub open spec fn after(self, moves: Seq<Move<J>>) -> Dispatch<J>
        decreases moves.len(),
    {
        if moves.len() == 0 {
            self
        } else {
            self.after(moves.drop_last()).apply(moves.last())
        }
    }
}

impl<J> Dispatch<J> {
    /// `i` is the place of a job that has been received.
    pub open spec fn received_job(self, i: int) -> bool {
        0 <= i < self.taken && self.sent[i].is_job()
    }

    /// Worker `w` is running the job at place `i`.
    pub open spec fn runs(self, w: int, i: int) -> bool {
        self.is_worker(w) && self.workers[w] == WorkerState::Running && self.running[w] == i
    }

    /// The entry at place `p` of the record of finished jobs is for the job
    /// at place `i`.
    pub open spec fn ended_at(self, p: int, i: int) -> bool {
        0 <= p < self.finished.len() && self.finished[p].1 == i
    }

    /// The record keeping is sound: the counters are in range and at most
    /// one worker holds the lock.
    pub open spec fn shape(self) -> bool {
        &&& self.running.len() == self.workers.len()
        &&& self.taken <= self.sent.len()
        &&& forall|a: int, b: int|
            self.is_worker(a) && self.is_worker(b) && self.workers[a] == WorkerState::Dequeuing
                && self.workers[b] == WorkerState::Dequeuing ==> a == b
    }

    /// As many workers have stopped as orders to stop were received, and
    /// when all have stopped, the last message received was such an order.
    pub open spec fn stops_match(self) -> bool {
        &&& stopped(self.workers) == orders(self.sent.take(self.taken as int))
        &&& self.all_terminated() && self.workers.len() > 0 ==> self.taken > 0
            && !self.sent[self.taken - 1].is_job()
    }

    /// What runs and what has ended is a job that was received, and no job
    /// runs or has ended twice.
    pub open spec fn at_most_once(self) -> bool {
        &&& forall|w: int|
            self.is_worker(w) && self.workers[w] == WorkerState::Running ==> self.received_job(
                #[trigger] self.running[w],
            )
        &&& forall|p: int|
            0 <= p < self.finished.len() ==> self.is_worker((#[trigger] self.finished[p]).0)
                && self.received_job(self.finished[p].1)
        &&& forall|a: int, b: int|
            self.is_worker(a) && self.is_worker(b) && self.workers[a] == WorkerState::Running
                && self.workers[b] == WorkerState::Running && self.running[a]
                == self.running[b] ==> a == b
        &&& forall|p: int, q: int|
            0 <= p < self.finished.len() && 0 <= q < self.finished.len() && self.finished[p].1
                == self.finished[q].1 ==> p == q
        &&& forall|w: int, p: int|
            self.is_worker(w) && self.workers[w] == WorkerState::Running && 0 <= p
                < self.finished.len() ==> self.running[w] != self.finished[p].1
    }

    /// Every job that was received runs or has ended.
    pub open spec fn at_least_once(self) -> bool {
        forall|i: int| #[trigger]
            self.received_job(i) ==> (exists|w: int| self.runs(w, i)) || (exists|p: int|
                self.ended_at(p, i))
    }

    /// What one worker has ended, it has ended in the order of sending, and
    /// what it runs was sent after all that it has ended.
    pub open spec fn in_order(self) -> bool {
        &&& forall|p: int, q: int|
            0 <= p < q < self.finished.len() && self.finished[p].0 == self.finished[q].0
                ==> self.finished[p].1 < self.finished[q].1
        &&& forall|w: int, p: int|
            self.is_worker(w) && self.workers[w] == WorkerState::Running && 0 <= p
                < self.finished.len() && self.finished[p].0 == w ==> self.finished[p].1
                < self.running[w]
    }

    /// What holds at every moment of every run.
    pub open spec fn inv(self) -> bool {
        &&& self.shape()
        &&& self.stops_match()
        &&& self.at_most_once()
        &&& self.at_least_once()
        &&& self.in_order()
    }
}

/// How many of `workers` have stopped.
pub open spec fn stopped(workers: Seq<WorkerState>) -> nat
    decreases workers.len(),
{
    if workers.len() == 0 {
        0
    } else {
        stopped(workers.drop_last()) + if workers.last() == WorkerState::Terminated {
            1nat
        } else {
            0nat
        }
    }
}

/// How many of `messages` are orders to stop.
pub open spec fn orders<J>(messages: Seq<Message<J>>) -> nat
    decreases messages.len(),
{
    if messages.len() == 0 {
        0
    } else {
        orders(messages.drop_last()) + if messages.last().is_job() {
            0nat
        } else {
            1nat
        }
    }
}

/// Changing one worker's state changes the count of the stopped by that
/// worker alone.
pub proof fn lemma_stopped_update(workers: Seq<WorkerState>, w: int, state: WorkerState)
    requires
        0 <= w < workers.len(),
    ensures
        stopped(workers.update(w, state)) + (if workers[w] == WorkerState::Terminated {
            1nat
        } else {
            0nat
        }) == stopped(workers) + (if state == WorkerState::Terminated {
            1nat
        } else {
            0nat
        }),
    decreases workers.len(),
{
    let changed = workers.update(w, state);
    if w == workers.len() - 1 {
        assert(changed.drop_last() =~= workers.drop_last());
    } else {
        assert(changed.drop_last() =~= workers.drop_last().update(w, state));
        lemma_stopped_update(workers.drop_last(), w, state);
    }
}

/// No more workers have stopped than there are, and all have stopped just
/// when the count says so.
pub proof fn lemma_stopped_all(workers: Seq<WorkerState>)
    ensures
        stopped(workers) <= workers.len(),
        stopped(workers) == workers.len() <==> forall|w: int|
            0 <= w < workers.len() ==> workers[w] == WorkerState::Terminated,
    decreases workers.len(),
{
    if workers.len() > 0 {
        let front = workers.drop_last();
        lemma_stopped_all(front);
        if stopped(workers) == workers.len() {
            assert forall|w: int| 0 <= w < workers.len() implies workers[w]
                == WorkerState::Terminated by {
                if w < front.len() {
                    assert(front[w] == workers[w]);
                }
            }
        }
        if forall|w: int| 0 <= w < workers.len() ==> workers[w] == WorkerState::Terminated {
            assert forall|w: int| 0 <= w < front.len() implies front[w]
                == WorkerState::Terminated by {
                assert(front[w] == workers[w]);
            }
        }
    }
}

/// The orders to stop among the first `n + 1` messages are those among the
/// first `n`, and the message at place `n` if it is one.
pub proof fn lemma_orders_next<J>(messages: Seq<Message<J>>, n: int)
    requires
        0 <= n < messages.len(),
    ensures
        orders(messages.take(n + 1)) == orders(messages.take(n)) + if messages[n].is_job() {
            0nat
        } else {
            1nat
        },
{
    assert(messages.take(n + 1).drop_last() =~= messages.take(n));
}

/// The orders to stop in a sequence are those before place `n` and those
/// from it on.
pub proof fn lemma_orders_split<J>(messages: Seq<Message<J>>, n: int)
    requires
        0 <= n <= messages.len(),
    ensures
        orders(messages) == orders(messages.take(n)) + orders(messages.skip(n)),
    decreases messages.len() - n,
{
    if n == messages.len() {
        assert(messages.take(n) =~= messages);
        assert(messages.skip(n) =~= Seq::<Message<J>>::empty());
    } else {
        let tail = messages.skip(n);
        lemma_orders_split(messages, n + 1);
        lemma_orders_next(messages, n);
        lemma_orders_first(tail);
        assert(tail.skip(1) =~= messages.skip(n + 1));
    }
}

/// The orders to stop in a sequence are its first message, if it is one,
/// and those that follow.
pub proof fn lemma_orders_first<J>(messages: Seq<Message<J>>)
    requires
        messages.len() > 0,
    ensures
        orders(messages) == orders(messages.skip(1)) + if messages[0].is_job() {
            0nat
        } else {
            1nat
        },
    decreases messages.len(),
{
    if messages.len() == 1 {
        assert(messages.drop_last() =~= Seq::<Message<J>>::empty());
        assert(messages.skip(1) =~= Seq::<Message<J>>::empty());
    } else {
        let front = messages.drop_last();
        lemma_orders_first(front);
        assert(front.skip(1) =~= messages.skip(1).drop_last());
    }
}

/// A sequence without orders to stop holds jobs only.
pub proof fn lemma_orders_none<J>(messages: Seq<Message<J>>)
    requires
        orders(messages) == 0,
    ensures
        forall|i: int| 0 <= i < messages.len() ==> messages[i].is_job(),
    decreases messages.len(),
{
    if messages.len() > 0 {
        let front = messages.drop_last();
        lemma_orders_none(front);
        assert forall|i: int| 0 <= i < messages.len() implies messages[i].is_job() by {
            if i < front.len() {
                assert(front[i] == messages[i]);
            }
        }
    }
}

/// A pool for `size` workers starts with exactly `size` workers, all idle:
/// nothing is sent, nothing runs, and nobody holds the receive lock.
pub proof fn lemma_start_idle<J>(size: nat)
    ensures
        Dispatch::<J>::start(size).workers.len() == size,
        forall|w: int|
            0 <= w < size ==> (#[trigger] Dispatch::<J>::start(size).workers[w])
                == WorkerState::Idle,
        Dispatch::<J>::start(size).queue() == Seq::<Message<J>>::empty(),
        Dispatch::<J>::start(size).finished == Seq::<(int, int)>::empty(),
        Dispatch::<J>::start(size).lock_free(),
{
    assert(Dispatch::<J>::start(size).queue() =~= Seq::<Message<J>>::empty());
}

/// The invariant holds at the start.
pub proof fn lemma_start_inv<J>(size: nat)
    ensures
        Dispatch::<J>::start(size).inv(),
{
    let s = Dispatch::<J>::start(size);
    assert(s.sent.take(0) =~= Seq::<Message<J>>::empty());
    lemma_stopped_all(s.workers);
    if size > 0 {
        assert(s.is_worker(0));
        assert(s.workers[0] == WorkerState::Idle);
    }
    assert(stopped(s.workers) == 0) by {
        lemma_stopped_none(s.workers);
    }
}

/// Where no worker has stopped, the count is zero.
pub proof fn lemma_stopped_none(workers: Seq<WorkerState>)
    requires
        forall|w: int| 0 <= w < workers.len() ==> workers[w] != WorkerState::Terminated,
    ensures
        stopped(workers) == 0,
    decreases workers.len(),
{
    if workers.len() > 0 {
        let front = workers.drop_last();
        assert forall|w: int| 0 <= w < front.len() implies front[w]
            != WorkerState::Terminated by {
            assert(front[w] == workers[w]);
        }
        lemma_stopped_none(front);
    }
}

/// Sending a message keeps the invariant.
pub proof fn lemma_post_inv<J>(s: Dispatch<J>, message: Message<J>)
    requires
        s.inv(),
    ensures
        s.apply(Move::Post(message)).inv(),
{
    let t = s.apply(Move::Post(message));
    assert(t.sent.take(t.taken as int) =~= s.sent.take(s.taken as int));
    assert forall|i: int| t.received_job(i) == s.received_job(i) by {}
    assert forall|w: int| t.is_worker(w) == s.is_worker(w) by {}
    assert(t.all_terminated() == s.all_terminated());
    assert forall|i: int| #[trigger] t.received_job(i) implies (exists|w: int| t.runs(w, i)) || (
    exists|p: int| t.ended_at(p, i)) by {
        assert(s.received_job(i));
        if exists|w: int| s.runs(w, i) {
            let w = choose|w: int| s.runs(w, i);
            assert(t.runs(w, i));
        } else {
            let p = choose|p: int| s.ended_at(p, i);
            assert(t.ended_at(p, i));
        }
    }
}

/// Granting the lock keeps the invariant.
pub proof fn lemma_grant_inv<J>(s: Dispatch<J>, w: int)
    requires
        s.inv(),
        s.enabled(Move::Grant(w)),
    ensures
        s.apply(Move::Grant(w)).inv(),
{
    let t = s.apply(Move::Grant(w));
    lemma_stopped_update(s.workers, w, WorkerState::Dequeuing);
    assert(t.is_worker(w) && t.workers[w] != WorkerState::Terminated);
    assert forall|i: int| #[trigger] t.received_job(i) implies (exists|v: int| t.runs(v, i)) || (
    exists|p: int| t.ended_at(p, i)) by {
        assert(s.received_job(i));
        if exists|v: int| s.runs(v, i) {
            let v = choose|v: int| s.runs(v, i);
            assert(t.runs(v, i));
        } else {
            let p = choose|p: int| s.ended_at(p, i);
            assert(t.ended_at(p, i));
        }
    }
}

/// Receiving a message keeps the invariant.
pub proof fn lemma_deliver_inv<J>(s: Dispatch<J>, w: int)
    requires
        s.inv(),
        s.enabled(Move::Deliver(w)),
    ensures
        s.apply(Move::Deliver(w)).inv(),
{
    let t = s.apply(Move::Deliver(w));
    let n = s.taken as int;
    lemma_orders_next(s.sent, n);
    if s.sent[n].is_job() {
        lemma_stopped_update(s.workers, w, WorkerState::Running);
        assert(t.is_worker(w) && t.workers[w] != WorkerState::Terminated);
        assert(t.runs(w, n));
    } else {
        lemma_stopped_update(s.workers, w, WorkerState::Terminated);
    }
    assert forall|i: int| #[trigger] t.received_job(i) implies (exists|v: int| t.runs(v, i)) || (
    exists|p: int| t.ended_at(p, i)) by {
        if i == n {
            assert(t.runs(w, n));
        } else {
            assert(s.received_job(i));
            if exists|v: int| s.runs(v, i) {
                let v = choose|v: int| s.runs(v, i);
                assert(v != w);
                assert(t.runs(v, i));
            } else {
                let p = choose|p: int| s.ended_at(p, i);
                assert(t.ended_at(p, i));
            }
        }
    }
}

/// The end of a job keeps the invariant.
pub proof fn lemma_complete_inv<J>(s: Dispatch<J>, w: int)
    requires
        s.inv(),
        s.enabled(Move::Complete(w)),
    ensures
        s.apply(Move::Complete(w)).inv(),
{
    let t = s.apply(Move::Complete(w));
    let last = s.finished.len() as int;
    lemma_stopped_update(s.workers, w, WorkerState::Idle);
    assert(t.is_worker(w) && t.workers[w] != WorkerState::Terminated);
    assert(t.sent.take(t.taken as int) == s.sent.take(s.taken as int));
    assert(s.received_job(s.running[w]));
    assert forall|i: int| #[trigger] t.received_job(i) implies (exists|v: int| t.runs(v, i)) || (
    exists|p: int| t.ended_at(p, i)) by {
        assert(s.received_job(i));
        if exists|v: int| s.runs(v, i) {
            let v = choose|v: int| s.runs(v, i);
            if v == w {
                assert(t.ended_at(last, i));
            } else {
                assert(t.runs(v, i));
            }
        } else {
            let p = choose|p: int| s.ended_at(p, i);
            assert(t.ended_at(p, i));
        }
    }
}

/// Whatever can happen keeps the invariant.
pub proof fn lemma_move_inv<J>(s: Dispatch<J>, m: Move<J>)
    requires
        s.inv(),
        s.enabled(m),
    ensures
        s.apply(m).inv(),
{
    match m {
        Move::Post(message) => lemma_post_inv(s, message),
        Move::Grant(w) => lemma_grant_inv(s, w),
        Move::Deliver(w) => lemma_deliver_inv(s, w),
        Move::Complete(w) => lemma_complete_inv(s, w),
    }
}

/// The invariant holds after every run from a moment at which it holds.
pub proof fn lemma_after_inv<J>(s: Dispatch<J>, moves: Seq<Move<J>>)
    requires
        s.inv(),
        s.admits(moves),
    ensures
        s.after(moves).inv(),
    decreases moves.len(),
{
    if moves.len() > 0 {
        lemma_after_inv(s, moves.drop_last());
        lemma_move_inv(s.after(moves.drop_last()), moves.last());
    }
}

/// The invariant holds after every run from the start.
pub proof fn lemma_run_inv<J>(size: nat, moves: Seq<Move<J>>)
    requires
        Dispatch::<J>::start(size).admits(moves),
    ensures
        Dispatch::<J>::start(size).after(moves).inv(),
{
    lemma_start_inv::<J>(size);
    lemma_after_inv(Dispatch::<J>::start(size), moves);
}

/// Each move of a worker is a turn of the worker's loop, and leaves the
/// other workers as they are.
pub proof fn lemma_worker_follows_its_loop<J>(s: Dispatch<J>, m: Move<J>)
    requires
        s.enabled(m),
    ensures
        match m {
            Move::Post(_) => s.apply(m).workers == s.workers,
            Move::Grant(w) => Some(s.apply(m).workers[w]) == s.workers[w].after_lock(),
            Move::Deliver(w) => Some(s.apply(m).workers[w]) == s.workers[w].after_message(
                s.queue()[0].is_job(),
            ),
            Move::Complete(w) => Some(s.apply(m).workers[w]) == s.workers[w].after_job(),
        },
        forall|v: int|
            s.is_worker(v) && m != Move::<J>::Grant(v) && m != Move::<J>::Deliver(v) && m
                != Move::<J>::Complete(v) ==> s.apply(m).workers[v] == s.workers[v],
{
}

/// The channel is a queue: a worker receives the message that has waited
/// longest, and the others wait on in their order; a message that is sent
/// waits behind all those that wait.
pub proof fn lemma_first_in_first_out<J>(s: Dispatch<J>, m: Move<J>)
    requires
        s.shape(),
        s.enabled(m),
    ensures
        match m {
            Move::Post(message) => s.apply(m).queue() == s.queue().push(message),
            Move::Grant(_) => s.apply(m).queue() == s.queue(),
            Move::Deliver(w) => s.apply(m).queue() == s.queue().skip(1) && (s.queue()[0].is_job()
                ==> s.apply(m).runs(w, s.taken as int)),
            Move::Complete(_) => s.apply(m).queue() == s.queue(),
        },
{
    let t = s.apply(m);
    match m {
        Move::Post(message) => {
            assert(t.queue() =~= s.queue().push(message));
        },
        Move::Grant(_) => {},
        Move::Deliver(w) => {
            assert(t.queue() =~= s.queue().skip(1));
        },
        Move::Complete(_) => {},
    }
}

/// A worker ends its jobs in the order in which they were sent: of two jobs
/// that the same worker ran, the one sent first stands first in the record.
pub proof fn lemma_same_worker_in_order<J>(s: Dispatch<J>, p: int, q: int)
    requires
        s.inv(),
        0 <= p < s.finished.len(),
        0 <= q < s.finished.len(),
        s.finished[p].0 == s.finished[q].0,
        s.finished[p].1 < s.finished[q].1,
    ensures
        p < q,
{
    if q < p {
        assert(s.finished[q].1 < s.finished[p].1);
    }
}

/// No job is run twice, whoever runs it: a job stands at most once in the
/// record of finished jobs, and a job that still runs does not stand there.
pub proof fn lemma_at_most_once<J>(s: Dispatch<J>, i: int, p: int, q: int)
    requires
        s.inv(),
        s.ended_at(p, i),
    ensures
        s.received_job(i),
        s.ended_at(q, i) ==> q == p,
        forall|w: int| !s.runs(w, i),
{
    assert(s.received_job(s.finished[p].1));
}

/// How far a worker in `state` is from the end of its turn.
pub open spec fn weight(state: WorkerState) -> nat {
    match state {
        WorkerState::Running => 3,
        WorkerState::Idle => 2,
        WorkerState::Dequeuing => 1,
        WorkerState::Terminated => 0,
    }
}

/// The weights of `workers`, added up.
pub open spec fn total_weight(workers: Seq<WorkerState>) -> nat
    decreases workers.len(),
{
    if workers.len() == 0 {
        0
    } else {
        total_weight(workers.drop_last()) + weight(workers.last())
    }
}

/// Changing one worker's state changes the total weight by that worker's.
pub proof fn lemma_weight_update(workers: Seq<WorkerState>, w: int, state: WorkerState)
    requires
        0 <= w < workers.len(),
    ensures
        total_weight(workers.update(w, state)) + weight(workers[w]) == total_weight(workers)
            + weight(state),
    decreases workers.len(),
{
    let changed = workers.update(w, state);
    if w == workers.len() - 1 {
        assert(changed.drop_last() =~= workers.drop_last());
    } else {
        assert(changed.drop_last() =~= workers.drop_last().update(w, state));
        lemma_weight_update(workers.drop_last(), w, state);
    }
}

impl<J> Dispatch<J> {
    /// A bound on the number of moves that the workers can still make when
    /// nothing more is sent.
    pub open spec fn rank(self) -> int {
        3 * (self.sent.len() - self.taken) + total_weight(self.workers)
    }

    /// `m` is a move of a worker.
    pub open spec fn by_worker(m: Move<J>) -> bool {
        !(m is Post)
    }
}

/// Every move of a worker brings the end nearer: when nothing more is sent,
/// the workers make a bounded number of moves.
pub proof fn lemma_rank_decreases<J>(s: Dispatch<J>, m: Move<J>)
    requires
        s.shape(),
        s.enabled(m),
        Dispatch::<J>::by_worker(m),
    ensures
        0 <= s.apply(m).rank() < s.rank(),
{
    match m {
        Move::Post(_) => {},
        Move::Grant(w) => {
            lemma_weight_update(s.workers, w, WorkerState::Dequeuing);
        },
        Move::Deliver(w) => {
            if s.sent[s.taken as int].is_job() {
                lemma_weight_update(s.workers, w, WorkerState::Running);
            } else {
                lemma_weight_update(s.workers, w, WorkerState::Terminated);
            }
        },
        Move::Complete(w) => {
            lemma_weight_update(s.workers, w, WorkerState::Idle);
        },
    }
}

/// No deadlock: once an order to stop has been sent for each worker, some
/// worker can move for as long as a worker has not stopped.
pub proof fn lemma_progress<J>(s: Dispatch<J>) -> (m: Move<J>)
    requires
        s.inv(),
        orders(s.sent) == s.workers.len(),
        !s.all_terminated(),
    ensures
        Dispatch::<J>::by_worker(m),
        s.enabled(m),
{
    let w = choose|w: int| s.is_worker(w) && s.workers[w] != WorkerState::Terminated;
    lemma_stopped_all(s.workers);
    lemma_orders_split(s.sent, s.taken as int);
    if s.taken == s.sent.len() {
        assert(s.sent.take(s.taken as int) =~= s.sent);
    }
    assert(s.taken < s.sent.len());
    if s.workers[w] == WorkerState::Running {
        Move::Complete(w)
    } else if s.workers[w] == WorkerState::Dequeuing {
        Move::Deliver(w)
    } else if s.lock_free() {
        Move::Grant(w)
    } else {
        let v = choose|v: int| s.is_worker(v) && s.workers[v] == WorkerState::Dequeuing;
        Move::Deliver(v)
    }
}

/// When nothing more is sent, the workers come to rest: a run of moves of
/// the workers is no longer than the rank of the moment at which it starts.
pub proof fn lemma_run_bounded<J>(s: Dispatch<J>, moves: Seq<Move<J>>)
    requires
        s.inv(),
        s.admits(moves),
        forall|i: int| 0 <= i < moves.len() ==> Dispatch::<J>::by_worker(#[trigger] moves[i]),
    ensures
        0 <= s.after(moves).rank(),
        moves.len() + s.after(moves).rank() <= s.rank(),
    decreases moves.len(),
{
    if moves.len() > 0 {
        let front = moves.drop_last();
        assert forall|i: int| 0 <= i < front.len() implies Dispatch::<J>::by_worker(
            #[trigger] front[i],
        ) by {
            assert(front[i] == moves[i]);
        }
        lemma_run_bounded(s, front);
        lemma_after_inv(s, front);
        assert(Dispatch::<J>::by_worker(moves[moves.len() - 1]));
        lemma_rank_decreases(s.after(front), moves.last());
    }
}

/// Shutdown returns: once an order to stop has been sent for each worker,
/// a run of the workers that cannot go on has stopped every worker.
pub proof fn lemma_run_ends<J>(s: Dispatch<J>, moves: Seq<Move<J>>)
    requires
        s.inv(),
        orders(s.sent) == s.workers.len(),
        s.admits(moves),
        forall|i: int| 0 <= i < moves.len() ==> Dispatch::<J>::by_worker(#[trigger] moves[i]),
        forall|m: Move<J>| Dispatch::<J>::by_worker(m) ==> !s.after(moves).enabled(m),
    ensures
        s.after(moves).all_terminated(),
{
    lemma_after_inv(s, moves);
    lemma_sent_unchanged(s, moves);
    lemma_pool_size_fixed(s, moves);
    if !s.after(moves).all_terminated() {
        let m = lemma_progress(s.after(moves));
        assert(s.after(moves).enabled(m));
    }
}

/// The workers send nothing.
pub proof fn lemma_sent_unchanged<J>(s: Dispatch<J>, moves: Seq<Move<J>>)
    requires
        forall|i: int| 0 <= i < moves.len() ==> Dispatch::<J>::by_worker(#[trigger] moves[i]),
    ensures
        s.after(moves).sent == s.sent,
    decreases moves.len(),
{
    if moves.len() > 0 {
        let front = moves.drop_last();
        assert forall|i: int| 0 <= i < front.len() implies Dispatch::<J>::by_worker(
            #[trigger] front[i],
        ) by {
            assert(front[i] == moves[i]);
        }
        lemma_sent_unchanged(s, front);
        assert(Dispatch::<J>::by_worker(moves[moves.len() - 1]));
    }
}

/// Shutdown loses nothing. Once an order to stop has been sent for each
/// worker and every worker has stopped: the last message received was the
/// last of these orders; every job sent before it was run to its end; and
/// what is left in the queue are jobs that came after it, none of which was
/// run.
pub proof fn lemma_shutdown_complete<J>(s: Dispatch<J>)
    requires
        s.inv(),
        s.workers.len() > 0,
        s.all_terminated(),
        orders(s.sent) == s.workers.len(),
    ensures
        s.taken > 0,
        !s.sent[s.taken - 1].is_job(),
        orders(s.sent.take(s.taken as int)) == s.workers.len(),
        forall|i: int| 0 <= i < s.queue().len() ==> s.queue()[i].is_job(),
        forall|i: int| #[trigger] s.received_job(i) ==> exists|p: int| s.ended_at(p, i),
        forall|p: int|
            0 <= p < s.finished.len() ==> s.received_job((#[trigger] s.finished[p]).1),
{
    lemma_stopped_all(s.workers);
    lemma_orders_split(s.sent, s.taken as int);
    lemma_orders_none(s.queue());
    assert forall|i: int| #[trigger] s.received_job(i) implies exists|p: int|
        s.ended_at(p, i) by {
        if exists|w: int| s.runs(w, i) {
            let w = choose|w: int| s.runs(w, i);
            assert(s.workers[w] == WorkerState::Terminated);
        }
    }
}

/// `jobs` jobs, and after them an order to stop for each of `size` workers.
pub open spec fn jobs_then_stops<J>(sent: Seq<Message<J>>, jobs: nat, size: nat) -> bool {
    &&& sent.len() == jobs + size
    &&& forall|i: int| 0 <= i < jobs ==> sent[i].is_job()
    &&& forall|i: int| jobs <= i < jobs + size ==> !sent[i].is_job()
}

/// What a pool sends in its life is jobs, and then one order to stop for
/// each worker: the messages that submit `jobs`, followed by `stops`, where
/// these are orders to stop.
pub proof fn lemma_pool_sends_jobs_then_stops<J>(jobs: Seq<J>, stops: Seq<Message<J>>)
    requires
        forall|i: int| 0 <= i < stops.len() ==> stops[i] == Message::<J>::Terminate,
    ensures
        jobs_then_stops(
            Seq::new(jobs.len(), |i: int| Message::NewJob(jobs[i])) + stops,
            jobs.len(),
            stops.len(),
        ),
{
}

/// Jobs followed by orders to stop hold as many orders as follow the jobs.
pub proof fn lemma_orders_after_jobs<J>(sent: Seq<Message<J>>, jobs: nat, size: nat)
    requires
        jobs_then_stops(sent, jobs, size),
    ensures
        orders(sent) == size,
    decreases sent.len(),
{
    if sent.len() > 0 {
        let front = sent.drop_last();
        if size > 0 {
            assert(jobs_then_stops(front, jobs, (size - 1) as nat));
            lemma_orders_after_jobs(front, jobs, (size - 1) as nat);
        } else {
            assert(jobs_then_stops(front, (jobs - 1) as nat, 0));
            lemma_orders_after_jobs(front, (jobs - 1) as nat, 0);
        }
    }
}

/// The record holds an entry for the place `i`.
pub open spec fn lists(record: Seq<(int, int)>, i: int) -> bool {
    exists|p: int| 0 <= p < record.len() && record[p].1 == i
}

/// A record without repetition that holds each of the places `0` to
/// `n - 1`, and nothing else, has `n` entries.
pub proof fn lemma_record_len(record: Seq<(int, int)>, n: nat)
    requires
        forall|p: int| 0 <= p < record.len() ==> 0 <= (#[trigger] record[p]).1 < n,
        forall|p: int, q: int|
            0 <= p < record.len() && 0 <= q < record.len() && record[p].1 == record[q].1 ==> p
                == q,
        forall|i: int| 0 <= i < n ==> #[trigger] lists(record, i),
    ensures
        record.len() == n,
    decreases n,
{
    if n == 0 {
        if record.len() > 0 {
            assert(0 <= record[0].1 < n);
        }
    } else {
        assert(lists(record, n - 1));
        let last = choose|p: int| 0 <= p < record.len() && record[p].1 == n - 1;
        let rest = record.remove(last);
        assert forall|p: int| 0 <= p < rest.len() implies 0 <= (#[trigger] rest[p]).1 < n - 1 by {
            let from = if p < last {
                p
            } else {
                p + 1
            };
            assert(rest[p] == record[from]);
            assert(0 <= record[from].1 < n);
        }
        assert forall|p: int, q: int|
            0 <= p < rest.len() && 0 <= q < rest.len() && rest[p].1 == rest[q].1 implies p
            == q by {
            let from_p = if p < last {
                p
            } else {
                p + 1
            };
            let from_q = if q < last {
                q
            } else {
                q + 1
            };
            assert(rest[p] == record[from_p]);
            assert(rest[q] == record[from_q]);
        }
        assert forall|i: int| 0 <= i < n - 1 implies #[trigger] lists(rest, i) by {
            assert(lists(record, i));
            let from = choose|p: int| 0 <= p < record.len() && record[p].1 == i;
            let to = if from < last {
                from
            } else {
                from - 1
            };
            assert(rest[to] == record[from]);
        }
        lemma_record_len(rest, (n - 1) as nat);
    }
}

/// Every job runs exactly once, however many jobs and workers there are.
/// When `jobs` jobs were sent, and after them an order to stop for each
/// worker, and every worker has stopped: every message was received, and
/// the record of finished jobs holds each of the jobs once and nothing else.
pub proof fn lemma_every_job_runs_once<J>(s: Dispatch<J>, jobs: nat)
    requires
        s.inv(),
        s.workers.len() > 0,
        s.all_terminated(),
        jobs_then_stops(s.sent, jobs, s.workers.len()),
    ensures
        s.taken == s.sent.len(),
        s.finished.len() == jobs,
        forall|i: int| 0 <= i < jobs ==> #[trigger] lists(s.finished, i),
        forall|p: int, q: int|
            0 <= p < s.finished.len() && 0 <= q < s.finished.len() && s.finished[p].1
                == s.finished[q].1 ==> p == q,
{
    lemma_orders_after_jobs(s.sent, jobs, s.workers.len());
    lemma_shutdown_complete(s);
    if s.taken < s.sent.len() {
        let i = s.sent.len() - 1 - s.taken;
        assert(s.queue()[i].is_job());
    }
    assert forall|p: int| 0 <= p < s.finished.len() implies 0 <= (#[trigger] s.finished[p]).1
        < jobs by {
        assert(s.received_job(s.finished[p].1));
    }
    assert forall|i: int| 0 <= i < jobs implies #[trigger] lists(s.finished, i) by {
        assert(s.received_job(i));
        let p = choose|p: int| s.ended_at(p, i);
        assert(s.ended_at(p, i));
    }
    lemma_record_len(s.finished, jobs);
}

/// No run changes the number of workers.
pub proof fn lemma_pool_size_fixed<J>(s: Dispatch<J>, moves: Seq<Move<J>>)
    requires
        s.admits(moves),
    ensures
        s.after(moves).workers.len() == s.workers.len(),
    decreases moves.len(),
{
    if moves.len() > 0 {
        lemma_pool_size_fixed(s, moves.drop_last());
    }
}

/// The life of a pool, from its start to the end of its shutdown. In every
/// run of a pool of `size` workers in which `jobs` jobs were sent, and
/// after them an order to stop for each worker, and at whose end every
/// worker has stopped: every message was received, and every job was run to
/// its end exactly once, whichever worker took it.
pub proof fn lemma_life_of_a_pool<J>(size: nat, jobs: nat, moves: Seq<Move<J>>)
    requires
        size > 0,
        Dispatch::<J>::start(size).admits(moves),
        jobs_then_stops(Dispatch::<J>::start(size).after(moves).sent, jobs, size),
        Dispatch::<J>::start(size).after(moves).all_terminated(),
    ensures
        Dispatch::<J>::start(size).after(moves).queue() == Seq::<Message<J>>::empty(),
        Dispatch::<J>::start(size).after(moves).finished.len() == jobs,
        forall|i: int|
            0 <= i < jobs ==> #[trigger] lists(Dispatch::<J>::start(size).after(moves).finished, i),
{
    let s = Dispatch::<J>::start(size).after(moves);
    lemma_run_inv(size, moves);
    lemma_pool_size_fixed(Dispatch::<J>::start(size), moves);
    lemma_every_job_runs_once(s, jobs);
    assert(s.queue() =~= Seq::<Message<J>>::empty());
}

} // verus!
