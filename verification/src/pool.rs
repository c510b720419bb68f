//! The pool: a fixed number of workers, made once and shut down once.
//!
//! The pool decides; whoever runs it performs. It says which worker is to be
//! spawned next and takes the handle of the spawned thread; it makes the
//! message that submits a job; and at the end it says what is to be done, in
//! order: an order to stop is sent for each worker, and then each worker's
//! thread is waited for.

use crate::worker::Message;
use vstd::prelude::*;

verus! {

/// A worker as the pool knows it: its number, and the handle of its thread
/// until that has been given out to be waited for.
pub struct Worker<H> {
    pub id: usize,
    pub thread: Option<H>,
}

impl<H> Worker<H> {
    /// The worker with number `id` whose thread has the handle `thread`.
    pub fn new(id: usize, thread: H) -> (w: Worker<H>)
        ensures
            w == (Worker { id, thread: Some(thread) }),
    {
        Worker { id, thread: Some(thread) }
    }
}

/// One step of the shutdown.
pub enum Teardown<J, H> {
    /// Send this message.
    Send(Message<J>),
    /// Wait until the thread of the worker with this number has ended.
    Join(usize, H),
}

/// `n` times: send an order to stop.
pub open spec fn stops<J, H>(n: nat) -> Seq<Teardown<J, H>> {
    Seq::new(n, |i: int| Teardown::Send(Message::Terminate))
}

/// For each of `workers` that still holds its handle, in the workers'
/// order: wait for its thread.
pub open spec fn joins<J, H>(workers: Seq<Worker<H>>) -> Seq<Teardown<J, H>>
    decreases workers.len(),
{
    if workers.len() == 0 {
        Seq::empty()
    } else {
        let before = joins(workers.drop_last());
        match workers.last().thread {
            Some(thread) => before.push(Teardown::Join(workers.last().id, thread)),
            None => before,
        }
    }
}

/// The shutdown of `workers`: first an order to stop is sent for each of
/// them, then each is waited for.
pub open spec fn teardown<J, H>(workers: Seq<Worker<H>>) -> Seq<Teardown<J, H>> {
    stops(workers.len()) + joins(workers)
}

/// The same workers, without their handles.
pub open spec fn without_handles<H>(workers: Seq<Worker<H>>) -> Seq<Worker<H>> {
    Seq::new(workers.len(), |i: int| Worker { id: workers[i].id, thread: None })
}

/// `workers` and one more, spawned with the handle `thread`: the new worker
/// takes the next number.
pub open spec fn with_worker<H>(workers: Seq<Worker<H>>, thread: H) -> Seq<Worker<H>> {
    workers.push(Worker { id: workers.len() as usize, thread: Some(thread) })
}

/// The workers of a pool that took the handles `threads`, one after the
/// other.
pub open spec fn spawned_with<H>(threads: Seq<H>) -> Seq<Worker<H>>
    decreases threads.len(),
{
    if threads.len() == 0 {
        Seq::empty()
    } else {
        with_worker(spawned_with(threads.drop_last()), threads.last())
    }
}

/// A pool that took `n` handles has exactly `n` workers, numbered from 0 in
/// the order in which they were spawned, each with its own handle.
pub proof fn lemma_spawned_with<H>(threads: Seq<H>)
    requires
        threads.len() <= usize::MAX,
    ensures
        spawned_with(threads).len() == threads.len(),
        forall|i: int|
            0 <= i < threads.len() ==> (#[trigger] spawned_with(threads)[i]) == (Worker {
                id: i as usize,
                thread: Some(threads[i]),
            }),
    decreases threads.len(),
{
    if threads.len() > 0 {
        let front = threads.drop_last();
        lemma_spawned_with(front);
        assert forall|i: int| 0 <= i < threads.len() implies (#[trigger] spawned_with(
            threads,
        )[i]) == (Worker { id: i as usize, thread: Some(threads[i]) }) by {
            if i < front.len() {
                assert(spawned_with(threads)[i] == spawned_with(front)[i]);
                assert(front[i] == threads[i]);
            }
        }
    }
}

/// Shutdown sends as many orders to stop as there are workers and waits for
/// as many threads, each once, in the workers' order: for a pool that took
/// the `n` handles `threads`, it is `n` times "send an order to stop" and
/// then, for each `i` from 0, "wait for worker `i`" with the handle that
/// worker was spawned with. A second shutdown waits for nothing.
pub proof fn lemma_teardown_of_spawned<J, H>(threads: Seq<H>)
    requires
        threads.len() <= usize::MAX,
    ensures
        teardown::<J, H>(spawned_with(threads)).len() == 2 * threads.len(),
        forall|i: int|
            0 <= i < threads.len() ==> (#[trigger] teardown::<J, H>(spawned_with(threads))[i])
                == Teardown::<J, H>::Send(Message::Terminate),
        forall|i: int|
            0 <= i < threads.len() ==> (#[trigger] teardown::<J, H>(spawned_with(threads))[
                threads.len() + i
            ]) == Teardown::<J, H>::Join(i as usize, threads[i]),
        joins::<J, H>(without_handles(spawned_with(threads))) == Seq::<
            Teardown<J, H>,
        >::empty(),
{
    lemma_spawned_with(threads);
    lemma_joins_of_spawned::<J, H>(threads);
    lemma_joins_none::<J, H>(spawned_with(threads));
}

/// The threads waited for are those of all the workers, in their order.
pub proof fn lemma_joins_of_spawned<J, H>(threads: Seq<H>)
    requires
        threads.len() <= usize::MAX,
    ensures
        joins::<J, H>(spawned_with(threads)) == Seq::new(
            threads.len(),
            |i: int| Teardown::<J, H>::Join(i as usize, threads[i]),
        ),
    decreases threads.len(),
{
    lemma_spawned_with(threads);
    if threads.len() > 0 {
        let front = threads.drop_last();
        lemma_joins_of_spawned::<J, H>(front);
        lemma_spawned_with(front);
        assert(spawned_with(threads).drop_last() =~= spawned_with(front));
        assert forall|i: int| 0 <= i < front.len() implies front[i] == threads[i] by {}
    }
    assert(joins::<J, H>(spawned_with(threads)) =~= Seq::new(
        threads.len(),
        |i: int| Teardown::<J, H>::Join(i as usize, threads[i]),
    ));
}

/// Workers without handles are not waited for.
pub proof fn lemma_joins_none<J, H>(workers: Seq<Worker<H>>)
    ensures
        joins::<J, H>(without_handles(workers)) == Seq::<Teardown<J, H>>::empty(),
    decreases workers.len(),
{
    let bare = without_handles(workers);
    if workers.len() > 0 {
        lemma_joins_none::<J, H>(workers.drop_last());
        assert(bare.drop_last() =~= without_handles(workers.drop_last()));
    }
}

/// A pool of workers.
pub struct ThreadPool<H> {
    size: usize,
    workers: Vec<Worker<H>>,
}

impl<H> ThreadPool<H> {
    /// The number of workers the pool was made for.
    pub closed spec fn spec_size(&self) -> nat {
        self.size as nat
    }

    /// The workers spawned so far, in the order of their numbers.
    pub closed spec fn workers(&self) -> Seq<Worker<H>> {
        self.workers@
    }

    /// What holds of every pool: it was made for at least one worker, holds
    /// no more workers than that, and the worker at place `i` has number `i`.
    pub open spec fn wf(&self) -> bool {
        &&& self.spec_size() > 0
        &&& self.workers().len() <= self.spec_size()
        &&& forall|i: int| 0 <= i < self.workers().len() ==> self.workers()[i].id == i
    }

    #[verifier::type_invariant]
    spec fn well_formed(&self) -> bool {
        self.wf()
    }

    /// Every worker the pool was made for has been spawned.
    pub open spec fn ready(&self) -> bool {
        self.workers().len() == self.spec_size()
    }

    /// A pool for `size` workers, none of them spawned yet.
    pub fn new(size: usize) -> (pool: ThreadPool<H>)
        requires
            size > 0,
        ensures
            pool.wf(),
            pool.spec_size() == size,
            pool.workers() == Seq::<Worker<H>>::empty(),
    {
        ThreadPool { size, workers: Vec::new() }
    }

    /// The number of workers the pool was made for.
    pub fn size(&self) -> (n: usize)
        ensures
            self.wf(),
            n == self.spec_size(),
    {
        proof {
            use_type_invariant(self);
        }
        self.size
    }

    /// The number of workers spawned so far.
    pub fn spawned(&self) -> (n: usize)
        ensures
            self.wf(),
            n == self.workers().len(),
    {
        proof {
            use_type_invariant(self);
        }
        self.workers.len()
    }

    /// The number of the worker to spawn next, or nothing when all the
    /// workers have been spawned.
    pub fn next_id(&self) -> (id: Option<usize>)
        ensures
            self.wf(),
            id == if self.ready() {
                None
            } else {
                Some(self.workers().len() as usize)
            },
    {
        proof {
            use_type_invariant(self);
        }
        if self.workers.len() < self.size {
            Some(self.workers.len())
        } else {
            None
        }
    }

    /// Takes the handle of the thread that was spawned for the next worker
    /// and says which number that worker has. A pool that has all its
    /// workers takes no more: the handle comes back and nothing changes.
    pub fn add(&mut self, thread: H) -> (r: Result<usize, H>)
        ensures
            final(self).wf(),
            final(self).spec_size() == old(self).spec_size(),
            old(self).ready() ==> r == Err::<usize, H>(thread) && final(self).workers() == old(
                self,
            ).workers(),
            !old(self).ready() ==> r == Ok::<usize, H>(old(self).workers().len() as usize)
                && final(self).workers() == with_worker(old(self).workers(), thread),
    {
        proof {
            use_type_invariant(&*self);
        }
        let id: usize = self.workers.len();
        if id >= self.size {
            return Err(thread);
        }
        let mut taken: ThreadPool<H> = ThreadPool { size: self.size, workers: Vec::new() };
        std::mem::swap(self, &mut taken);
        let size: usize = taken.size;
        let mut workers: Vec<Worker<H>> = taken.workers;
        workers.push(Worker::new(id, thread));
        *self = ThreadPool { size, workers };
        Ok(id)
    }

    /// The message that submits `job`.
    pub fn execute<J>(&self, job: J) -> (m: Message<J>)
        ensures
            m == Message::NewJob(job),
    {
        Message::NewJob(job)
    }

    /// Shuts the pool down: says what is to be done, in order. First an
    /// order to stop is sent for each worker; then each worker's thread is
    /// waited for, in the workers' order. The handles leave the pool with
    /// the steps, so that a second shutdown waits for nothing.
    pub fn shutdown<J>(&mut self) -> (plan: Vec<Teardown<J, H>>)
        ensures
            final(self).wf(),
            final(self).spec_size() == old(self).spec_size(),
            final(self).workers() == without_handles(old(self).workers()),
            plan@ == teardown::<J, H>(old(self).workers()),
    {
        proof {
            use_type_invariant(&*self);
        }
        let mut taken: ThreadPool<H> = ThreadPool { size: self.size, workers: Vec::new() };
        std::mem::swap(self, &mut taken);
        let size: usize = taken.size;
        let mut workers: Vec<Worker<H>> = taken.workers;
        let ghost before = workers@;
        let n: usize = workers.len();
        let mut plan: Vec<Teardown<J, H>> = Vec::new();
        let mut i: usize = 0;
        while i < n
            invariant
                i <= n,
                plan@ == stops::<J, H>(i as nat),
            decreases n - i,
        {
            plan.push(Teardown::Send(Message::Terminate));
            i += 1;
            assert(plan@ =~= stops::<J, H>(i as nat));
        }
        i = 0;
        assert(before.subrange(0, 0) =~= Seq::<Worker<H>>::empty());
        assert(plan@ =~= stops::<J, H>(n as nat) + joins::<J, H>(before.subrange(0, 0)));
        while i < n
            invariant
                n == before.len(),
                workers@.len() == n,
                i <= n,
                plan@ == stops::<J, H>(n as nat) + joins::<J, H>(before.subrange(0, i as int)),
                forall|j: int| 0 <= j < i ==> workers@[j] == (Worker::<H> {
                    id: before[j].id,
                    thread: None,
                }),
                forall|j: int| i <= j < n ==> workers@[j] == before[j],
            decreases n - i,
        {
            let ghost done = joins::<J, H>(before.subrange(0, i as int));
            proof {
                assert(before.subrange(0, i + 1).drop_last() =~= before.subrange(0, i as int));
                assert(before.subrange(0, i + 1).last() == before[i as int]);
            }
            let id: usize = workers[i].id;
            match workers[i].thread.take() {
                Some(thread) => {
                    plan.push(Teardown::Join(id, thread));
                    assert(plan@ =~= stops::<J, H>(n as nat) + done.push(
                        Teardown::Join(id, thread),
                    ));
                },
                None => {},
            }
            i += 1;
        }
        proof {
            assert(before.subrange(0, n as int) =~= before);
            assert(workers@ =~= without_handles(before));
        }
        *self = ThreadPool { size, workers };
        plan
    }
}

} // verus!
