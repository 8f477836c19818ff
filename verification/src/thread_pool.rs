//! The worker pool, modelled as the one piece of shared mutable state it
//! really is: a FIFO queue of messages between the acceptor and a fixed set
//! of workers.
//!
//! Submitting work enqueues a `NewJob` carrying a fresh id and the work
//! value; a worker takes the front message, runs a job to completion or
//! terminates on a stop signal.  The contracts pin down the exactly-once
//! guarantee: ids are never repeated, a delivered job never reappears, no
//! accepted job is lost, and after `stop` no new work is accepted while
//! every still-live worker has a stop signal waiting in the queue.  The
//! caller supplies the locking that serializes these calls and the threads
//! that run the workers; every interleaving of the calls keeps `wf`.

use vstd::prelude::*;

verus! {

/// One unit of deferred work with its pool-assigned id.
pub struct Job<T> {
    pub id: u64,
    pub work: T,
}

/// What a worker receives from the queue.
pub enum Message<T> {
    /// Run this job to completion, then ask again.
    NewJob(Job<T>),
    /// Finish: consume this signal and exit the worker loop.
    Terminate,
}

/// One worker's bookkeeping: its index and whether it has terminated.
pub struct Worker {
    pub id: usize,
    pub terminated: bool,
}

/// The pool: worker states, the message queue, the id counter, the stop
/// flag, and the ghost set of job ids already handed to workers.
pub struct ThreadPool<T> {
    pub workers: Vec<Worker>,
    pub queue: Vec<Message<T>>,
    pub next_id: u64,
    pub stopping: bool,
    pub delivered: Ghost<Set<u64>>,
}

/// The ids of the jobs waiting in the queue, front first.
pub open spec fn job_ids<T>(q: Seq<Message<T>>) -> Seq<u64>
    decreases q.len(),
{
    if q.len() == 0 {
        Seq::<u64>::empty()
    } else {
        (match q[0] {
            Message::NewJob(j) => seq![j.id],
            Message::Terminate => Seq::<u64>::empty(),
        }) + job_ids(q.drop_first())
    }
}

/// How many stop signals wait in the queue.
pub open spec fn stops_in<T>(q: Seq<Message<T>>) -> int
    decreases q.len(),
{
    if q.len() == 0 {
        0
    } else {
        (match q[0] {
            Message::NewJob(_) => 0int,
            Message::Terminate => 1int,
        }) + stops_in(q.drop_first())
    }
}

/// How many workers have terminated.
pub open spec fn terminated_count(ws: Seq<Worker>) -> int
    decreases ws.len(),
{
    if ws.len() == 0 {
        0
    } else {
        (if ws[0].terminated {
            1int
        } else {
            0int
        }) + terminated_count(ws.drop_first())
    }
}

/// Enqueuing one message appends its id (if a job) and adds its stop count.
pub proof fn lemma_msgs_snoc<T>(q: Seq<Message<T>>, m: Message<T>)
    ensures
        job_ids(q.push(m)) == job_ids(q) + (match m {
            Message::NewJob(j) => seq![j.id],
            Message::Terminate => Seq::<u64>::empty(),
        }),
        stops_in(q.push(m)) == stops_in(q) + (match m {
            Message::NewJob(_) => 0int,
            Message::Terminate => 1int,
        }),
    decreases q.len(),
{
    let p = q.push(m);
    if q.len() == 0 {
        assert(p[0] == m);
        assert(p.drop_first() =~= q);
        assert(job_ids(p) =~= job_ids(q) + (match m {
            Message::NewJob(j) => seq![j.id],
            Message::Terminate => Seq::<u64>::empty(),
        }));
    } else {
        lemma_msgs_snoc(q.drop_first(), m);
        assert(p[0] == q[0]);
        assert(p.drop_first() =~= q.drop_first().push(m));
        assert(job_ids(p) =~= job_ids(q) + (match m {
            Message::NewJob(j) => seq![j.id],
            Message::Terminate => Seq::<u64>::empty(),
        }));
    }
}

/// Marking one more worker terminated raises the count by one.
pub proof fn lemma_terminated_update(ws: Seq<Worker>, w: int)
    requires
        0 <= w < ws.len(),
        !ws[w].terminated,
    ensures
        terminated_count(ws.update(w, Worker { id: ws[w].id, terminated: true }))
            == terminated_count(ws) + 1,
    decreases ws.len(),
{
    let u = ws.update(w, Worker { id: ws[w].id, terminated: true });
    if w == 0 {
        assert(u[0].terminated);
        assert(u.drop_first() =~= ws.drop_first());
    } else {
        lemma_terminated_update(ws.drop_first(), w - 1);
        assert(u[0] == ws[0]);
        assert(u.drop_first() =~= ws.drop_first().update(
            w - 1,
            Worker { id: ws[w].id, terminated: true },
        ));
        assert(ws.drop_first()[w - 1] == ws[w]);
    }
}

/// The count of terminated workers never exceeds the worker count.
pub proof fn lemma_terminated_bounds(ws: Seq<Worker>)
    ensures
        0 <= terminated_count(ws) <= ws.len(),
    decreases ws.len(),
{
    if ws.len() > 0 {
        lemma_terminated_bounds(ws.drop_first());
    }
}

impl<T> ThreadPool<T> {
    /// Every state the pool's own calls can reach satisfies this: queued
    /// job ids are distinct, below the id counter, and disjoint from the
    /// delivered ids; every id ever accepted is still queued or was
    /// delivered; and the queue holds exactly one stop signal per live
    /// worker once the pool is stopping, none before.
    pub open spec fn wf(&self) -> bool {
        &&& self.workers@.len() >= 1
        &&& forall|i: int|
            0 <= i < self.workers@.len() ==> (#[trigger] self.workers@[i]).id == i
        &&& forall|i: int, j: int|
            0 <= i < j < job_ids(self.queue@).len() ==> job_ids(self.queue@)[i] != job_ids(
                self.queue@,
            )[j]
        &&& forall|i: int|
            0 <= i < job_ids(self.queue@).len() ==> #[trigger] job_ids(self.queue@)[i]
                < self.next_id
        &&& forall|id: u64| self.delivered@.contains(id) ==> id < self.next_id
        &&& forall|i: int|
            0 <= i < job_ids(self.queue@).len() ==> !self.delivered@.contains(
                #[trigger] job_ids(self.queue@)[i],
            )
        &&& forall|id: u64|
            id < self.next_id ==> self.delivered@.contains(id) || job_ids(self.queue@).contains(
                id,
            )
        &&& stops_in(self.queue@) == if self.stopping {
            self.workers@.len() - terminated_count(self.workers@)
        } else {
            0int
        }
        &&& !self.stopping ==> terminated_count(self.workers@) == 0
        &&& terminated_count(self.workers@) <= self.workers@.len()
    }

    /// A pool of `size` live workers with an empty queue.
    #[verifier::loop_isolation(false)]
    pub fn new(size: usize) -> (p: ThreadPool<T>)
        requires
            size >= 1,
        ensures
            p.wf(),
            p.workers@.len() == size,
            p.queue@.len() == 0,
            p.next_id == 0,
            !p.stopping,
            p.delivered@ == Set::<u64>::empty(),
    {
        let mut workers: Vec<Worker> = Vec::new();
        let mut i: usize = 0;
        while i < size
            invariant
                i == workers@.len() <= size,
                forall|j: int| 0 <= j < i ==> (#[trigger] workers@[j]).id == j,
                terminated_count(workers@) == 0,
            decreases size - i,
        {
            let w = Worker { id: i, terminated: false };
            proof {
                lemma_terminated_snoc(workers@, w);
            }
            workers.push(w);
            i += 1;
        }
        ThreadPool {
            workers,
            queue: Vec::new(),
            next_id: 0,
            stopping: false,
            delivered: Ghost(Set::<u64>::empty()),
        }
    }

    /// Accepts one unit of work: a stopping pool refuses it and hands the
    /// work back unchanged; otherwise the job enters the back of the queue
    /// under a fresh id, which is returned.
    pub fn execute(&mut self, work: T) -> (r: Result<u64, T>)
        requires
            old(self).wf(),
            old(self).next_id < u64::MAX,
        ensures
            final(self).wf(),
            old(self).stopping ==> *final(self) == *old(self) && (r matches Err(w) && w == work),

            !old(self).stopping ==> {
                &&& r == Ok::<u64, T>(old(self).next_id)
                &&& final(self).queue@ == old(self).queue@.push(
                    Message::NewJob(Job { id: old(self).next_id, work }),
                )
                &&& final(self).next_id == old(self).next_id + 1
                &&& final(self).workers == old(self).workers
                &&& final(self).stopping == old(self).stopping
                &&& final(self).delivered == old(self).delivered
            },
    {
        if self.stopping {
            return Err(work);
        }
        let id = self.next_id;
        self.next_id = self.next_id + 1;
        let msg = Message::NewJob(Job { id, work });
        proof {
            lemma_msgs_snoc(self.queue@, msg);
        }
        self.queue.push(msg);
        proof {
            let ghost ids = job_ids(old(self).queue@);
            let ghost ids2 = job_ids(self.queue@);
            assert(ids2 =~= ids.push(id));
            assert forall|x: u64| x < self.next_id implies self.delivered@.contains(x)
                || ids2.contains(x) by {
                if x < id {
                    if !self.delivered@.contains(x) {
                        let k = choose|k: int| 0 <= k < ids.len() && ids[k] == x;
                        assert(ids2[k] == x);
                    }
                } else {
                    assert(ids2[ids.len() as int] == id);
                }
            }
        }
        Ok(id)
    }

    /// One worker asks for work.  An empty queue means it would block: the
    /// pool is unchanged.  Otherwise the front message leaves the queue,
    /// exactly once: a job's id moves into the delivered set, where it has
    /// never been before; a stop signal terminates this worker.
    pub fn next_message(&mut self, worker: usize) -> (m: Option<Message<T>>)
        requires
            old(self).wf(),
            worker < old(self).workers@.len(),
            !old(self).workers@[worker as int].terminated,
        ensures
            final(self).wf(),
            old(self).queue@.len() == 0 ==> *final(self) == *old(self) && m is None,
            old(self).queue@.len() > 0 ==> {
                &&& m == Some(old(self).queue@[0])
                &&& final(self).queue@ == old(self).queue@.drop_first()
                &&& final(self).next_id == old(self).next_id
                &&& final(self).stopping == old(self).stopping
            },
            old(self).queue@.len() > 0 ==> (old(self).queue@[0] matches Message::NewJob(j) ==> {
                &&& !old(self).delivered@.contains(j.id)
                &&& final(self).delivered@ == old(self).delivered@.insert(j.id)
                &&& final(self).workers == old(self).workers
            }),
            (old(self).queue@.len() > 0 && old(self).queue@[0] is Terminate) ==> {
                &&& final(self).workers@ == old(self).workers@.update(
                    worker as int,
                    Worker { id: worker, terminated: true },
                )
                &&& final(self).delivered == old(self).delivered
            },
    {
        if self.queue.len() == 0 {
            return None;
        }
        let msg = self.queue.remove(0);
        proof {
            assert(self.queue@ =~= old(self).queue@.drop_first());
        }
        match &msg {
            Message::NewJob(job) => {
                let ghost jid = job.id;
                proof {
                    let ghost oldq = old(self).queue@;
                    let ghost ids = job_ids(oldq);
                    let ghost ids2 = job_ids(self.queue@);
                    assert(job_ids(oldq.drop_first()) == ids2);
                    assert(ids == seq![jid] + ids2);
                    assert(ids[0] == jid);
                    assert(!self.delivered@.contains(jid));
                }
                self.delivered = Ghost(self.delivered@.insert(job.id));
                proof {
                    let ghost oldq = old(self).queue@;
                    let ghost ids = job_ids(oldq);
                    let ghost ids2 = job_ids(self.queue@);
                    assert(ids == seq![jid] + ids2);
                    assert forall|i: int| 0 <= i < ids2.len() implies ids2[i] == ids[i + 1] by {
                        assert((seq![jid] + ids2)[i + 1] == ids2[i]);
                    }
                    assert forall|i: int, j: int|
                        0 <= i < j < ids2.len() implies ids2[i] != ids2[j] by {
                        assert(ids2[i] == ids[i + 1]);
                        assert(ids2[j] == ids[j + 1]);
                    }
                    assert forall|i: int|
                        0 <= i < ids2.len() implies (#[trigger] ids2[i]) < self.next_id
                            && !self.delivered@.contains(ids2[i]) by {
                        assert(ids2[i] == ids[i + 1]);
                        assert(ids[0] == jid);
                    }
                    assert forall|x: u64| x < self.next_id implies self.delivered@.contains(x)
                        || ids2.contains(x) by {
                        if !self.delivered@.contains(x) {
                            let k = choose|k: int| 0 <= k < ids.len() && ids[k] == x;
                            assert(k != 0);
                            assert(ids2[k - 1] == ids[k]);
                        }
                    }
                }
            },
            Message::Terminate => {
                proof {
                    let ghost oldq = old(self).queue@;
                    assert(job_ids(oldq.drop_first()) == job_ids(self.queue@));
                    assert(stops_in(oldq) == 1 + stops_in(oldq.drop_first()));
                    lemma_stops_le_len(oldq.drop_first());
                    assert(stops_in(oldq) >= 1);
                    assert(self.stopping);
                    lemma_terminated_update(self.workers@, worker as int);
                    lemma_terminated_bounds(self.workers@);
                }
                let widx = worker;
                self.workers[widx] = Worker { id: widx, terminated: true };
                proof {
                    let ghost oldq = old(self).queue@;
                    let ghost ids = job_ids(oldq);
                    let ghost ids2 = job_ids(self.queue@);
                    assert(ids == Seq::<u64>::empty() + ids2);
                    assert(ids =~= ids2);
                    assert forall|x: u64| x < self.next_id implies self.delivered@.contains(x)
                        || ids2.contains(x) by {
                        if !self.delivered@.contains(x) {
                            let k = choose|k: int| 0 <= k < ids.len() && ids[k] == x;
                            assert(ids2[k] == x);
                        }
                    }
                    assert(self.workers@ =~= old(self).workers@.update(
                        worker as int,
                        Worker { id: worker, terminated: true },
                    ));
                }
            },
        }
        Some(msg)
    }

    /// Tells the pool to stop: no further work is accepted, and one stop
    /// signal per worker goes to the back of the queue, behind the jobs
    /// already accepted, so every worker that keeps asking first drains
    /// jobs and then terminates.
    #[verifier::loop_isolation(false)]
    pub fn stop(&mut self)
        requires
            old(self).wf(),
            !old(self).stopping,
        ensures
            final(self).wf(),
            final(self).stopping,
            final(self).queue@.len() == old(self).queue@.len() + old(self).workers@.len(),
            final(self).queue@.take(old(self).queue@.len() as int) == old(self).queue@,
            job_ids(final(self).queue@) == job_ids(old(self).queue@),
            stops_in(final(self).queue@) == old(self).workers@.len(),
            final(self).workers == old(self).workers,
            final(self).next_id == old(self).next_id,
            final(self).delivered == old(self).delivered,
    {
        self.stopping = true;
        let n = self.workers.len();
        let mut i: usize = 0;
        while i < n
            invariant
                i <= n,
                self.queue@.len() == old(self).queue@.len() + i,
                self.queue@.take(old(self).queue@.len() as int) =~= old(self).queue@,
                job_ids(self.queue@) == job_ids(old(self).queue@),
                stops_in(self.queue@) == i,
                self.workers == old(self).workers,
                self.next_id == old(self).next_id,
                self.delivered == old(self).delivered,
                self.stopping,
            decreases n - i,
        {
            proof {
                lemma_msgs_snoc(self.queue@, Message::<T>::Terminate);
            }
            self.queue.push(Message::Terminate);
            proof {
                assert(self.queue@.take(old(self).queue@.len() as int) =~= old(self).queue@);
            }
            i += 1;
        }
        proof {
            assert(terminated_count(self.workers@) == 0);
        }
    }
}

/// Counting termination over one more live worker.
pub proof fn lemma_terminated_snoc(ws: Seq<Worker>, w: Worker)
    ensures
        terminated_count(ws.push(w)) == terminated_count(ws) + (if w.terminated {
            1int
        } else {
            0int
        }),
    decreases ws.len(),
{
    let p = ws.push(w);
    if ws.len() == 0 {
        assert(p[0] == w);
        assert(p.drop_first() =~= ws);
    } else {
        lemma_terminated_snoc(ws.drop_first(), w);
        assert(p[0] == ws[0]);
        assert(p.drop_first() =~= ws.drop_first().push(w));
    }
}

/// Exactly-once, stated for any reachable pool state: every accepted id is
/// either still queued or already delivered, never both, and the queue
/// never holds an id twice.  Submitting K jobs therefore has each of the K
/// ids executed at most once, and none is lost while workers keep asking.
pub proof fn lemma_exactly_once<T>(p: &ThreadPool<T>)
    requires
        p.wf(),
    ensures
        forall|i: int, j: int|
            0 <= i < j < job_ids(p.queue@).len() ==> job_ids(p.queue@)[i] != job_ids(p.queue@)[j],
        forall|i: int|
            0 <= i < job_ids(p.queue@).len() ==> !p.delivered@.contains(
                #[trigger] job_ids(p.queue@)[i],
            ),
        forall|id: u64|
            id < p.next_id ==> p.delivered@.contains(id) || job_ids(p.queue@).contains(id),
        forall|id: u64| p.delivered@.contains(id) ==> id < p.next_id,
{
}

/// Bounded shutdown, stated for any reachable stopping pool: the queue
/// holds exactly one stop signal for each worker that has not terminated,
/// so while any worker is live a stop signal is waiting, and each request
/// for work shortens the queue — every worker terminates within as many
/// steps as the queue is long.
pub proof fn lemma_stop_terminates<T>(p: &ThreadPool<T>)
    requires
        p.wf(),
        p.stopping,
    ensures
        stops_in(p.queue@) == p.workers@.len() - terminated_count(p.workers@),
        terminated_count(p.workers@) < p.workers@.len() ==> stops_in(p.queue@) >= 1,
        terminated_count(p.workers@) < p.workers@.len() ==> p.queue@.len() >= 1,
{
    lemma_stops_le_len(p.queue@);
}

/// There are never more stop signals than messages.
proof fn lemma_stops_le_len<T>(q: Seq<Message<T>>)
    ensures
        0 <= stops_in(q) <= q.len(),
    decreases q.len(),
{
    if q.len() > 0 {
        lemma_stops_le_len(q.drop_first());
    }
}

} // verus!
