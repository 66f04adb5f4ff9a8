//! The workers that serve connections.
use vstd::prelude::*;

verus! {

/// What a worker does next.
#[derive(Clone, Copy, PartialEq, Eq, Debug, Structural)]
pub enum WorkerStep {
    /// It runs the job that it got, and waits for another one.
    Run,
    /// It stops.
    Stop,
}

/// The numbers of the workers of a pool.
pub open spec fn worker_numbers(size: nat) -> Seq<usize> {
    Seq::new(size, |i: int| i as usize)
}

/// The numbers of the workers of a pool, counted from zero. A pool has at least one worker.
pub fn worker_ids(size: usize) -> (r: Vec<usize>)
    requires
        size > 0,
    ensures
        r@ == worker_numbers(size as nat),
        r@ == Seq::new(size as nat, |i: int| i as usize),
{
    let mut r: Vec<usize> = Vec::new();
    let mut id: usize = 0;
    while id < size
        invariant
            id <= size,
            r@ == Seq::new(id as nat, |i: int| i as usize),
        decreases size - id,
    {
        r.push(id);
        id += 1;
        assert(r@ =~= Seq::new(id as nat, |i: int| i as usize));
    }
    r
}

/// What a worker does when it got a job, or when there are no more jobs to come.
pub fn worker_step(got_job: bool) -> (r: WorkerStep)
    ensures
        r == if got_job {
            WorkerStep::Run
        } else {
            WorkerStep::Stop
        },
{
    if got_job {
        WorkerStep::Run
    } else {
        WorkerStep::Stop
    }
}

/// A pool has just as many workers as it should have, and each has a number of its own, counted
/// from zero.
pub proof fn law_pool_has_its_workers(size: usize)
    ensures
        worker_numbers(size as nat).len() == size,
        worker_numbers(size as nat).no_duplicates(),
        forall|id: usize| worker_numbers(size as nat).contains(id) <==> id < size,
{
    assert forall|id: usize| worker_numbers(size as nat).contains(id) <==> id < size by {
        if id < size {
            assert(worker_numbers(size as nat)[id as int] == id);
        }
    }
}

} // verus!
