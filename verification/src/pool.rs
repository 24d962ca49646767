//! The bounded set of workers that service connections.
//!
//! The threads are those of the `threadpool` crate. A pool is made with a
//! fixed number of workers; jobs beyond that number wait in its queue, so
//! handing one over never blocks the accept loop.
use vstd::prelude::*;

verus! {

/// The pool of worker threads of the `threadpool` crate, carried as it is.
#[verifier::external_type_specification]
#[verifier::external_body]
pub struct ExThreadPool(threadpool::ThreadPool);

/// Starts a pool of `count` worker threads.
///
/// Calls `threadpool::ThreadPool::new`, which panics on a count of zero; the
/// contract leaves that out and claims nothing of the pool.
#[verifier::external_body]
fn start_workers(count: usize) -> (pool: threadpool::ThreadPool)
    requires
        count >= 1,
{
    threadpool::ThreadPool::new(count)
}

/// Puts a job in the queue of the pool.
///
/// Calls `threadpool::ThreadPool::execute`, which sends the job to the
/// workers and returns at once. Nothing is claimed of when the job runs.
#[verifier::external_body]
fn enqueue<F: FnOnce() + Send + 'static>(pool: &threadpool::ThreadPool, job: F)
    requires
        job.requires(()),
{
    pool.execute(job)
}

/// A pool of workers together with the number it was made with.
pub struct WorkerPool {
    pool: threadpool::ThreadPool,
    size: usize,
}

impl WorkerPool {
    /// The number of workers, which bounds how many jobs run at once.
    pub closed spec fn size(&self) -> usize {
        self.size
    }

    /// Starts a pool of `size` workers.
    pub fn new(size: usize) -> (pool: WorkerPool)
        requires
            size >= 1,
        ensures
            pool.size() == size,
    {
        WorkerPool { pool: start_workers(size), size }
    }

    /// The number of workers.
    pub fn worker_count(&self) -> (count: usize)
        ensures
            count == self.size(),
    {
        self.size
    }

    /// Hands a job to the pool. It runs as soon as a worker is free; until
    /// then it waits in the queue and the caller goes on.
    pub fn submit<F: FnOnce() + Send + 'static>(&self, job: F)
        requires
            job.requires(()),
    {
        enqueue(&self.pool, job)
    }
}

} // verus!
