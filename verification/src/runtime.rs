//! The background-generation plumbing: a thread pool runs build jobs, and
//! finished chunks come back to the driving thread over a channel. Each
//! job carries the ticket it was spawned under; the cache re-checks the
//! ticket before committing, so a stale result is a silent no-op.

use vstd::prelude::*;

use crate::heightfield::HeightParams;
use crate::terrain_generation::{execute, TerrainModel};

verus! {

#[verifier::external_type_specification]
#[verifier::external_body]
pub struct ExThreadPool(futures::executor::ThreadPool);

#[verifier::external_type_specification]
#[verifier::external_body]
#[verifier::reject_recursive_types(T)]
pub struct ExUnboundedSender<T>(futures::channel::mpsc::UnboundedSender<T>);

#[verifier::external_type_specification]
#[verifier::external_body]
#[verifier::reject_recursive_types(T)]
pub struct ExUnboundedReceiver<T>(futures::channel::mpsc::UnboundedReceiver<T>);

/// Everything a background build needs, owned: the ticket it was spawned
/// under, the heightfield parameters, the chunk geometry, and copies of
/// the neighbor edges captured at spawn time (copies, so evicting the
/// neighbor cannot invalidate them).
pub struct BuildJob {
    pub ticket: u64,
    pub params: HeightParams,
    pub size: i64,
    pub res: usize,
    pub ci: i64,
    pub cj: i64,
    pub oleft: Option<Vec<i64>>,
    pub oright: Option<Vec<i64>>,
    pub otop: Option<Vec<i64>>,
    pub obottom: Option<Vec<i64>>,
}

/// What a finished build hands back: its ticket, and the chunk if
/// construction succeeded (`None` reports a construction error, so the
/// cell can fall back to `Empty` and be retried).
pub struct BuildResult {
    pub ticket: u64,
    pub model: Option<TerrainModel>,
}

/// Runs the whole build job and delivers its outcome over the channel.
/// Total: malformed jobs deliver a `None` model rather than panicking.
pub(crate) fn deliver(job: BuildJob, tx: &futures::channel::mpsc::UnboundedSender<BuildResult>) {
    let BuildJob { ticket, params, size, res, ci, cj, oleft, oright, otop, obottom } = job;
    let model = match execute(&params, size, res, ci, cj, oleft, oright, otop, obottom) {
        Result::Ok(m) => Option::Some(m),
        Result::Err(_) => Option::None,
    };
    send_result(tx, BuildResult { ticket, model });
}

/// Relies on futures::channel::mpsc::unbounded: a fresh sender/receiver
/// pair for an unbounded channel.
#[verifier::external_body]
pub(crate) fn mesh_channel() -> (r: (
    futures::channel::mpsc::UnboundedSender<BuildResult>,
    futures::channel::mpsc::UnboundedReceiver<BuildResult>,
)) {
    futures::channel::mpsc::unbounded()
}

/// Relies on UnboundedSender::unbounded_send: queues the message; the send
/// fails only when the receiver is gone, and then the result is dropped,
/// which is the fire-and-forget behavior the cache expects.
#[verifier::external_body]
fn send_result(tx: &futures::channel::mpsc::UnboundedSender<BuildResult>, m: BuildResult) {
    let _ = tx.unbounded_send(m);
}

/// Relies on UnboundedSender::clone: another sender to the same channel.
#[verifier::external_body]
pub(crate) fn clone_sender(tx: &futures::channel::mpsc::UnboundedSender<BuildResult>) -> (r:
    futures::channel::mpsc::UnboundedSender<BuildResult>) {
    tx.clone()
}

/// Relies on UnboundedReceiver::try_recv: the next queued message, if one
/// is waiting; nothing can be promised of its content here, the cache
/// checks the ticket.
#[verifier::external_body]
pub(crate) fn try_recv_result(rx: &mut futures::channel::mpsc::UnboundedReceiver<BuildResult>) -> (r:
    Option<BuildResult>) {
    rx.try_recv().ok()
}

/// Relies on futures::executor::block_on and StreamExt::next: parks the
/// calling thread until a message arrives (`Some`) or every sender is
/// gone (`None`).
#[verifier::external_body]
pub(crate) fn recv_result_blocking(rx: &mut futures::channel::mpsc::UnboundedReceiver<BuildResult>) -> (r:
    Option<BuildResult>) {
    futures::executor::block_on(futures::stream::StreamExt::next(rx))
}

/// Relies on ThreadPool::spawn_ok and future::lazy: runs the job on a
/// worker thread; the deferred closure only calls the verified `deliver`.
#[verifier::external_body]
pub(crate) fn spawn_build(
    pool: &futures::executor::ThreadPool,
    job: BuildJob,
    tx: futures::channel::mpsc::UnboundedSender<BuildResult>,
) {
    pool.spawn_ok(futures::future::lazy(move |_| deliver(job, &tx)));
}

/// Relies on ThreadPool::new: a pool with as many workers as CPUs, or
/// `None` when the system refuses to start its threads.
#[verifier::external_body]
fn new_thread_pool() -> (r: Option<futures::executor::ThreadPool>) {
    futures::executor::ThreadPool::new().ok()
}

/// The background executor the cache spawns work on: a handle to a
/// thread pool of OS workers.
pub struct Executor {
    pub pool: futures::executor::ThreadPool,
}

impl Executor {
    /// Wrap an already-built thread pool.
    pub fn new(pool: futures::executor::ThreadPool) -> (r: Executor) {
        Executor { pool }
    }

    /// An executor over a freshly started default thread pool.
    pub fn new_default() -> (r: Option<Executor>) {
        match new_thread_pool() {
            Option::Some(pool) => Option::Some(Executor { pool }),
            Option::None => Option::None,
        }
    }
}

} // verus!
