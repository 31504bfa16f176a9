//! The per-frame decisions of the meshing scheduler: how many meshing tasks
//! may be in flight, how many new sectors to dispatch this frame, whether to
//! sample neighbour boundary planes, and which dirty sectors get dispatched.
//! Snapshotting voxels, the task pool and the frame's wall-clock deadline are
//! the caller's.

use vstd::prelude::*;

verus! {

/// Max sectors dispatched to meshing workers per frame.
pub const MESH_BUDGET: usize = 2;

/// Resident sector count of the full active shell (radius 3: 7 x 7 x 7).
pub const FULL_SHELL_SECTORS: usize = 343;

/// Tasks allowed in flight at once for a pool of `pool_threads` workers: one
/// more than the workers, and at least `MESH_BUDGET`.
pub fn max_inflight(pool_threads: usize) -> (r: usize)
    ensures
        r == (if pool_threads == usize::MAX {
            usize::MAX
        } else if pool_threads + 1 >= MESH_BUDGET {
            (pool_threads + 1) as usize
        } else {
            MESH_BUDGET
        }),
{
    let more = pool_threads.saturating_add(1);
    if more >= MESH_BUDGET {
        more
    } else {
        MESH_BUDGET
    }
}

/// The world is busy this frame: generation applied sectors, streaming
/// unloaded some, colliders are pending, or fewer sectors than the full
/// shell are resident (`resident` is `None` without a streaming manager).
pub open spec fn world_busy(gen_applied: bool, unloaded: bool, colliders_pending: bool, resident: Option<usize>) -> bool {
    gen_applied || unloaded || colliders_pending || (resident matches Some(n) && n < FULL_SHELL_SECTORS)
}

/// Sectors to dispatch this frame: one while the world is busy (so the brick
/// pool's write lock never races in-flight mesh readers), else `MESH_BUDGET`.
pub fn frame_mesh_budget(gen_applied: bool, unloaded: bool, colliders_pending: bool, resident: Option<usize>) -> (r: usize)
    ensures
        r == (if world_busy(gen_applied, unloaded, colliders_pending, resident) { 1 } else { MESH_BUDGET }),
{
    let shell_filling = match resident {
        Some(n) => n < FULL_SHELL_SECTORS,
        None => false,
    };
    if gen_applied || unloaded || colliders_pending || shell_filling {
        1
    } else {
        MESH_BUDGET
    }
}

/// Neighbour boundary planes are skipped (faces toward them are emitted as
/// toward air) while the shell is still filling or other tasks are in flight.
pub fn skip_neighbor_planes(resident: Option<usize>, tasks_in_flight: bool) -> (r: bool)
    ensures
        r == ((resident matches Some(n) && n < FULL_SHELL_SECTORS) || tasks_in_flight),
{
    let shell_filling = match resident {
        Some(n) => n < FULL_SHELL_SECTORS,
        None => false,
    };
    shell_filling || tasks_in_flight
}

/// Of the first `n` dirty sectors (in dispatch order, `in_flight[i]` telling
/// whether sector `i` already has a task), those dispatched under `budget`:
/// each sector without a task, in order, until `budget` are taken.
pub open spec fn dispatched(in_flight: Seq<bool>, n: int, budget: nat) -> Seq<usize>
    decreases n,
{
    if n <= 0 {
        Seq::empty()
    } else {
        let prev = dispatched(in_flight, n - 1, budget);
        if !in_flight[n - 1] && prev.len() < budget {
            prev.push((n - 1) as usize)
        } else {
            prev
        }
    }
}

/// The dirty sectors to dispatch this frame, as indices into the dispatch
/// order: the first `budget` that have no task in flight yet.
pub fn select_mesh_work(in_flight: &[bool], budget: usize) -> (r: Vec<usize>)
    ensures
        r@ == dispatched(in_flight@, in_flight@.len() as int, budget as nat),
        r@.len() <= budget,
        forall|k: int| 0 <= k < r@.len() ==> r@[k] < in_flight@.len() && !in_flight@[r@[k] as int],
        forall|k1: int, k2: int| 0 <= k1 < k2 < r@.len() ==> r@[k1] < r@[k2],
{
    let mut out: Vec<usize> = Vec::new();
    let mut i: usize = 0;
    while i < in_flight.len()
        invariant
            i <= in_flight@.len(),
            out@ == dispatched(in_flight@, i as int, budget as nat),
            out@.len() <= budget,
            forall|k: int| 0 <= k < out@.len() ==> out@[k] < i && !in_flight@[out@[k] as int],
            forall|k1: int, k2: int| 0 <= k1 < k2 < out@.len() ==> out@[k1] < out@[k2],
        decreases in_flight@.len() - i,
    {
        if out.len() < budget && !in_flight[i] {
            out.push(i);
        }
        i = i + 1;
    }
    out
}

} // verus!
