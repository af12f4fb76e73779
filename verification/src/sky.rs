//! The terrain streaming cache: a fixed `(2R+1) x (2R+1)` window of cache
//! cells mapped onto an unbounded chunk grid, generated lazily on a
//! background pool, stitched at the seams, and shifted in place as the
//! camera crosses chunk boundaries.

use vstd::prelude::*;

use crate::heightfield::HeightParams;
use crate::runtime::{
    clone_sender, mesh_channel, recv_result_blocking, spawn_build, try_recv_result, BuildJob,
    BuildResult, Executor,
};
use crate::settings::Settings;
use crate::terrain_generation::{execute, sp_edge_ok, TerrainModel, CHUNK_SIZE_MAX, RES_MAX};
use vstd::pervasive::VecAdditionalExecFns;

verus! {

/// Largest accepted window radius.
pub const RADIUS_MAX: usize = 63;

/// How far (in chunks) the window center may wander from the world origin.
pub const WANDER_MAX: i64 = 16000;

/// Cell keys are chunk offsets `(i, j)` relative to the window center;
/// a key is inside the window when both lie in `[-radius, radius]`.
pub open spec fn sp_in_window(radius: int, i: int, j: int) -> bool {
    -radius <= i <= radius && -radius <= j <= radius
}

/// The array slot of key `(i, j)`: row-major with `j` as the row.
pub open spec fn sp_idx(radius: int, i: int, j: int) -> int {
    (j + radius) * (2 * radius + 1) + (i + radius)
}

/// The key whose slot is `f`.
pub open spec fn sp_key_of(radius: int, f: int) -> (int, int) {
    (f % (2 * radius + 1) - radius, f / (2 * radius + 1) - radius)
}

/// Slots and keys are in exact correspondence inside the window.
pub proof fn lemma_idx_bijective(radius: int, i: int, j: int)
    requires
        0 <= radius,
        sp_in_window(radius, i, j),
    ensures
        0 <= sp_idx(radius, i, j) < (2 * radius + 1) * (2 * radius + 1),
        sp_key_of(radius, sp_idx(radius, i, j)) == (i, j),
{
    let n = 2 * radius + 1;
    assert(0 <= (j + radius) * n + (i + radius) && (j + radius) * n + (i + radius) < n * n)
        by (nonlinear_arith)
        requires
            0 <= j + radius < n,
            0 <= i + radius < n,
            1 <= n,
    ;
    vstd::arithmetic::div_mod::lemma_fundamental_div_mod_converse(
        (j + radius) * n + (i + radius),
        n,
        j + radius,
        i + radius,
    );
}

/// Every slot is the slot of its own key.
pub proof fn lemma_key_of_idx(radius: int, f: int)
    requires
        0 <= radius,
        0 <= f < (2 * radius + 1) * (2 * radius + 1),
    ensures
        sp_in_window(radius, sp_key_of(radius, f).0, sp_key_of(radius, f).1),
        sp_idx(radius, sp_key_of(radius, f).0, sp_key_of(radius, f).1) == f,
{
    let n = 2 * radius + 1;
    vstd::arithmetic::div_mod::lemma_fundamental_div_mod(f, n);
    vstd::arithmetic::div_mod::lemma_mod_division_less_than_divisor(f, n);
    assert(0 <= f / n < n) by (nonlinear_arith)
        requires
            f == n * (f / n) + f % n,
            0 <= f < n * n,
            0 <= f % n < n,
            1 <= n,
    ;
    assert((f / n) * n + f % n == n * (f / n) + f % n) by (nonlinear_arith);
}

/// Two distinct in-window keys occupy distinct slots.
pub proof fn lemma_idx_injective(radius: int, i1: int, j1: int, i2: int, j2: int)
    requires
        0 <= radius,
        sp_in_window(radius, i1, j1),
        sp_in_window(radius, i2, j2),
        (i1, j1) != (i2, j2),
    ensures
        sp_idx(radius, i1, j1) != sp_idx(radius, i2, j2),
{
    lemma_idx_bijective(radius, i1, j1);
    lemma_idx_bijective(radius, i2, j2);
}

/// Keep `x` only when it lies inside `[0, bound)`.
pub fn crop(x: i64, bound: usize) -> (r: Option<usize>)
    requires
        bound <= 0x1000,
    ensures
        r is Some <==> 0 <= x < bound,
        r matches Some(u) ==> u == x,
{
    if x >= (bound as i64) || x < 0 {
        return Option::None;
    }
    Option::Some(x as usize)
}

/// The array slot of window-array coordinates `(xi, zi)`.
pub fn ii(xi: usize, zi: usize, rows: usize) -> (r: usize)
    requires
        rows <= 0x1000,
        xi < rows,
        zi < rows,
    ensures
        r == zi * rows + xi,
{
    proof {
        assert(zi * rows + xi < rows * rows && rows * rows <= 0x1000 * 0x1000)
            by (nonlinear_arith)
            requires
                xi < rows,
                zi < rows,
                rows <= 0x1000,
        ;
    }
    zi * rows + xi
}

/// The array slot of key `(xi, zi)`, if the key lies inside the window.
pub fn gii(xi: i64, zi: i64, radius: usize) -> (r: Option<usize>)
    requires
        radius <= RADIUS_MAX,
        -0x1000_0000 <= xi <= 0x1000_0000,
        -0x1000_0000 <= zi <= 0x1000_0000,
    ensures
        r is Some <==> sp_in_window(radius as int, xi as int, zi as int),
        r matches Some(u) ==> u == sp_idx(radius as int, xi as int, zi as int),
{
    let rows = 2 * radius + 1;
    let cx = crop(xi + radius as i64, rows);
    let cz = crop(zi + radius as i64, rows);
    if cx.is_none() || cz.is_none() {
        return Option::None;
    }
    Option::Some(ii(cx.unwrap(), cz.unwrap(), rows))
}

/// The array slot of a key known to lie inside the window.
pub fn giiu(xi: i64, zi: i64, radius: usize) -> (r: usize)
    requires
        radius <= RADIUS_MAX,
        sp_in_window(radius as int, xi as int, zi as int),
    ensures
        r == sp_idx(radius as int, xi as int, zi as int),
{
    gii(xi, zi, radius).unwrap()
}

/// The array slot of a key pair known to lie inside the window.
pub fn tii(t: &(i64, i64), radius: usize) -> (r: usize)
    requires
        radius <= RADIUS_MAX,
        sp_in_window(radius as int, t.0 as int, t.1 as int),
    ensures
        r == sp_idx(radius as int, t.0 as int, t.1 as int),
{
    giiu(t.0, t.1, radius)
}

/// Magnitude of a key component.
pub open spec fn sp_abs(v: int) -> int {
    if v < 0 {
        -v
    } else {
        v
    }
}

/// Manhattan distance of a key from the center.
pub open spec fn sp_manh(k: (i64, i64)) -> int {
    sp_abs(k.0 as int) + sp_abs(k.1 as int)
}

/// The fixed order on keys the priority list is sorted by: ascending
/// Manhattan distance, ties broken by the first component, then the
/// second.
pub open spec fn sp_before(a: (i64, i64), b: (i64, i64)) -> bool {
    ||| sp_manh(a) < sp_manh(b)
    ||| (sp_manh(a) == sp_manh(b) && (a.0 < b.0 || (a.0 == b.0 && a.1 < b.1)))
}

/// The keys of Manhattan distance `d` whose first component is `i`,
/// in ascending second-component order.
pub open spec fn sp_ring_row(radius: int, d: int, i: int) -> Seq<(i64, i64)> {
    let m = d - sp_abs(i);
    if m == 0 {
        seq![(i as i64, 0i64)]
    } else if 0 < m <= radius {
        seq![(i as i64, (-m) as i64), (i as i64, m as i64)]
    } else {
        Seq::empty()
    }
}

/// The keys of Manhattan distance `d` with first component at most `i`.
pub open spec fn sp_ring_upto(radius: int, d: int, i: int) -> Seq<(i64, i64)>
    decreases i + radius + 1,
{
    if i < -radius {
        Seq::empty()
    } else {
        sp_ring_upto(radius, d, i - 1) + sp_ring_row(radius, d, i)
    }
}

/// All window keys of Manhattan distance exactly `d`, in priority order.
pub open spec fn sp_ring(radius: int, d: int) -> Seq<(i64, i64)> {
    sp_ring_upto(radius, d, radius)
}

/// All window keys of Manhattan distance at most `d`, in priority order.
pub open spec fn sp_priority_upto(radius: int, d: int) -> Seq<(i64, i64)>
    decreases d + 1,
{
    if d < 0 {
        Seq::empty()
    } else {
        sp_priority_upto(radius, d - 1) + sp_ring(radius, d)
    }
}

/// The precomputed generation order: every key of the window, sorted by
/// ascending Manhattan distance with the fixed tie-break. A pure function
/// of the radius alone: nothing else (in particular no construction-time
/// randomness) enters it.
pub open spec fn sp_priority(radius: int) -> Seq<(i64, i64)> {
    sp_priority_upto(radius, 2 * radius)
}

/// Everything in `sp_ring_upto(radius, d, i)` is an in-window key of
/// Manhattan distance `d` with first component in `[-radius, i]`.
pub proof fn lemma_ring_upto_members(radius: int, d: int, i: int)
    requires
        0 <= radius <= RADIUS_MAX,
        0 <= d,
        -radius - 1 <= i <= radius,
    ensures
        forall|k: int|
            0 <= k < sp_ring_upto(radius, d, i).len() ==> {
                let e = #[trigger] sp_ring_upto(radius, d, i)[k];
                &&& sp_manh(e) == d
                &&& sp_in_window(radius, e.0 as int, e.1 as int)
                &&& -radius <= e.0 <= i
            },
    decreases i + radius + 1,
{
    if i >= -radius {
        lemma_ring_upto_members(radius, d, i - 1);
        let prev = sp_ring_upto(radius, d, i - 1);
        let row = sp_ring_row(radius, d, i);
        let whole = sp_ring_upto(radius, d, i);
        assert forall|k: int| 0 <= k < whole.len() implies {
            let e = #[trigger] whole[k];
            &&& sp_manh(e) == d
            &&& sp_in_window(radius, e.0 as int, e.1 as int)
            &&& -radius <= e.0 <= i
        } by {
            if k < prev.len() {
                assert(whole[k] == prev[k]);
            } else {
                assert(whole[k] == row[k - prev.len()]);
            }
        }
    }
}

/// `sp_ring_upto` is sorted by the tie-break order (its members all share
/// one Manhattan distance).
pub proof fn lemma_ring_upto_sorted(radius: int, d: int, i: int)
    requires
        0 <= radius <= RADIUS_MAX,
        0 <= d,
        -radius - 1 <= i <= radius,
    ensures
        forall|k1: int, k2: int|
            0 <= k1 < k2 < sp_ring_upto(radius, d, i).len() ==> sp_before(
                #[trigger] sp_ring_upto(radius, d, i)[k1],
                #[trigger] sp_ring_upto(radius, d, i)[k2],
            ),
    decreases i + radius + 1,
{
    if i >= -radius {
        lemma_ring_upto_sorted(radius, d, i - 1);
        lemma_ring_upto_members(radius, d, i - 1);
        let prev = sp_ring_upto(radius, d, i - 1);
        let row = sp_ring_row(radius, d, i);
        let whole = sp_ring_upto(radius, d, i);
        assert forall|k1: int, k2: int| 0 <= k1 < k2 < whole.len() implies sp_before(
            #[trigger] whole[k1],
            #[trigger] whole[k2],
        ) by {
            if k1 < prev.len() {
                assert(whole[k1] == prev[k1]);
            } else {
                assert(whole[k1] == row[k1 - prev.len()]);
            }
            if k2 < prev.len() {
                assert(whole[k2] == prev[k2]);
            } else {
                assert(whole[k2] == row[k2 - prev.len()]);
            }
        }
    }
}

/// The full priority list is sorted by `sp_before`, and every entry is an
/// in-window key of Manhattan distance at most `d`.
pub proof fn lemma_priority_upto_sorted(radius: int, d: int)
    requires
        0 <= radius <= RADIUS_MAX,
        -1 <= d,
    ensures
        forall|k: int|
            0 <= k < sp_priority_upto(radius, d).len() ==> {
                let e = #[trigger] sp_priority_upto(radius, d)[k];
                &&& sp_manh(e) <= d
                &&& sp_in_window(radius, e.0 as int, e.1 as int)
            },
        forall|k1: int, k2: int|
            0 <= k1 < k2 < sp_priority_upto(radius, d).len() ==> sp_before(
                #[trigger] sp_priority_upto(radius, d)[k1],
                #[trigger] sp_priority_upto(radius, d)[k2],
            ),
    decreases d + 1,
{
    if d >= 0 {
        lemma_priority_upto_sorted(radius, d - 1);
        lemma_ring_upto_members(radius, d, radius);
        lemma_ring_upto_sorted(radius, d, radius);
        let prev = sp_priority_upto(radius, d - 1);
        let ring = sp_ring(radius, d);
        let whole = sp_priority_upto(radius, d);
        assert forall|k: int| 0 <= k < whole.len() implies {
            let e = #[trigger] whole[k];
            &&& sp_manh(e) <= d
            &&& sp_in_window(radius, e.0 as int, e.1 as int)
        } by {
            if k < prev.len() {
                assert(whole[k] == prev[k]);
            } else {
                assert(whole[k] == ring[k - prev.len()]);
            }
        }
        assert forall|k1: int, k2: int| 0 <= k1 < k2 < whole.len() implies sp_before(
            #[trigger] whole[k1],
            #[trigger] whole[k2],
        ) by {
            if k1 < prev.len() {
                assert(whole[k1] == prev[k1]);
            } else {
                assert(whole[k1] == ring[k1 - prev.len()]);
            }
            if k2 < prev.len() {
                assert(whole[k2] == prev[k2]);
            } else {
                assert(whole[k2] == ring[k2 - prev.len()]);
            }
        }
    }
}

/// Priority ordering determinism: the list is a pure function of the
/// radius, sorted strictly by ascending Manhattan distance with the fixed
/// `(di, dj)` tie-break.
pub proof fn lemma_priority_sorted(radius: int)
    requires
        0 <= radius <= RADIUS_MAX,
    ensures
        forall|k: int|
            0 <= k < sp_priority(radius).len() ==> sp_in_window(
                radius,
                (#[trigger] sp_priority(radius)[k]).0 as int,
                sp_priority(radius)[k].1 as int,
            ),
        forall|k1: int, k2: int|
            0 <= k1 < k2 < sp_priority(radius).len() ==> sp_before(
                #[trigger] sp_priority(radius)[k1],
                #[trigger] sp_priority(radius)[k2],
            ),
{
    lemma_priority_upto_sorted(radius, 2 * radius);
}

/// `sp_ring_upto(radius, d, i)` holds every in-window key of Manhattan
/// distance `d` whose first component is at most `i`.
pub proof fn lemma_ring_upto_complete(radius: int, d: int, i: int, a: int, b: int)
    requires
        0 <= radius <= RADIUS_MAX,
        0 <= d,
        -radius - 1 <= i <= radius,
        sp_in_window(radius, a, b),
        sp_abs(a) + sp_abs(b) == d,
        a <= i,
    ensures
        sp_ring_upto(radius, d, i).contains((a as i64, b as i64)),
    decreases i + radius + 1,
{
    if a == i {
        let row = sp_ring_row(radius, d, i);
        let m = d - sp_abs(i);
        assert(m == sp_abs(b));
        if b == 0 {
            assert(row[0] == (a as i64, b as i64));
        } else if b < 0 {
            assert(row[0] == (a as i64, b as i64));
        } else {
            assert(row[1] == (a as i64, b as i64));
        }
        assert(row.contains((a as i64, b as i64)));
        let k = choose|k: int| 0 <= k < row.len() && row[k] == (a as i64, b as i64);
        assert(sp_ring_upto(radius, d, i)[sp_ring_upto(radius, d, i - 1).len() + k] == (
        a as i64,
        b as i64,
        ));
    } else {
        lemma_ring_upto_complete(radius, d, i - 1, a, b);
        let prev = sp_ring_upto(radius, d, i - 1);
        let k = choose|k: int| 0 <= k < prev.len() && prev[k] == (a as i64, b as i64);
        assert(sp_ring_upto(radius, d, i)[k] == (a as i64, b as i64));
    }
}

/// Completeness: every in-window key appears in the priority list.
pub proof fn lemma_priority_complete(radius: int, a: int, b: int)
    requires
        0 <= radius <= RADIUS_MAX,
        sp_in_window(radius, a, b),
    ensures
        sp_priority(radius).contains((a as i64, b as i64)),
{
    let d = sp_abs(a) + sp_abs(b);
    lemma_ring_upto_complete(radius, d, radius, a, b);
    lemma_priority_contains_ring(radius, 2 * radius, d, a, b);
}

/// A member of ring `d` is a member of the priority list up to any
/// distance at least `d`.
proof fn lemma_priority_contains_ring(radius: int, dmax: int, d: int, a: int, b: int)
    requires
        0 <= radius <= RADIUS_MAX,
        -radius <= a <= radius,
        -radius <= b <= radius,
        0 <= d <= dmax,
        sp_ring(radius, d).contains((a as i64, b as i64)),
    ensures
        sp_priority_upto(radius, dmax).contains((a as i64, b as i64)),
    decreases dmax,
{
    if d == dmax {
        let ring = sp_ring(radius, d);
        let k = choose|k: int| 0 <= k < ring.len() && ring[k] == (a as i64, b as i64);
        assert(sp_priority_upto(radius, dmax)[sp_priority_upto(radius, dmax - 1).len() + k] == (
        a as i64,
        b as i64,
        ));
    } else {
        lemma_priority_contains_ring(radius, dmax - 1, d, a, b);
        let prev = sp_priority_upto(radius, dmax - 1);
        let k = choose|k: int| 0 <= k < prev.len() && prev[k] == (a as i64, b as i64);
        assert(sp_priority_upto(radius, dmax)[k] == (a as i64, b as i64));
    }
}

/// Priority ordering determinism, stated over whole caches: two caches
/// with one window radius hold identical priority lists, whatever their
/// parameters, seeds or camera positions — the list is the pure function
/// `sp_priority` of the radius alone.
pub proof fn lemma_priority_deterministic(s1: Sky, s2: Sky)
    requires
        s1.wf(),
        s2.wf(),
        s1.spec_config().window_radius == s2.spec_config().window_radius,
    ensures
        s1.spec_order() == s2.spec_order(),
{
}

/// Build the priority list of window keys: ascending Manhattan distance,
/// ties broken by the first component and then the second.
pub fn build_priority(radius: usize) -> (order: Vec<(i64, i64)>)
    requires
        radius <= RADIUS_MAX,
    ensures
        order@ == sp_priority(radius as int),
{
    let mut order: Vec<(i64, i64)> = Vec::new();
    let rows = 2 * radius + 1;
    let mut d: usize = 0;
    while d < 2 * radius + 1
        invariant
            radius <= RADIUS_MAX,
            rows == 2 * radius + 1,
            0 <= d <= 2 * radius + 1,
            order@ == sp_priority_upto(radius as int, d - 1),
        decreases 2 * radius + 1 - d,
    {
        let mut io: usize = 0;
        while io < rows
            invariant
                radius <= RADIUS_MAX,
                rows == 2 * radius + 1,
                0 <= d <= 2 * radius,
                0 <= io <= rows,
                order@ == sp_priority_upto(radius as int, d - 1) + sp_ring_upto(
                    radius as int,
                    d as int,
                    io - 1 - radius,
                ),
            decreases rows - io,
        {
            let i = io as i64 - radius as i64;
            let ai = if i < 0 {
                -i
            } else {
                i
            };
            let m = d as i64 - ai;
            if m == 0 {
                order.push((i, 0));
            } else if 0 < m && m <= radius as i64 {
                order.push((i, -m));
                order.push((i, m));
            }
            io = io + 1;
            proof {
                assert(order@ =~= sp_priority_upto(radius as int, d - 1) + sp_ring_upto(
                    radius as int,
                    d as int,
                    io - 1 - radius,
                ));
            }
        }
        d = d + 1;
        proof {
            assert(order@ =~= sp_priority_upto(radius as int, d - 1));
        }
    }
    proof {
        assert(order@ =~= sp_priority(radius as int));
    }
    order
}

/// Fixed configuration of one cache.
#[derive(Debug, Clone, Copy, PartialEq, Eq, Structural)]
pub struct SkyConfig {
    /// World units per chunk side.
    pub chunk_size: i64,
    /// Vertices per chunk side.
    pub resolution: usize,
    /// The window covers keys in `[-window_radius, window_radius]` on both
    /// axes.
    pub window_radius: usize,
    /// Look-ahead spawning starts when the camera is more than
    /// `chunk_size / lookahead_div` from its chunk's center.
    pub lookahead_div: i64,
    /// `get_current` returns chunks of Manhattan distance strictly below
    /// this.
    pub visibility_radius: i64,
}

impl SkyConfig {
    /// Admissible configurations.
    pub open spec fn wf(self) -> bool {
        &&& 1 <= self.chunk_size <= CHUNK_SIZE_MAX
        &&& 2 <= self.resolution <= RES_MAX
        &&& 1 <= self.window_radius <= RADIUS_MAX
        &&& 1 <= self.lookahead_div <= 1024
        &&& 0 <= self.visibility_radius <= 1024
    }

    /// Cells per window side.
    pub open spec fn rows(self) -> int {
        2 * self.window_radius + 1
    }

    /// Cells in the whole window.
    pub open spec fn cell_count(self) -> int {
        self.rows() * self.rows()
    }
}

/// One cache slot of the window.
#[derive(Debug)]
pub enum CellState {
    /// No mesh and no task in flight.
    Empty,
    /// A background task spawned under `ticket` may still deliver here.
    Generating { ticket: u64 },
    /// A chunk has been committed; it is never replaced while the slot
    /// keeps this world position.
    Ready { chunk: TerrainModel },
}

/// The observable state of a cell, without its contents.
#[derive(Debug, Clone, Copy, PartialEq, Eq, Structural)]
pub enum CellKind {
    Empty,
    Generating,
    Ready,
}

/// The ticket of a cell with a task in flight.
pub open spec fn sp_gen_ticket(c: CellState) -> Option<u64> {
    match c {
        CellState::Generating { ticket } => Option::Some(ticket),
        _ => Option::None,
    }
}

/// Every in-flight ticket was allocated below `next`.
pub open spec fn sp_tickets_below(cells: Seq<CellState>, next: u64) -> bool {
    forall|k: int|
        0 <= k < cells.len() ==> (#[trigger] sp_gen_ticket(cells[k]) matches Option::Some(t) ==> t
            < next)
}

/// No two cells share an in-flight ticket.
pub open spec fn sp_tickets_distinct(cells: Seq<CellState>) -> bool {
    forall|k1: int, k2: int|
        0 <= k1 < cells.len() && 0 <= k2 < cells.len() && k1 != k2 && #[trigger] sp_gen_ticket(
            cells[k1],
        ) is Some && #[trigger] sp_gen_ticket(cells[k2]) is Some ==> sp_gen_ticket(cells[k1])
            != sp_gen_ticket(cells[k2])
}

/// Floor division, the chunk index of a world coordinate.
pub open spec fn sp_floor_div(c: int, s: int) -> int {
    c / s
}

/// Whether a camera coordinate is within the world the cache accepts.
pub open spec fn sp_cam_ok(c: int, cfg: SkyConfig) -> bool {
    -WANDER_MAX * cfg.chunk_size <= c <= WANDER_MAX * cfg.chunk_size
}

/// The chunk containing world coordinate `c` (chunk `q` spans
/// `[q * s, (q + 1) * s)`).
fn chunk_of(c: i64, s: i64) -> (q: i64)
    requires
        1 <= s <= CHUNK_SIZE_MAX,
        -WANDER_MAX * s <= c <= WANDER_MAX * s,
    ensures
        q == sp_floor_div(c as int, s as int),
        -WANDER_MAX <= q <= WANDER_MAX,
{
    proof {
        assert(0 < c + s * 0x10000 && c + s * 0x10000 <= s * 0x14000 && s * 0x14000
            <= CHUNK_SIZE_MAX * 0x14000) by (nonlinear_arith)
            requires
                1 <= s <= CHUNK_SIZE_MAX,
                -WANDER_MAX * s <= c <= WANDER_MAX * s,
        ;
    }
    let cu = ((c + s * 0x10000) as u64) / (s as u64);
    proof {
        vstd::arithmetic::div_mod::lemma_hoist_over_denominator(c as int, 0x10000, s as nat);
        assert(0x10000 * (s as int) == (s as int) * 0x10000) by (nonlinear_arith);
        vstd::arithmetic::div_mod::lemma_div_multiples_vanish(-WANDER_MAX as int, s as int);
        vstd::arithmetic::div_mod::lemma_div_multiples_vanish(WANDER_MAX as int, s as int);
        assert((s as int) * (-WANDER_MAX) == -WANDER_MAX * (s as int) && (s as int) * WANDER_MAX
            == WANDER_MAX * (s as int)) by (nonlinear_arith);
        vstd::arithmetic::div_mod::lemma_div_is_ordered(
            (s as int) * (-WANDER_MAX),
            c as int,
            s as int,
        );
        vstd::arithmetic::div_mod::lemma_div_is_ordered(
            c as int,
            (s as int) * WANDER_MAX,
            s as int,
        );
        assert((s as int) * (-WANDER_MAX) == (-WANDER_MAX) * (s as int) && (s as int) * WANDER_MAX
            == WANDER_MAX * (s as int)) by (nonlinear_arith);
    }
    (cu as i64) - 0x10000
}

/// The terrain streaming cache. It owns a `(2R+1) x (2R+1)` array of
/// cells centered on the chunk under the camera, a precomputed priority
/// order, and the channel over which background builds deliver.
pub struct Sky {
    settings: Settings,
    config: SkyConfig,
    params: HeightParams,
    cells: Vec<CellState>,
    ordered_cells: Vec<(i64, i64)>,
    /// Chunk coordinates of the window center (key `(0, 0)`).
    wci: i64,
    wcj: i64,
    /// Last seen camera position, world units.
    cx: i64,
    cz: i64,
    next_ticket: u64,
    tx: futures::channel::mpsc::UnboundedSender<BuildResult>,
    rx: futures::channel::mpsc::UnboundedReceiver<BuildResult>,
}

impl Sky {
    /// The window radius.
    pub closed spec fn radius(self) -> int {
        self.config.window_radius as int
    }

    /// The configuration, as given at construction.
    pub closed spec fn spec_config(self) -> SkyConfig {
        self.config
    }

    /// The heightfield parameters, as given at construction.
    pub closed spec fn spec_params(self) -> HeightParams {
        self.params
    }

    /// The cell array.
    pub closed spec fn spec_cells(self) -> Seq<CellState> {
        self.cells@
    }

    /// The priority order.
    pub closed spec fn spec_order(self) -> Seq<(i64, i64)> {
        self.ordered_cells@
    }

    /// Chunk coordinates of the window center.
    pub closed spec fn spec_center(self) -> (i64, i64) {
        (self.wci, self.wcj)
    }

    /// The last camera position handed to the cache.
    pub closed spec fn spec_camera(self) -> (i64, i64) {
        (self.cx, self.cz)
    }

    /// The next ticket a spawn would be issued.
    pub closed spec fn spec_next_ticket(self) -> u64 {
        self.next_ticket
    }

    /// The cell at window key `(i, j)`.
    pub open spec fn cell_at(self, i: int, j: int) -> CellState {
        self.spec_cells()[sp_idx(self.radius(), i, j)]
    }

    /// Center readiness: the chunk under the camera is built.
    pub open spec fn center_ready(self) -> bool {
        self.cell_at(0, 0) is Ready
    }

    /// The cache's invariant.
    pub closed spec fn wf(self) -> bool {
        &&& self.config.wf()
        &&& self.params.wf()
        &&& self.cells@.len() == self.config.cell_count()
        &&& self.ordered_cells@ == sp_priority(self.radius())
        &&& -WANDER_MAX <= self.wci <= WANDER_MAX
        &&& -WANDER_MAX <= self.wcj <= WANDER_MAX
        &&& sp_cam_ok(self.cx as int, self.config)
        &&& sp_cam_ok(self.cz as int, self.config)
        &&& sp_tickets_below(self.cells@, self.next_ticket)
        &&& sp_tickets_distinct(self.cells@)
    }

    /// Build a cache with every cell `Empty`, centered on the chunk that
    /// contains `(x, z)`. Succeeds exactly on admissible configuration,
    /// parameters and camera position.
    pub fn new(settings: Settings, config: SkyConfig, params: HeightParams, x: i64, z: i64) -> (r:
        Option<Sky>)
        ensures
            r is Some <==> {
                &&& config.wf()
                &&& params.wf()
                &&& sp_cam_ok(x as int, config)
                &&& sp_cam_ok(z as int, config)
            },
            r matches Some(s) ==> {
                &&& s.wf()
                &&& s.spec_config() == config
                &&& s.spec_params() == params
                &&& s.spec_camera() == (x, z)
                &&& s.spec_center() == (
                    sp_floor_div(x as int, config.chunk_size as int) as i64,
                    sp_floor_div(z as int, config.chunk_size as int) as i64,
                )
                &&& s.spec_order() == sp_priority(config.window_radius as int)
                &&& s.spec_cells().len() == config.cell_count()
                &&& forall|k: int|
                    0 <= k < s.spec_cells().len() ==> #[trigger] s.spec_cells()[k] is Empty
            },
    {
        if !(1 <= config.chunk_size && config.chunk_size <= CHUNK_SIZE_MAX && 2
            <= config.resolution && config.resolution <= RES_MAX && 1 <= config.window_radius
            && config.window_radius <= RADIUS_MAX && 1 <= config.lookahead_div
            && config.lookahead_div <= 1024 && 0 <= config.visibility_radius
            && config.visibility_radius <= 1024) {
            return Option::None;
        }
        if !(1 <= params.scale && params.scale <= crate::heightfield::SCALE_LIMIT && 1
            <= params.octaves && params.octaves <= crate::heightfield::OCTAVE_LIMIT && 0
            <= params.amplitude && params.amplitude <= crate::heightfield::AMPLITUDE_LIMIT
            && -crate::heightfield::AMPLITUDE_LIMIT <= params.height_offset && params.height_offset
            <= crate::heightfield::AMPLITUDE_LIMIT && -crate::heightfield::HEIGHT_LIMIT
            <= params.sea_level && params.sea_level <= params.plateau_level && params.plateau_level
            < crate::heightfield::HEIGHT_LIMIT && -crate::heightfield::ORIGIN_LIMIT
            <= params.origin_x && params.origin_x <= crate::heightfield::ORIGIN_LIMIT
            && -crate::heightfield::ORIGIN_LIMIT <= params.origin_y && params.origin_y
            <= crate::heightfield::ORIGIN_LIMIT) {
            return Option::None;
        }
        let bound = WANDER_MAX * config.chunk_size;
        if !(-bound <= x && x <= bound && -bound <= z && z <= bound) {
            return Option::None;
        }
        let rows = 2 * config.window_radius + 1;
        proof {
            assert(rows * rows <= 0x1000 * 0x1000) by (nonlinear_arith)
                requires
                    rows <= 2 * RADIUS_MAX + 1,
            ;
        }
        let count = rows * rows;
        let mut cells: Vec<CellState> = Vec::new();
        let mut k: usize = 0;
        while k < count
            invariant
                0 <= k <= count,
                cells@.len() == k,
                forall|m: int| 0 <= m < k ==> #[trigger] cells@[m] is Empty,
            decreases count - k,
        {
            cells.push(CellState::Empty);
            k = k + 1;
        }
        let ordered_cells = build_priority(config.window_radius);
        let wci = chunk_of(x, config.chunk_size);
        let wcj = chunk_of(z, config.chunk_size);
        let (tx, rx) = mesh_channel();
        Option::Some(
            Sky {
                settings,
                config,
                params,
                cells,
                ordered_cells,
                wci,
                wcj,
                cx: x,
                cz: z,
                next_ticket: 0,
                tx,
                rx,
            },
        )
    }

    /// Record the camera's position; pure bookkeeping, no generation.
    pub fn camera_entered(&mut self, x: i64, z: i64)
        requires
            old(self).wf(),
            sp_cam_ok(x as int, old(self).spec_config()),
            sp_cam_ok(z as int, old(self).spec_config()),
        ensures
            final (self).wf(),
            final (self).spec_camera() == (x, z),
            final (self).spec_cells() == old(self).spec_cells(),
            final (self).spec_config() == old(self).spec_config(),
            final (self).spec_params() == old(self).spec_params(),
            final (self).spec_center() == old(self).spec_center(),
            final (self).spec_order() == old(self).spec_order(),
            final (self).spec_next_ticket() == old(self).spec_next_ticket(),
    {
        self.cx = x;
        self.cz = z;
    }

    /// The chunk offsets the camera has fully crossed since the window
    /// was last centered, on each axis independently.
    fn real_inds(&self) -> (r: (i64, i64))
        requires
            self.wf(),
        ensures
            r.0 == sp_floor_div(
                self.spec_camera().0 as int,
                self.spec_config().chunk_size as int,
            ) - self.spec_center().0,
            r.1 == sp_floor_div(
                self.spec_camera().1 as int,
                self.spec_config().chunk_size as int,
            ) - self.spec_center().1,
            -2 * WANDER_MAX <= r.0 <= 2 * WANDER_MAX,
            -2 * WANDER_MAX <= r.1 <= 2 * WANDER_MAX,
            -WANDER_MAX <= self.spec_center().0 + r.0 <= WANDER_MAX,
            -WANDER_MAX <= self.spec_center().1 + r.1 <= WANDER_MAX,
    {
        let ci = chunk_of(self.cx, self.config.chunk_size);
        let cj = chunk_of(self.cz, self.config.chunk_size);
        (ci - self.wci, cj - self.wcj)
    }

    /// The chunk at key `(i, j)`, when that key is inside the window and
    /// its cell is `Ready`.
    pub fn get_chunk(&self, i: i64, j: i64) -> (r: Option<&TerrainModel>)
        requires
            self.wf(),
            -0x1000_0000 <= i <= 0x1000_0000,
            -0x1000_0000 <= j <= 0x1000_0000,
        ensures
            r is Some <==> (sp_in_window(self.radius(), i as int, j as int) && self.cell_at(
                i as int,
                j as int,
            ) is Ready),
            r matches Some(c) ==> self.cell_at(i as int, j as int) == (CellState::Ready {
                chunk: *c,
            }),
    {
        proof {
            if sp_in_window(self.radius(), i as int, j as int) {
                lemma_idx_bijective(self.radius(), i as int, j as int);
            }
        }
        match gii(i, j, self.config.window_radius) {
            Option::None => Option::None,
            Option::Some(idx) => {
                match &self.cells[idx] {
                    CellState::Ready { chunk } => Option::Some(chunk),
                    _ => Option::None,
                }
            },
        }
    }

    /// The observable state of the cell at key `(i, j)`, if the key is
    /// inside the window.
    pub fn cell_kind(&self, i: i64, j: i64) -> (r: Option<CellKind>)
        requires
            self.wf(),
            -0x1000_0000 <= i <= 0x1000_0000,
            -0x1000_0000 <= j <= 0x1000_0000,
        ensures
            r is Some <==> sp_in_window(self.radius(), i as int, j as int),
            r matches Some(k) ==> k == (match self.cell_at(i as int, j as int) {
                CellState::Empty => CellKind::Empty,
                CellState::Generating { .. } => CellKind::Generating,
                CellState::Ready { .. } => CellKind::Ready,
            }),
    {
        proof {
            if sp_in_window(self.radius(), i as int, j as int) {
                lemma_idx_bijective(self.radius(), i as int, j as int);
            }
        }
        match gii(i, j, self.config.window_radius) {
            Option::None => Option::None,
            Option::Some(idx) => Option::Some(
                match &self.cells[idx] {
                    CellState::Empty => CellKind::Empty,
                    CellState::Generating { .. } => CellKind::Generating,
                    CellState::Ready { .. } => CellKind::Ready,
                },
            ),
        }
    }

    /// The configuration.
    pub fn config(&self) -> (r: SkyConfig)
        ensures
            r == self.spec_config(),
    {
        self.config
    }

    /// The priority order, as computed at construction.
    pub fn ordered_cells(&self) -> (r: &Vec<(i64, i64)>)
        ensures
            r@ == self.spec_order(),
    {
        &self.ordered_cells
    }

    /// The window center, in chunk coordinates.
    pub fn window_center(&self) -> (r: (i64, i64))
        ensures
            r == self.spec_center(),
    {
        (self.wci, self.wcj)
    }
}

/// How one cell may change while results are committed: `Empty` and
/// `Ready` cells stand still; a `Generating` cell may resolve to `Ready`
/// (its build arrived) or fall back to `Empty` (its build failed).
pub open spec fn sp_cell_evolves(x: CellState, y: CellState) -> bool {
    match x {
        CellState::Empty => y == x,
        CellState::Ready { .. } => y == x,
        CellState::Generating { .. } => y == x || y is Ready || y is Empty,
    }
}

/// Pointwise `sp_cell_evolves` over the whole window.
pub open spec fn sp_evolves(a: Seq<CellState>, b: Seq<CellState>) -> bool {
    &&& a.len() == b.len()
    &&& forall|k: int| 0 <= k < a.len() ==> sp_cell_evolves(#[trigger] a[k], #[trigger] b[k])
}

/// `sp_evolves` composes.
pub proof fn lemma_evolves_trans(a: Seq<CellState>, b: Seq<CellState>, c: Seq<CellState>)
    requires
        sp_evolves(a, b),
        sp_evolves(b, c),
    ensures
        sp_evolves(a, c),
{
    assert forall|k: int| 0 <= k < a.len() implies sp_cell_evolves(
        #[trigger] a[k],
        #[trigger] c[k],
    ) by {
        assert(sp_cell_evolves(a[k], b[k]));
        assert(sp_cell_evolves(b[k], c[k]));
    }
}

/// What committing one build result does to the cell array: if some cell
/// is still `Generating` under the result's ticket, that cell (unique,
/// by the ticket invariant) becomes `Ready` with the delivered chunk, or
/// `Empty` when the build failed; otherwise (the cell was superseded or
/// already committed) the result is discarded and nothing changes.
pub open spec fn sp_commit(cells: Seq<CellState>, ticket: u64, model: Option<TerrainModel>) -> Seq<
    CellState,
> {
    if exists|k: int|
        0 <= k < cells.len() && #[trigger] sp_gen_ticket(cells[k]) == Option::Some(ticket) {
        let k = choose|k: int|
            0 <= k < cells.len() && #[trigger] sp_gen_ticket(cells[k]) == Option::Some(ticket);
        cells.update(
            k,
            match model {
                Option::Some(m) => CellState::Ready { chunk: m },
                Option::None => CellState::Empty,
            },
        )
    } else {
        cells
    }
}

/// A `Ready` cell is permanent for its lifetime in the window: no
/// delivered result, whatever its ticket or content, ever replaces an
/// already-committed chunk.
pub proof fn lemma_ready_is_permanent(
    cells: Seq<CellState>,
    ticket: u64,
    model: Option<TerrainModel>,
    k: int,
)
    requires
        0 <= k < cells.len(),
        cells[k] is Ready,
    ensures
        sp_commit(cells, ticket, model)[k] == cells[k],
{
}

/// No duplicate commits: once a result has been committed under a
/// ticket, committing any further result under the same ticket is a
/// no-op, so at most one chunk is ever committed per ticket.
pub proof fn lemma_no_duplicate_commit(
    cells: Seq<CellState>,
    ticket: u64,
    m1: Option<TerrainModel>,
    m2: Option<TerrainModel>,
)
    requires
        sp_tickets_distinct(cells),
    ensures
        sp_commit(sp_commit(cells, ticket, m1), ticket, m2) == sp_commit(cells, ticket, m1),
{
    if exists|k: int|
        0 <= k < cells.len() && #[trigger] sp_gen_ticket(cells[k]) == Option::Some(ticket) {
        let k = choose|k: int|
            0 <= k < cells.len() && #[trigger] sp_gen_ticket(cells[k]) == Option::Some(ticket);
        let once = sp_commit(cells, ticket, m1);
        assert forall|k2: int| 0 <= k2 < once.len() implies #[trigger] sp_gen_ticket(once[k2])
            != Option::Some(ticket) by {
            if k2 != k {
                assert(once[k2] == cells[k2]);
                if sp_gen_ticket(cells[k2]) == Option::Some(ticket) {
                    assert(sp_gen_ticket(cells[k]) is Some && sp_gen_ticket(cells[k2]) is Some);
                    assert(false);
                }
            }
        }
    }
}

impl Sky {
    /// Commit one delivered build result, double-checked: the result
    /// lands only in the cell that is still `Generating` under its
    /// ticket; a stale result (its cell evicted, superseded, or already
    /// committed) is silently discarded.
    pub fn deliver_result(&mut self, msg: BuildResult)
        requires
            old(self).wf(),
        ensures
            final (self).wf(),
            final (self).spec_cells() == sp_commit(old(self).spec_cells(), msg.ticket, msg.model),
            sp_evolves(old(self).spec_cells(), final (self).spec_cells()),
            final (self).spec_config() == old(self).spec_config(),
            final (self).spec_params() == old(self).spec_params(),
            final (self).spec_center() == old(self).spec_center(),
            final (self).spec_camera() == old(self).spec_camera(),
            final (self).spec_order() == old(self).spec_order(),
            final (self).spec_next_ticket() == old(self).spec_next_ticket(),
    {
        let BuildResult { ticket, model } = msg;
        let n = self.cells.len();
        let mut found: Option<usize> = Option::None;
        let mut k: usize = 0;
        while k < n
            invariant
                n == self.cells@.len(),
                0 <= k <= n,
                match found {
                    Option::Some(f) => f < k && sp_gen_ticket(self.cells@[f as int])
                        == Option::Some(ticket),
                    Option::None => forall|m: int|
                        0 <= m < k ==> #[trigger] sp_gen_ticket(self.cells@[m])
                            != Option::Some(ticket),
                },
            decreases n - k,
        {
            if found.is_none() {
                let hit = match &self.cells[k] {
                    CellState::Generating { ticket: t } => *t == ticket,
                    _ => false,
                };
                if hit {
                    found = Option::Some(k);
                }
            }
            k = k + 1;
        }
        match found {
            Option::Some(f) => {
                let st = match model {
                    Option::Some(m) => CellState::Ready { chunk: m },
                    Option::None => CellState::Empty,
                };
                proof {
                    assert(exists|k2: int|
                        0 <= k2 < self.cells@.len() && #[trigger] sp_gen_ticket(self.cells@[k2])
                            == Option::Some(ticket)) by {
                        assert(sp_gen_ticket(self.cells@[f as int]) == Option::Some(ticket));
                    }
                    let kc = choose|k2: int|
                        0 <= k2 < self.cells@.len() && #[trigger] sp_gen_ticket(self.cells@[k2])
                            == Option::Some(ticket);
                    if kc != f {
                        assert(sp_gen_ticket(self.cells@[kc]) is Some && sp_gen_ticket(
                            self.cells@[f as int],
                        ) is Some);
                        assert(false);
                    }
                }
                self.cells.set(f, st);
            },
            Option::None => {
                proof {
                    assert(!exists|k2: int|
                        0 <= k2 < self.cells@.len() && #[trigger] sp_gen_ticket(self.cells@[k2])
                            == Option::Some(ticket));
                }
            },
        }
    }

    /// Drain up to a bounded number of already-delivered build results
    /// from the channel, committing each.
    fn drain_results(&mut self)
        requires
            old(self).wf(),
        ensures
            final (self).wf(),
            sp_evolves(old(self).spec_cells(), final (self).spec_cells()),
            final (self).spec_config() == old(self).spec_config(),
            final (self).spec_params() == old(self).spec_params(),
            final (self).spec_center() == old(self).spec_center(),
            final (self).spec_camera() == old(self).spec_camera(),
            final (self).spec_order() == old(self).spec_order(),
            final (self).spec_next_ticket() == old(self).spec_next_ticket(),
    {
        let mut k: usize = 0;
        let mut more = true;
        while more && k < 4096
            invariant
                self.wf(),
                sp_evolves(old(self).spec_cells(), self.spec_cells()),
                self.spec_config() == old(self).spec_config(),
                self.spec_params() == old(self).spec_params(),
                self.spec_center() == old(self).spec_center(),
                self.spec_camera() == old(self).spec_camera(),
                self.spec_order() == old(self).spec_order(),
                self.spec_next_ticket() == old(self).spec_next_ticket(),
            decreases 4096 - k,
    {
            let ghost mid = self.spec_cells();
            match try_recv_result(&mut self.rx) {
                Option::Some(m) => {
                    self.deliver_result(m);
                    proof {
                        lemma_evolves_trans(
                            old(self).spec_cells(),
                            mid,
                            self.spec_cells(),
                        );
                    }
                },
                Option::None => {
                    more = false;
                },
            }
            k = k + 1;
        }
    }
}

/// Which edge of a neighbor chunk is consulted.
#[derive(Debug, Clone, Copy, PartialEq, Eq, Structural)]
pub enum EdgeSide {
    Left,
    Right,
    Top,
    Bottom,
}

/// The chosen edge vector of a chunk.
pub open spec fn sp_side_of(chunk: TerrainModel, side: EdgeSide) -> Seq<i64> {
    match side {
        EdgeSide::Left => chunk.left@,
        EdgeSide::Right => chunk.right@,
        EdgeSide::Top => chunk.top@,
        EdgeSide::Bottom => chunk.bottom@,
    }
}

/// Whether the neighbor at key `(i, j)` can supply the chosen edge: it is
/// inside the window, already built, and its edge matches the cache's
/// resolution.
pub open spec fn sp_border_available(s: Sky, i: int, j: int, side: EdgeSide) -> bool {
    &&& sp_in_window(s.radius(), i, j)
    &&& (s.cell_at(i, j) matches CellState::Ready { chunk } && sp_edge_ok(
        Option::Some(sp_side_of(chunk, side)),
        s.spec_config().resolution as int,
    ))
}

/// Copy an edge-height vector.
fn copy_heights(v: &Vec<i64>) -> (r: Vec<i64>)
    ensures
        r@ == v@,
{
    let mut r: Vec<i64> = Vec::new();
    let n = v.len();
    let mut k: usize = 0;
    while k < n
        invariant
            n == v@.len(),
            0 <= k <= n,
            r@.len() == k,
            forall|m: int| 0 <= m < k ==> #[trigger] r@[m] == v@[m],
        decreases n - k,
    {
        r.push(v[k]);
        k = k + 1;
    }
    proof {
        assert(r@ =~= v@);
    }
    r
}

/// Check an edge vector's length and value range.
fn edge_valid(v: &Vec<i64>, res: usize) -> (b: bool)
    ensures
        b == sp_edge_ok(Option::Some(v@), res as int),
{
    if v.len() != res {
        return false;
    }
    let mut k: usize = 0;
    while k < res
        invariant
            v@.len() == res,
            0 <= k <= res,
            forall|j: int|
                0 <= j < k ==> -crate::heightfield::HEIGHT_LIMIT <= #[trigger] v@[j]
                    < crate::heightfield::HEIGHT_LIMIT,
        decreases res - k,
    {
        if v[k] < -crate::heightfield::HEIGHT_LIMIT || v[k] >= crate::heightfield::HEIGHT_LIMIT {
            proof {
                assert(!sp_edge_ok(Option::Some(v@), res as int)) by {
                    let w = k as int;
                    assert(0 <= w < v@.len() && !(-crate::heightfield::HEIGHT_LIMIT <= v@[w]
                        < crate::heightfield::HEIGHT_LIMIT));
                }
            }
            return false;
        }
        k = k + 1;
    }
    true
}

/// How one cell may change while look-ahead spawning runs: only `Empty`
/// cells change, each to `Generating` under a ticket allocated at or
/// after `next0`.
pub open spec fn sp_spawn_evolves(a: Seq<CellState>, b: Seq<CellState>, next0: u64) -> bool {
    &&& a.len() == b.len()
    &&& forall|k: int|
        0 <= k < a.len() ==> match #[trigger] a[k] {
            CellState::Empty => b[k] == a[k] || (sp_gen_ticket(b[k]) matches Option::Some(t) && t
                >= next0),
            _ => b[k] == a[k],
        }
}

impl Sky {
    /// Capture one edge of the neighbor at key `(i, j)`, by copy, for a
    /// build about to be spawned: present exactly when that neighbor is
    /// inside the window, already `Ready`, and its edge matches the
    /// cache's resolution.
    fn get_border_vec(&self, i: i64, j: i64, side: EdgeSide) -> (r: Option<Vec<i64>>)
        requires
            self.wf(),
            -0x1000_0000 <= i <= 0x1000_0000,
            -0x1000_0000 <= j <= 0x1000_0000,
        ensures
            r is Some <==> sp_border_available(*self, i as int, j as int, side),
            r matches Some(v) ==> (self.cell_at(i as int, j as int) matches CellState::Ready {
                chunk,
            } && v@ == sp_side_of(chunk, side) && sp_edge_ok(
                Option::Some(v@),
                self.spec_config().resolution as int,
            )),
    {
        proof {
            if sp_in_window(self.radius(), i as int, j as int) {
                lemma_idx_bijective(self.radius(), i as int, j as int);
            }
        }
        match gii(i, j, self.config.window_radius) {
            Option::None => Option::None,
            Option::Some(idx) => {
                match &self.cells[idx] {
                    CellState::Ready { chunk } => {
                        let src = match side {
                            EdgeSide::Left => &chunk.left,
                            EdgeSide::Right => &chunk.right,
                            EdgeSide::Top => &chunk.top,
                            EdgeSide::Bottom => &chunk.bottom,
                        };
                        if edge_valid(src, self.config.resolution) {
                            Option::Some(copy_heights(src))
                        } else {
                            Option::None
                        }
                    },
                    _ => Option::None,
                }
            },
        }
    }

    /// Spawn background generation of the cell at key `(i, j)`: capture
    /// the edges of already-`Ready` orthogonal neighbors, mark the cell
    /// `Generating` under a fresh ticket, and hand the job to the pool.
    fn spawn_cell(&mut self, ex: &Executor, i: i64, j: i64)
        requires
            old(self).wf(),
            sp_in_window(old(self).radius(), i as int, j as int),
            old(self).cell_at(i as int, j as int) is Empty,
            old(self).spec_next_ticket() < u64::MAX,
        ensures
            final (self).wf(),
            final (self).spec_cells() == old(self).spec_cells().update(
                sp_idx(old(self).radius(), i as int, j as int),
                (CellState::Generating { ticket: old(self).spec_next_ticket() }),
            ),
            final (self).spec_next_ticket() == old(self).spec_next_ticket() + 1,
            final (self).spec_config() == old(self).spec_config(),
            final (self).spec_params() == old(self).spec_params(),
            final (self).spec_center() == old(self).spec_center(),
            final (self).spec_camera() == old(self).spec_camera(),
            final (self).spec_order() == old(self).spec_order(),
    {
        proof {
            lemma_idx_bijective(self.radius(), i as int, j as int);
        }
        let idx = giiu(i, j, self.config.window_radius);
        let ticket = self.next_ticket;
        self.next_ticket = ticket + 1;
        let oleft = self.get_border_vec(i - 1, j, EdgeSide::Right);
        let oright = self.get_border_vec(i + 1, j, EdgeSide::Left);
        let otop = self.get_border_vec(i, j - 1, EdgeSide::Bottom);
        let obottom = self.get_border_vec(i, j + 1, EdgeSide::Top);
        let job = BuildJob {
            ticket,
            params: self.params,
            size: self.config.chunk_size,
            res: self.config.resolution,
            ci: self.wci + i,
            cj: self.wcj + j,
            oleft,
            oright,
            otop,
            obottom,
        };
        spawn_build(&ex.pool, job, clone_sender(&self.tx));
        self.cells.set(idx, CellState::Generating { ticket });
        proof {
            assert forall|k1: int, k2: int|
                0 <= k1 < self.cells@.len() && 0 <= k2 < self.cells@.len() && k1 != k2
                    && #[trigger] sp_gen_ticket(self.cells@[k1]) is Some && #[trigger] sp_gen_ticket(
                    self.cells@[k2],
                ) is Some implies sp_gen_ticket(self.cells@[k1]) != sp_gen_ticket(
                self.cells@[k2],
            ) by {
                let old_cells = old(self).spec_cells();
                if k1 != idx as int && k2 != idx as int {
                    assert(sp_gen_ticket(old_cells[k1]) == sp_gen_ticket(self.cells@[k1]));
                    assert(sp_gen_ticket(old_cells[k2]) == sp_gen_ticket(self.cells@[k2]));
                }
            }
        }
    }

    /// Whether the camera has moved far enough across its chunk that
    /// look-ahead generation should run.
    fn lookahead_triggered(&self) -> (b: bool)
        requires
            self.wf(),
        ensures
            b == (sp_lookahead(
                self.spec_camera().0 as int,
                self.spec_center().0 as int,
                self.spec_config().chunk_size as int,
                self.spec_config().lookahead_div as int,
            ) || sp_lookahead(
                self.spec_camera().1 as int,
                self.spec_center().1 as int,
                self.spec_config().chunk_size as int,
                self.spec_config().lookahead_div as int,
            )),
    {
        let s = self.config.chunk_size;
        let div = self.config.lookahead_div;
        proof {
            assert(-WANDER_MAX * CHUNK_SIZE_MAX <= self.spec_center().0 as int * (s as int)
                <= WANDER_MAX * CHUNK_SIZE_MAX && -WANDER_MAX * CHUNK_SIZE_MAX
                <= self.spec_center().1 as int * (s as int) <= WANDER_MAX * CHUNK_SIZE_MAX)
                by (nonlinear_arith)
                requires
                    -WANDER_MAX <= self.spec_center().0 as int <= WANDER_MAX,
                    -WANDER_MAX <= self.spec_center().1 as int <= WANDER_MAX,
                    1 <= s as int <= CHUNK_SIZE_MAX,
            ;
        }
        let rx = self.cx - self.wci * s;
        let rz = self.cz - self.wcj * s;
        let tx = 2 * rx - s;
        let tz = 2 * rz - s;
        let ax = if tx < 0 {
            -tx
        } else {
            tx
        };
        let az = if tz < 0 {
            -tz
        } else {
            tz
        };
        proof {
            assert(ax * div <= 0x40_0000_0000 * 1024 && az * div <= 0x40_0000_0000 * 1024)
                by (nonlinear_arith)
                requires
                    0 <= ax <= 0x40_0000_0000,
                    0 <= az <= 0x40_0000_0000,
                    1 <= div <= 1024,
            ;
        }
        ax * div >= 2 * s || az * div >= 2 * s
    }

    /// Walk the priority order and spawn generation for every `Empty`
    /// cell, closest cells first.
    fn spawn_ahead(&mut self, ex: &Executor)
        requires
            old(self).wf(),
        ensures
            final (self).wf(),
            sp_spawn_evolves(
                old(self).spec_cells(),
                final (self).spec_cells(),
                old(self).spec_next_ticket(),
            ),
            final (self).spec_next_ticket() >= old(self).spec_next_ticket(),
            final (self).spec_config() == old(self).spec_config(),
            final (self).spec_params() == old(self).spec_params(),
            final (self).spec_center() == old(self).spec_center(),
            final (self).spec_camera() == old(self).spec_camera(),
            final (self).spec_order() == old(self).spec_order(),
            old(self).spec_next_ticket() as int + old(self).spec_order().len() <= u64::MAX as int
                ==> forall|k: int|
                0 <= k < final (self).spec_cells().len() ==> !((#[trigger] final (
                self).spec_cells()[k]) is Empty),
    {
        let n = self.ordered_cells.len();
        proof {
            lemma_priority_sorted(self.radius());
        }
        let mut t: usize = 0;
        while t < n
            invariant
                self.wf(),
                n == self.spec_order().len(),
                0 <= t <= n,
                sp_spawn_evolves(
                    old(self).spec_cells(),
                    self.spec_cells(),
                    old(self).spec_next_ticket(),
                ),
                self.spec_next_ticket() >= old(self).spec_next_ticket(),
                self.spec_next_ticket() as int <= old(self).spec_next_ticket() as int + t,
                self.spec_config() == old(self).spec_config(),
                self.spec_params() == old(self).spec_params(),
                self.spec_center() == old(self).spec_center(),
                self.spec_camera() == old(self).spec_camera(),
                self.spec_order() == old(self).spec_order(),
                old(self).spec_next_ticket() as int + old(self).spec_order().len() <= u64::MAX
                    as int ==> forall|m: int|
                    0 <= m < t ==> !(self.spec_cells()[sp_idx(
                        self.radius(),
                        (#[trigger] self.spec_order()[m]).0 as int,
                        self.spec_order()[m].1 as int,
                    )] is Empty),
            decreases n - t,
        {
            let ghost head_cells = self.spec_cells();
            let ghost head_next = self.spec_next_ticket();
            proof {
                lemma_priority_sorted(self.radius());
            }
            let key = self.ordered_cells[t];
            proof {
                assert(sp_in_window(self.radius(), key.0 as int, key.1 as int));
                lemma_idx_bijective(self.radius(), key.0 as int, key.1 as int);
            }
            let idx = tii(&key, self.config.window_radius);
            let is_empty = match &self.cells[idx] {
                CellState::Empty => true,
                _ => false,
            };
            if is_empty && self.next_ticket < u64::MAX {
                let ghost pre = self.spec_cells();
                let ghost pre_next = self.spec_next_ticket();
                self.spawn_cell(ex, key.0, key.1);
                proof {
                    assert forall|k: int| 0 <= k < old(self).spec_cells().len() implies match
                        #[trigger] old(self).spec_cells()[k] {
                        CellState::Empty => self.spec_cells()[k] == old(self).spec_cells()[k] || (
                        sp_gen_ticket(self.spec_cells()[k]) matches Option::Some(tk) && tk >= old(
                            self,
                        ).spec_next_ticket()),
                        _ => self.spec_cells()[k] == old(self).spec_cells()[k],
                    } by {
                        if k == idx as int {
                            assert(pre[k] is Empty);
                            assert(match old(self).spec_cells()[k] {
                                CellState::Empty => true,
                                _ => pre[k] == old(self).spec_cells()[k],
                            });
                            assert(old(self).spec_cells()[k] is Empty);
                            assert(self.spec_cells()[k] == (CellState::Generating {
                                ticket: pre_next,
                            }));
                            assert(sp_gen_ticket(self.spec_cells()[k]) == Option::Some(pre_next));
                            assert(pre_next >= old(self).spec_next_ticket());
                        } else {
                            assert(self.spec_cells()[k] == pre[k]);
                        }
                    }
                }
            }
            t = t + 1;
            proof {
                if old(self).spec_next_ticket() as int + old(self).spec_order().len() <= u64::MAX
                    as int {
                    let r = self.radius();
                    assert forall|m: int| 0 <= m < t implies !(self.spec_cells()[sp_idx(
                        r,
                        (#[trigger] self.spec_order()[m]).0 as int,
                        self.spec_order()[m].1 as int,
                    )] is Empty) by {
                        let km = sp_idx(r, self.spec_order()[m].0 as int, self.spec_order()[m].1 as int);
                        lemma_idx_bijective(r, self.spec_order()[m].0 as int, self.spec_order()[m].1 as int);
                        if m == t - 1 {
                            if self.spec_cells() == head_cells {
                                assert(!(head_cells[idx as int] is Empty));
                            } else {
                                assert(self.spec_cells()[idx as int] == (CellState::Generating {
                                    ticket: head_next,
                                }));
                            }
                        } else {
                            assert(!(head_cells[km] is Empty));
                            if km == idx as int {
                                if self.spec_cells() != head_cells {
                                    assert(self.spec_cells()[km] == (CellState::Generating {
                                        ticket: head_next,
                                    }));
                                }
                            } else {
                                assert(self.spec_cells()[km] == head_cells[km]);
                            }
                        }
                    }
                }
            }
        }
        proof {
            if old(self).spec_next_ticket() as int + old(self).spec_order().len() <= u64::MAX
                as int {
                let r = self.radius();
                assert forall|k: int| 0 <= k < self.spec_cells().len() implies !(
                #[trigger] self.spec_cells()[k] is Empty) by {
                    lemma_key_of_idx(r, k);
                    let (a, b) = sp_key_of(r, k);
                    lemma_priority_complete(r, a, b);
                    let m = choose|m: int|
                        0 <= m < self.spec_order().len() && self.spec_order()[m] == (
                        a as i64,
                        b as i64,
                        );
                    assert(!(self.spec_cells()[sp_idx(
                        r,
                        self.spec_order()[m].0 as int,
                        self.spec_order()[m].1 as int,
                    )] is Empty));
                }
            }
        }
    }

    /// Make the center cell `Ready` before returning, whatever its state:
    /// an already-built center is left alone; an in-flight build is
    /// waited for (committing every result that arrives meanwhile); and
    /// if need be the center chunk is built synchronously, right here.
    fn ensure_center_ready(&mut self)
        requires
            old(self).wf(),
        ensures
            final (self).wf(),
            final (self).center_ready(),
            forall|k: int|
                0 <= k < old(self).spec_cells().len() && old(self).spec_cells()[k] is Ready
                    ==> final (self).spec_cells()[k] == #[trigger] old(self).spec_cells()[k],
            forall|k: int|
                0 <= k < old(self).spec_cells().len() && k != sp_idx(old(self).radius(), 0, 0)
                    ==> sp_cell_evolves(
                    #[trigger] old(self).spec_cells()[k],
                    final (self).spec_cells()[k],
                ),
            final (self).spec_cells().len() == old(self).spec_cells().len(),
            final (self).spec_config() == old(self).spec_config(),
            final (self).spec_params() == old(self).spec_params(),
            final (self).spec_center() == old(self).spec_center(),
            final (self).spec_camera() == old(self).spec_camera(),
            final (self).spec_order() == old(self).spec_order(),
            final (self).spec_next_ticket() == old(self).spec_next_ticket(),
    {
        proof {
            lemma_idx_bijective(self.radius(), 0, 0);
        }
        let cidx = giiu(0, 0, self.config.window_radius);
        let ready0 = match &self.cells[cidx] {
            CellState::Ready { .. } => true,
            _ => false,
        };
        if ready0 {
            return ;
        }
        let generating = match &self.cells[cidx] {
            CellState::Generating { .. } => true,
            _ => false,
        };
        if generating {
            let mut fuel: usize = 0;
            let mut go = true;
            while go && fuel < 100000
                invariant
                    self.wf(),
                    cidx == sp_idx(old(self).radius(), 0, 0),
                    0 <= cidx < self.spec_cells().len(),
                    sp_evolves(old(self).spec_cells(), self.spec_cells()),
                    self.spec_config() == old(self).spec_config(),
                    self.spec_params() == old(self).spec_params(),
                    self.spec_center() == old(self).spec_center(),
                    self.spec_camera() == old(self).spec_camera(),
                    self.spec_order() == old(self).spec_order(),
                    self.spec_next_ticket() == old(self).spec_next_ticket(),
                decreases 100000 - fuel,
            {
                let ghost mid = self.spec_cells();
                match recv_result_blocking(&mut self.rx) {
                    Option::Some(m) => {
                        self.deliver_result(m);
                        proof {
                            lemma_evolves_trans(old(self).spec_cells(), mid, self.spec_cells());
                        }
                        let now_ready = match &self.cells[cidx] {
                            CellState::Ready { .. } => true,
                            _ => false,
                        };
                        if now_ready {
                            go = false;
                        }
                    },
                    Option::None => {
                        go = false;
                    },
                }
                fuel = fuel + 1;
            }
        }
        let ready1 = match &self.cells[cidx] {
            CellState::Ready { .. } => true,
            _ => false,
        };
        if !ready1 {
            let oleft = self.get_border_vec(-1, 0, EdgeSide::Right);
            let oright = self.get_border_vec(1, 0, EdgeSide::Left);
            let otop = self.get_border_vec(0, -1, EdgeSide::Bottom);
            let obottom = self.get_border_vec(0, 1, EdgeSide::Top);
            let r = execute(
                &self.params,
                self.config.chunk_size,
                self.config.resolution,
                self.wci,
                self.wcj,
                oleft,
                oright,
                otop,
                obottom,
            );
            match r {
                Result::Ok(model) => {
                    self.cells.set(cidx, CellState::Ready { chunk: model });
                },
                Result::Err(_) => {
                    proof {
                        assert(false);
                    }
                },
            }
        }
    }
}

/// Whether the camera stands more than a `1/div` fraction of the chunk
/// size away from the center of the window's center chunk.
pub open spec fn sp_lookahead(cam: int, wc: int, s: int, div: int) -> bool {
    sp_abs(2 * (cam - wc * s) - s) * div >= 2 * s
}

/// The position of array coordinate `v` in a shift traversal that runs
/// backwards when the shift is negative.
pub open spec fn sp_pos(n: int, neg: bool, v: int) -> int {
    if neg {
        n - 1 - v
    } else {
        v
    }
}

/// Whether array coordinates `(x, z)` have already been visited when the
/// traversal stands at outer position `zo`, inner position `xo`.
pub open spec fn sp_done(n: int, di: int, dj: int, zo: int, xo: int, x: int, z: int) -> bool {
    let pz = sp_pos(n, dj < 0, z);
    let px = sp_pos(n, di < 0, x);
    pz < zo || (pz == zo && px < xo)
}

/// Whether the source slot of destination `(x, z)` lies inside the array.
pub open spec fn sp_src_in(n: int, di: int, dj: int, x: int, z: int) -> bool {
    0 <= x + di < n && 0 <= z + dj < n
}

/// The flat index of the source slot of destination flat index `f`.
pub open spec fn sp_src_flat(n: int, di: int, dj: int, f: int) -> int {
    (f / n + dj) * n + (f % n + di)
}

/// What a shift by `(di, dj)` must leave in destination `(x, z)`: the old
/// content of `(x + di, z + dj)`, or `Empty` where that source lies
/// outside the window.
pub open spec fn sp_desired(o: Seq<CellState>, n: int, di: int, dj: int, x: int, z: int)
    -> CellState {
    if sp_src_in(n, di, dj, x, z) {
        o[(z + dj) * n + (x + di)]
    } else {
        CellState::Empty
    }
}

impl Sky {
    /// Re-center: shift the window contents in place by `(di, dj)` (the
    /// chunk offset the camera has crossed), traversing away from the
    /// shift direction so no slot is overwritten before it was read, and
    /// evicting every slot whose source falls outside the window. A cell
    /// with a build in flight moves with its ticket (its world chunk is
    /// unchanged); an evicted cell's ticket is dropped, so a build still
    /// in flight for it will be discarded on delivery.
    fn shift_window(&mut self, di: i64, dj: i64)
        requires
            old(self).wf(),
            !(di == 0 && dj == 0),
            -2 * WANDER_MAX <= di <= 2 * WANDER_MAX,
            -2 * WANDER_MAX <= dj <= 2 * WANDER_MAX,
            -WANDER_MAX <= old(self).spec_center().0 + di <= WANDER_MAX,
            -WANDER_MAX <= old(self).spec_center().1 + dj <= WANDER_MAX,
        ensures
            final (self).wf(),
            final (self).spec_center() == (
                (old(self).spec_center().0 + di) as i64,
                (old(self).spec_center().1 + dj) as i64,
            ),
            final (self).spec_config() == old(self).spec_config(),
            final (self).spec_params() == old(self).spec_params(),
            final (self).spec_camera() == old(self).spec_camera(),
            final (self).spec_order() == old(self).spec_order(),
            final (self).spec_next_ticket() == old(self).spec_next_ticket(),
            forall|i: int, j: int|
                sp_in_window(old(self).radius(), i, j) ==> #[trigger] final (self).cell_at(i, j)
                    == (if sp_in_window(old(self).radius(), i + di, j + dj) {
                    old(self).cell_at(i + di, j + dj)
                } else {
                    CellState::Empty
                }),
    {
        let radius = self.config.window_radius;
        let n: usize = 2 * radius + 1;
        let ghost nn = n as int;
        let ghost o = self.cells@;
        let ghost dii = di as int;
        let ghost djj = dj as int;
        proof {
            assert(o.len() == nn * nn);
            lemma_all_done(nn, dii, djj, 0, true);
        }
        let mut zo: usize = 0;
        while zo < n
            invariant
                n == 2 * old(self).spec_config().window_radius + 1,
                n <= 2 * RADIUS_MAX + 1,
                nn == n as int,
                dii == di as int,
                djj == dj as int,
                !(di == 0 && dj == 0),
                -2 * WANDER_MAX <= di <= 2 * WANDER_MAX,
                -2 * WANDER_MAX <= dj <= 2 * WANDER_MAX,
                0 <= zo <= n,
                self.cells@.len() == nn * nn,
                o.len() == nn * nn,
                o == old(self).spec_cells(),
                self.spec_config() == old(self).spec_config(),
                self.spec_params() == old(self).spec_params(),
                self.spec_camera() == old(self).spec_camera(),
                self.spec_center() == old(self).spec_center(),
                self.spec_order() == old(self).spec_order(),
                self.spec_next_ticket() == old(self).spec_next_ticket(),
                forall|f: int|
                    0 <= f < nn * nn && sp_done(nn, dii, djj, zo as int, 0, f % nn, f / nn)
                        ==> #[trigger] self.cells@[f] == sp_desired(
                        o,
                        nn,
                        dii,
                        djj,
                        f % nn,
                        f / nn,
                    ),
                forall|f: int|
                    0 <= f < nn * nn && !sp_done(nn, dii, djj, zo as int, 0, f % nn, f / nn)
                        && sp_src_in(nn, dii, djj, f % nn, f / nn) ==> self.cells@[#[trigger] sp_src_flat(
                        nn,
                        dii,
                        djj,
                        f,
                    )] == o[sp_src_flat(nn, dii, djj, f)],
            decreases n - zo,
        {
            let zt: usize = if dj < 0 {
                n - 1 - zo
            } else {
                zo
            };
            let mut xo: usize = 0;
            while xo < n
                invariant
                    n == 2 * old(self).spec_config().window_radius + 1,
                    n <= 2 * RADIUS_MAX + 1,
                    nn == n as int,
                    dii == di as int,
                    djj == dj as int,
                    !(di == 0 && dj == 0),
                    -2 * WANDER_MAX <= di <= 2 * WANDER_MAX,
                    -2 * WANDER_MAX <= dj <= 2 * WANDER_MAX,
                    0 <= zo < n,
                    0 <= xo <= n,
                    0 <= (zt as int) < nn,
                    sp_pos(nn, djj < 0, zt as int) == zo as int,
                    self.cells@.len() == nn * nn,
                    o.len() == nn * nn,
                    o == old(self).spec_cells(),
                    self.spec_config() == old(self).spec_config(),
                    self.spec_params() == old(self).spec_params(),
                    self.spec_camera() == old(self).spec_camera(),
                    self.spec_center() == old(self).spec_center(),
                    self.spec_order() == old(self).spec_order(),
                    self.spec_next_ticket() == old(self).spec_next_ticket(),
                    forall|f: int|
                        0 <= f < nn * nn && sp_done(
                            nn,
                            dii,
                            djj,
                            zo as int,
                            xo as int,
                            f % nn,
                            f / nn,
                        ) ==> #[trigger] self.cells@[f] == sp_desired(
                            o,
                            nn,
                            dii,
                            djj,
                            f % nn,
                            f / nn,
                        ),
                    forall|f: int|
                        0 <= f < nn * nn && !sp_done(
                            nn,
                            dii,
                            djj,
                            zo as int,
                            xo as int,
                            f % nn,
                            f / nn,
                        ) && sp_src_in(nn, dii, djj, f % nn, f / nn)
                            ==> self.cells@[#[trigger] sp_src_flat(nn, dii, djj, f)] == o[sp_src_flat(
                            nn,
                            dii,
                            djj,
                            f,
                        )],
                decreases n - xo,
            {
                let xt: usize = if di < 0 {
                    n - 1 - xo
                } else {
                    xo
                };
                proof {
                    assert(sp_pos(nn, dii < 0, xt as int) == xo as int);
                    assert((zt as int) * nn + (xt as int) < nn * nn && nn * nn <= 0x4000)
                        by (nonlinear_arith)
                        requires
                            0 <= (zt as int) < nn,
                            0 <= (xt as int) < nn,
                            nn <= 2 * RADIUS_MAX as int + 1,
                    ;
                    vstd::arithmetic::div_mod::lemma_fundamental_div_mod_converse(
                        (zt as int) * nn + (xt as int),
                        nn,
                        zt as int,
                        xt as int,
                    );
                }
                let d: usize = zt * n + xt;
                let ghost df = d as int;
                let ghost cur = self.cells@;
                let xs: i64 = xt as i64 + di;
                let zs: i64 = zt as i64 + dj;
                let in_x = 0 <= xs && xs < n as i64;
                let in_z = 0 <= zs && zs < n as i64;
                if in_x && in_z {
                    proof {
                        assert(0 <= (zs as int) * nn + (xs as int) < nn * nn) by (nonlinear_arith)
                            requires
                                0 <= (zs as int) < nn,
                                0 <= (xs as int) < nn,
                                1 <= nn,
                        ;
                        vstd::arithmetic::div_mod::lemma_fundamental_div_mod_converse(
                            (zs as int) * nn + (xs as int),
                            nn,
                            zs as int,
                            xs as int,
                        );
                        assert(sp_src_flat(nn, dii, djj, df) == (zs as int) * nn + (xs as int));
                        assert(!sp_done(nn, dii, djj, zo as int, xo as int, df % nn, df / nn));
                        assert(self.cells@[(zs as int) * nn + (xs as int)] == o[(zs as int) * nn + (
                        xs as int)]);
                    }
                    let s: usize = (zs as usize) * n + (xs as usize);
                    let mut tmp = CellState::Empty;
                    self.cells.set_and_swap(s, &mut tmp);
                    self.cells.set(d, tmp);
                } else {
                    self.cells.set(d, CellState::Empty);
                }
                xo = xo + 1;
                proof {
                    lemma_shift_step(o, cur, self.cells@, nn, dii, djj, zo as int, xo as int, xt as int, zt as int);
                }
            }
            zo = zo + 1;
            proof {
                assert forall|f: int|
                    0 <= f < nn * nn && sp_done(nn, dii, djj, zo as int, 0, f % nn, f / nn)
                        implies #[trigger] self.cells@[f] == sp_desired(
                    o,
                    nn,
                    dii,
                    djj,
                    f % nn,
                    f / nn,
                ) by {
                    assert(sp_done(nn, dii, djj, zo as int - 1, nn, f % nn, f / nn));
                }
                assert forall|f: int|
                    0 <= f < nn * nn && !sp_done(nn, dii, djj, zo as int, 0, f % nn, f / nn)
                        && sp_src_in(nn, dii, djj, f % nn, f / nn)
                        implies self.cells@[#[trigger] sp_src_flat(nn, dii, djj, f)] == o[sp_src_flat(
                    nn,
                    dii,
                    djj,
                    f,
                )] by {
                    assert(!sp_done(nn, dii, djj, zo as int - 1, nn, f % nn, f / nn));
                }
            }
        }
        self.wci = self.wci + di;
        self.wcj = self.wcj + dj;
        proof {
            lemma_all_done(nn, dii, djj, nn, false);
            assert forall|f: int| 0 <= f < nn * nn implies #[trigger] self.cells@[f] == sp_desired(
                o,
                nn,
                dii,
                djj,
                f % nn,
                f / nn,
            ) by {
                assert(sp_done(nn, dii, djj, nn, 0, f % nn, f / nn));
            }
            let r = old(self).radius();
            assert forall|i: int, j: int| sp_in_window(r, i, j) implies #[trigger] self.cell_at(
                i,
                j,
            ) == (if sp_in_window(r, i + dii, j + djj) {
                old(self).cell_at(i + dii, j + djj)
            } else {
                CellState::Empty
            }) by {
                lemma_idx_bijective(r, i, j);
                let f = sp_idx(r, i, j);
                assert(f % nn == i + r && f / nn == j + r);
                assert(sp_done(nn, dii, djj, nn, 0, f % nn, f / nn));
                assert(self.cells@[f] == sp_desired(o, nn, dii, djj, i + r, j + r));
                if sp_in_window(r, i + dii, j + djj) {
                    lemma_idx_bijective(r, i + dii, j + djj);
                    assert(sp_desired(o, nn, dii, djj, i + r, j + r) == o[(j + djj + r) * nn + (i
                        + dii + r)]);
                }
            }
            assert forall|k1: int, k2: int|
                0 <= k1 < self.cells@.len() && 0 <= k2 < self.cells@.len() && k1 != k2
                    && #[trigger] sp_gen_ticket(self.cells@[k1]) is Some && #[trigger] sp_gen_ticket(
                    self.cells@[k2],
                ) is Some implies sp_gen_ticket(self.cells@[k1]) != sp_gen_ticket(
                self.cells@[k2],
            ) by {
                lemma_shift_sources(o, self.cells@, nn, dii, djj, k1, k2);
            }
            assert forall|k: int|
                0 <= k < self.cells@.len() implies (#[trigger] sp_gen_ticket(self.cells@[k])
                matches Option::Some(t) ==> t < self.next_ticket) by {
                lemma_shift_sources(o, self.cells@, nn, dii, djj, k, k);
            }
        }
    }
}

/// One traversal step of the shift preserves its two invariants: the
/// visited slots hold their shifted contents, and the source slot of
/// every unvisited destination still holds its pre-shift content.
proof fn lemma_shift_step(
    o: Seq<CellState>,
    cur: Seq<CellState>,
    now: Seq<CellState>,
    n: int,
    di: int,
    dj: int,
    zo: int,
    xo1: int,
    xt: int,
    zt: int,
)
    requires
        1 <= n <= 2 * RADIUS_MAX as int + 1,
        !(di == 0 && dj == 0),
        o.len() == n * n,
        cur.len() == n * n,
        now.len() == n * n,
        0 <= zo < n,
        1 <= xo1 <= n,
        sp_pos(n, dj < 0, zt) == zo,
        sp_pos(n, di < 0, xt) == xo1 - 1,
        0 <= zt < n,
        0 <= xt < n,
        forall|f: int|
            0 <= f < n * n && sp_done(n, di, dj, zo, xo1 - 1, f % n, f / n) ==> #[trigger] cur[f]
                == sp_desired(o, n, di, dj, f % n, f / n),
        forall|f: int|
            0 <= f < n * n && !sp_done(n, di, dj, zo, xo1 - 1, f % n, f / n) && sp_src_in(
                n,
                di,
                dj,
                f % n,
                f / n,
            ) ==> cur[#[trigger] sp_src_flat(n, di, dj, f)] == o[sp_src_flat(n, di, dj, f)],
        ({
            let d = zt * n + xt;
            if sp_src_in(n, di, dj, xt, zt) {
                let s = (zt + dj) * n + (xt + di);
                now == cur.update(s, CellState::Empty).update(d, cur[s])
            } else {
                now == cur.update(d, CellState::Empty)
            }
        }),
    ensures
        forall|f: int|
            0 <= f < n * n && sp_done(n, di, dj, zo, xo1, f % n, f / n) ==> #[trigger] now[f]
                == sp_desired(o, n, di, dj, f % n, f / n),
        forall|f: int|
            0 <= f < n * n && !sp_done(n, di, dj, zo, xo1, f % n, f / n) && sp_src_in(
                n,
                di,
                dj,
                f % n,
                f / n,
            ) ==> now[#[trigger] sp_src_flat(n, di, dj, f)] == o[sp_src_flat(n, di, dj, f)],
{
    let d = zt * n + xt;
    assert(0 <= d < n * n) by (nonlinear_arith)
        requires
            d == zt * n + xt,
            0 <= zt < n,
            0 <= xt < n,
            1 <= n,
    ;
    vstd::arithmetic::div_mod::lemma_fundamental_div_mod_converse(zt * n + xt, n, zt, xt);
    let srcin = sp_src_in(n, di, dj, xt, zt);
    let s = (zt + dj) * n + (xt + di);
    if srcin {
        assert(0 <= s < n * n) by (nonlinear_arith)
            requires
                s == (zt + dj) * n + (xt + di),
                0 <= zt + dj < n,
                0 <= xt + di < n,
                1 <= n,
        ;
        vstd::arithmetic::div_mod::lemma_fundamental_div_mod_converse(s, n, zt + dj, xt + di);
        assert(sp_src_flat(n, di, dj, d) == s);
        assert(!sp_done(n, di, dj, zo, xo1 - 1, xt, zt));
        assert(cur[s] == o[s]);
        // the source slot lies strictly after the current step
        assert(!sp_done(n, di, dj, zo, xo1, xt + di, zt + dj));
    }
    assert forall|f: int| 0 <= f < n * n && sp_done(n, di, dj, zo, xo1, f % n, f / n)
        implies #[trigger] now[f] == sp_desired(o, n, di, dj, f % n, f / n) by {
        let x = f % n;
        let z = f / n;
        vstd::arithmetic::div_mod::lemma_fundamental_div_mod(f, n);
        assert(0 <= x < n && 0 <= z < n) by {
            vstd::arithmetic::div_mod::lemma_mod_division_less_than_divisor(f, n);
            assert(0 <= z < n) by (nonlinear_arith)
                requires
                    f == n * z + x,
                    0 <= f < n * n,
                    0 <= x < n,
                    1 <= n,
            ;
        }
        if f == d {
            assert(x == xt && z == zt);
            if srcin {
                assert(now[d] == cur[s]);
                assert(now[d] == sp_desired(o, n, di, dj, xt, zt));
            } else {
                assert(now[d] == CellState::Empty);
            }
        } else if srcin && f == s {
            // the source slot is not yet done, so this case cannot arise
            assert(!sp_done(n, di, dj, zo, xo1, xt + di, zt + dj));
            assert((zt + dj) == z && (xt + di) == x) by {
                vstd::arithmetic::div_mod::lemma_fundamental_div_mod_converse(
                    s,
                    n,
                    zt + dj,
                    xt + di,
                );
            }
            assert(false);
        } else {
            assert(now[f] == cur[f]);
            assert(sp_done(n, di, dj, zo, xo1 - 1, x, z)) by {
                if !sp_done(n, di, dj, zo, xo1 - 1, x, z) {
                    // the only newly-done slot is the current destination
                    assert(sp_pos(n, dj < 0, z) == zo && sp_pos(n, di < 0, x) == xo1 - 1);
                    assert(z == zt && x == xt);
                    assert(f == d) by (nonlinear_arith)
                        requires
                            f == n * z + x,
                            d == zt * n + xt,
                            z == zt,
                            x == xt,
                    ;
                    assert(false);
                }
            }
        }
    }
    assert forall|f: int|
        0 <= f < n * n && !sp_done(n, di, dj, zo, xo1, f % n, f / n) && sp_src_in(
            n,
            di,
            dj,
            f % n,
            f / n,
        ) implies now[#[trigger] sp_src_flat(n, di, dj, f)] == o[sp_src_flat(n, di, dj, f)] by {
        let x = f % n;
        let z = f / n;
        vstd::arithmetic::div_mod::lemma_fundamental_div_mod(f, n);
        vstd::arithmetic::div_mod::lemma_mod_division_less_than_divisor(f, n);
        assert(0 <= z < n) by (nonlinear_arith)
            requires
                f == n * z + x,
                0 <= f < n * n,
                0 <= x < n,
                1 <= n,
        ;
        let sf = sp_src_flat(n, di, dj, f);
        assert(sf == (z + dj) * n + (x + di));
        assert(0 <= sf < n * n) by (nonlinear_arith)
            requires
                sf == (z + dj) * n + (x + di),
                0 <= z + dj < n,
                0 <= x + di < n,
        ;
        assert(!sp_done(n, di, dj, zo, xo1 - 1, x, z));
        assert(cur[sf] == o[sf]);
        if srcin && sf == s {
            // equal source slots come from equal destinations
            vstd::arithmetic::div_mod::lemma_fundamental_div_mod_converse(s, n, zt + dj, xt + di);
            vstd::arithmetic::div_mod::lemma_fundamental_div_mod_converse(sf, n, z + dj, x + di);
            assert(z == zt && x == xt);
            assert(sp_done(n, di, dj, zo, xo1, x, z));
            assert(false);
        }
        if sf == d {
            // that destination's own source was visited strictly earlier
            vstd::arithmetic::div_mod::lemma_fundamental_div_mod_converse(d, n, zt, xt);
            vstd::arithmetic::div_mod::lemma_fundamental_div_mod_converse(sf, n, z + dj, x + di);
            assert(z + dj == zt && x + di == xt);
            assert(sp_done(n, di, dj, zo, xo1 - 1, x, z)) by {
                if dj > 0 {
                    assert(sp_pos(n, dj < 0, z) == zt - dj && sp_pos(n, dj < 0, zt) == zo);
                } else if dj < 0 {
                    assert(sp_pos(n, dj < 0, z) == n - 1 - (zt - dj));
                } else {
                    assert(z == zt);
                    if di > 0 {
                        assert(sp_pos(n, di < 0, x) == xt - di);
                    } else {
                        assert(sp_pos(n, di < 0, x) == n - 1 - (xt - di));
                    }
                }
            }
            assert(false);
        }
        assert(now[sf] == cur[sf]);
    }
}

/// The chunks `get_current` hands out: walking the priority order
/// (closest cells first), every `Ready` cell whose key lies strictly
/// within the visibility radius contributes its chunk.
pub open spec fn sp_visible(
    cells: Seq<CellState>,
    order: Seq<(i64, i64)>,
    radius: int,
    vis: int,
    t: int,
) -> Seq<TerrainModel>
    decreases t,
{
    if t <= 0 {
        Seq::empty()
    } else {
        let prev = sp_visible(cells, order, radius, vis, t - 1);
        let key = order[t - 1];
        if sp_manh(key) < vis {
            match cells[sp_idx(radius, key.0 as int, key.1 as int)] {
                CellState::Ready { chunk } => prev + seq![chunk],
                _ => prev,
            }
        } else {
            prev
        }
    }
}

impl Sky {
    /// Every `Ready` chunk within the visibility radius (a Manhattan
    /// cutoff), in priority order: the cache pre-fetches further than the
    /// renderer draws.
    pub fn get_current(&self) -> (r: Vec<&TerrainModel>)
        requires
            self.wf(),
        ensures
            r@.map_values(|c: &TerrainModel| *c) == sp_visible(
                self.spec_cells(),
                self.spec_order(),
                self.radius(),
                self.spec_config().visibility_radius as int,
                self.spec_order().len() as int,
            ),
    {
        let mut res: Vec<&TerrainModel> = Vec::new();
        let n = self.ordered_cells.len();
        proof {
            lemma_priority_sorted(self.radius());
        }
        let mut t: usize = 0;
        while t < n
            invariant
                self.wf(),
                n == self.spec_order().len(),
                0 <= t <= n,
                forall|k: int|
                    0 <= k < self.spec_order().len() ==> sp_in_window(
                        self.radius(),
                        (#[trigger] self.spec_order()[k]).0 as int,
                        self.spec_order()[k].1 as int,
                    ),
                res@.map_values(|c: &TerrainModel| *c) == sp_visible(
                    self.spec_cells(),
                    self.spec_order(),
                    self.radius(),
                    self.spec_config().visibility_radius as int,
                    t as int,
                ),
            decreases n - t,
        {
            let key = self.ordered_cells[t];
            proof {
                lemma_idx_bijective(self.radius(), key.0 as int, key.1 as int);
            }
            let ai = if key.0 < 0 {
                -key.0
            } else {
                key.0
            };
            let aj = if key.1 < 0 {
                -key.1
            } else {
                key.1
            };
            let ghost before = res@;
            if ai + aj < self.config.visibility_radius {
                let idx = tii(&key, self.config.window_radius);
                match &self.cells[idx] {
                    CellState::Ready { chunk } => {
                        res.push(chunk);
                    },
                    _ => {},
                }
            }
            t = t + 1;
            proof {
                assert(res@.map_values(|c: &TerrainModel| *c) =~= sp_visible(
                    self.spec_cells(),
                    self.spec_order(),
                    self.radius(),
                    self.spec_config().visibility_radius as int,
                    t as int,
                ));
            }
        }
        res
    }

    /// Advance the cache by one simulation step, in this order: commit
    /// results that arrived from the pool; guarantee the center cell is
    /// `Ready` (the only step that may block); spawn look-ahead
    /// generation for empty cells in priority order once the camera nears
    /// its chunk's edge; and if the camera has crossed into another
    /// chunk, re-center the window over it (restoring the center
    /// guarantee afterwards).
    pub fn tick(&mut self, ex: &Executor)
        requires
            old(self).wf(),
        ensures
            final (self).wf(),
            final (self).center_ready(),
            final (self).spec_config() == old(self).spec_config(),
            final (self).spec_params() == old(self).spec_params(),
            final (self).spec_camera() == old(self).spec_camera(),
            final (self).spec_order() == old(self).spec_order(),
            final (self).spec_center() == (
                sp_floor_div(
                    old(self).spec_camera().0 as int,
                    old(self).spec_config().chunk_size as int,
                ) as i64,
                sp_floor_div(
                    old(self).spec_camera().1 as int,
                    old(self).spec_config().chunk_size as int,
                ) as i64,
            ),
            ({
                let di = sp_floor_div(
                    old(self).spec_camera().0 as int,
                    old(self).spec_config().chunk_size as int,
                ) - old(self).spec_center().0;
                let dj = sp_floor_div(
                    old(self).spec_camera().1 as int,
                    old(self).spec_config().chunk_size as int,
                ) - old(self).spec_center().1;
                let r = old(self).radius();
                &&& forall|i: int, j: int|
                    sp_in_window(r, i, j) && sp_in_window(r, i - di, j - dj) && #[trigger] old(
                        self,
                    ).cell_at(i, j) is Ready ==> final (self).cell_at(i - di, j - dj) == old(
                        self,
                    ).cell_at(i, j)
                &&& forall|i: int, j: int|
                    #![trigger final (self).cell_at(i, j)]
                    sp_in_window(r, i, j) && !sp_in_window(r, i + di, j + dj) && (i, j) != (0int, 0int)
                        ==> final (self).cell_at(i, j) is Empty
            }),
            ({
                // look-ahead spawning: once the camera nears its chunk's
                // edge (and no re-center intervened), no cell stays idle
                let s = old(self).spec_config().chunk_size as int;
                let div = old(self).spec_config().lookahead_div as int;
                let di = sp_floor_div(old(self).spec_camera().0 as int, s) - old(
                    self,
                ).spec_center().0;
                let dj = sp_floor_div(old(self).spec_camera().1 as int, s) - old(
                    self,
                ).spec_center().1;
                ((sp_lookahead(old(self).spec_camera().0 as int, old(self).spec_center().0 as int, s, div)
                    || sp_lookahead(old(self).spec_camera().1 as int, old(self).spec_center().1 as int, s, div))
                    && di == 0 && dj == 0 && old(self).spec_next_ticket() as int + old(
                    self,
                ).spec_order().len() <= u64::MAX as int) ==> forall|k: int|
                    0 <= k < final (self).spec_cells().len() ==> !((#[trigger] final (
                    self).spec_cells()[k]) is Empty)
            }),
    {
        let ghost s0 = *self;
        self.drain_results();
        let ghost s1 = *self;
        self.ensure_center_ready();
        let ghost s2 = *self;
        if self.lookahead_triggered() {
            self.spawn_ahead(ex);
        }
        let ghost s3 = *self;
        proof {
            assert forall|k: int|
                0 <= k < s0.spec_cells().len() && #[trigger] s0.spec_cells()[k] is Ready implies
                s3.spec_cells()[k] == s0.spec_cells()[k] by {
                assert(sp_cell_evolves(s0.spec_cells()[k], s1.spec_cells()[k]));
            }
            assert(s3.cell_at(0, 0) is Ready) by {
                lemma_idx_bijective(s0.radius(), 0, 0);
                assert(match s2.spec_cells()[sp_idx(s0.radius(), 0, 0)] {
                    CellState::Empty => s3.spec_cells()[sp_idx(s0.radius(), 0, 0)]
                        == s2.spec_cells()[sp_idx(s0.radius(), 0, 0)] || (sp_gen_ticket(
                        s3.spec_cells()[sp_idx(s0.radius(), 0, 0)],
                    ) matches Option::Some(t) && t >= s2.spec_next_ticket()),
                    _ => s3.spec_cells()[sp_idx(s0.radius(), 0, 0)] == s2.spec_cells()[sp_idx(
                        s0.radius(),
                        0,
                        0,
                    )],
                });
            }
        }
        let (di, dj) = self.real_inds();
        if di != 0 || dj != 0 {
            self.shift_window(di, dj);
            let ghost s4 = *self;
            self.ensure_center_ready();
            proof {
                let r = s0.radius();
                assert forall|i: int, j: int|
                    sp_in_window(r, i, j) && sp_in_window(r, i - di, j - dj) && #[trigger] s0.cell_at(
                        i,
                        j,
                    ) is Ready implies final (self).cell_at(i - di, j - dj) == s0.cell_at(
                    i,
                    j,
                ) by {
                    lemma_idx_bijective(r, i, j);
                    lemma_idx_bijective(r, i - di, j - dj);
                    assert(s3.cell_at(i, j) == s0.cell_at(i, j));
                    assert(s4.cell_at(i - di, j - dj) == s3.cell_at(i, j));
                    assert(final (self).spec_cells()[sp_idx(r, i - di, j - dj)] == s4.spec_cells()[
                    sp_idx(r, i - di, j - dj)]);
                }
                assert forall|i: int, j: int|
                    #![trigger final (self).cell_at(i, j)]
                    sp_in_window(r, i, j) && !sp_in_window(r, i + di, j + dj) && (i, j) != (0int, 0int)
                        implies final (self).cell_at(i, j) is Empty by {
                    lemma_idx_bijective(r, i, j);
                    assert(s4.cell_at(i, j) is Empty);
                    assert(sp_cell_evolves(
                        s4.spec_cells()[sp_idx(r, i, j)],
                        final (self).spec_cells()[sp_idx(r, i, j)],
                    )) by {
                        lemma_idx_injective(r, i, j, 0, 0);
                    }
                }
            }
        } else {
            proof {
                let r = s0.radius();
                assert forall|i: int, j: int|
                    sp_in_window(r, i, j) && sp_in_window(r, i - di, j - dj) && #[trigger] s0.cell_at(
                        i,
                        j,
                    ) is Ready implies final (self).cell_at(i - di, j - dj) == s0.cell_at(
                    i,
                    j,
                ) by {
                    lemma_idx_bijective(r, i, j);
                }
            }
        }
    }
}

/// When the traversal has not started, no slot is visited; when it has
/// run to the end, every slot is.
proof fn lemma_all_done(n: int, di: int, dj: int, zo: int, none_done: bool)
    requires
        1 <= n,
        zo == (if none_done { 0int } else { n }),
    ensures
        forall|f: int|
            0 <= f < n * n ==> (#[trigger] sp_done(n, di, dj, zo, 0, f % n, f / n) <==> !none_done),
{
    assert forall|f: int| 0 <= f < n * n implies (#[trigger] sp_done(n, di, dj, zo, 0, f % n, f / n)
        <==> !none_done) by {
        let x = f % n;
        let z = f / n;
        vstd::arithmetic::div_mod::lemma_fundamental_div_mod(f, n);
        vstd::arithmetic::div_mod::lemma_mod_division_less_than_divisor(f, n);
        assert(0 <= z < n) by (nonlinear_arith)
            requires
                f == n * z + x,
                0 <= f < n * n,
                0 <= x < n,
                1 <= n,
        ;
        assert(0 <= sp_pos(n, dj < 0, z) < n);
        assert(0 <= sp_pos(n, di < 0, x) < n);
    }
}

/// After a shift, every cell either came from a distinct source slot or
/// is `Empty`; so in-flight tickets stay pairwise distinct and below the
/// allocation counter.
proof fn lemma_shift_sources(
    o: Seq<CellState>,
    now: Seq<CellState>,
    n: int,
    di: int,
    dj: int,
    k1: int,
    k2: int,
)
    requires
        1 <= n,
        o.len() == n * n,
        now.len() == n * n,
        0 <= k1 < n * n,
        0 <= k2 < n * n,
        forall|f: int|
            0 <= f < n * n ==> #[trigger] now[f] == sp_desired(o, n, di, dj, f % n, f / n),
    ensures
        sp_gen_ticket(now[k1]) is Some && sp_gen_ticket(now[k2]) is Some && k1 != k2 ==> (exists|
            s1: int,
            s2: int,
        |
            0 <= s1 < n * n && 0 <= s2 < n * n && s1 != s2 && now[k1] == o[s1] && now[k2] == o[s2]),
        sp_gen_ticket(now[k1]) is Some ==> (exists|s1: int|
            0 <= s1 < n * n && now[k1] == #[trigger] o[s1]),
{
    if sp_gen_ticket(now[k1]) is Some {
        let x1 = k1 % n;
        let z1 = k1 / n;
        vstd::arithmetic::div_mod::lemma_fundamental_div_mod(k1, n);
        vstd::arithmetic::div_mod::lemma_mod_division_less_than_divisor(k1, n);
        assert(0 <= z1 < n) by (nonlinear_arith)
            requires
                k1 == n * z1 + x1,
                0 <= k1 < n * n,
                0 <= x1 < n,
                1 <= n,
        ;
        assert(sp_src_in(n, di, dj, x1, z1));
        let s1 = (z1 + dj) * n + (x1 + di);
        assert(0 <= s1 < n * n) by (nonlinear_arith)
            requires
                s1 == (z1 + dj) * n + (x1 + di),
                0 <= z1 + dj < n,
                0 <= x1 + di < n,
        ;
        assert(now[k1] == o[s1]);
        if sp_gen_ticket(now[k2]) is Some && k1 != k2 {
            let x2 = k2 % n;
            let z2 = k2 / n;
            vstd::arithmetic::div_mod::lemma_fundamental_div_mod(k2, n);
            vstd::arithmetic::div_mod::lemma_mod_division_less_than_divisor(k2, n);
            assert(0 <= z2 < n) by (nonlinear_arith)
                requires
                    k2 == n * z2 + x2,
                    0 <= k2 < n * n,
                    0 <= x2 < n,
                    1 <= n,
            ;
            assert(sp_src_in(n, di, dj, x2, z2));
            let s2 = (z2 + dj) * n + (x2 + di);
            assert(0 <= s2 < n * n) by (nonlinear_arith)
                requires
                    s2 == (z2 + dj) * n + (x2 + di),
                    0 <= z2 + dj < n,
                    0 <= x2 + di < n,
            ;
            assert(now[k2] == o[s2]);
            assert((x1, z1) != (x2, z2)) by (nonlinear_arith)
                requires
                    k1 == n * z1 + x1,
                    k2 == n * z2 + x2,
                    k1 != k2,
            ;
            assert(s1 != s2) by (nonlinear_arith)
                requires
                    s1 == (z1 + dj) * n + (x1 + di),
                    s2 == (z2 + dj) * n + (x2 + di),
                    0 <= x1 + di < n,
                    0 <= x2 + di < n,
                    (x1, z1) != (x2, z2),
            ;
        }
    }
}

} // verus!
