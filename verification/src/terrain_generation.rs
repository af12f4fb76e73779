use vstd::prelude::*;

use crate::heightfield::{spec_sample, HeightParams, COORD_LIMIT, HEIGHT_LIMIT};

verus! {

/// Largest accepted per-side vertex count of a chunk.
pub const RES_MAX: usize = 1024;

/// Largest accepted chunk side length, in fine coordinate units.
pub const CHUNK_SIZE_MAX: i64 = 0x100000;

/// Largest accepted |chunk coordinate|.
pub const CHUNK_COORD_MAX: i64 = 32768;

/// A mesh face over vertex indices: a triangle or a quadrilateral.
#[derive(Debug, Clone, Copy, PartialEq, Eq, Structural)]
pub enum Face {
    Tri(u32, u32, u32),
    Quad(u32, u32, u32, u32),
}

/// The faces that bridge two vertex rows, in order: first the face that
/// spans the whole bridge, then one face per consecutive index pair.
/// When the first row is a single vertex the bridge is a fan of triangles;
/// otherwise it is a run of quadrilaterals.
pub open spec fn sp_bridge(v1: Seq<u32>, v2: Seq<u32>) -> Seq<Face> {
    let fan = v1.len() != v2.len();
    let total = v2.len() as int;
    let closing = if fan {
        Face::Tri(v2[0], v1[0], v2[total - 1])
    } else {
        Face::Quad(v2[0], v1[0], v1[total - 1], v2[total - 1])
    };
    seq![closing] + Seq::new(
        (total - 1) as nat,
        |k: int|
            if fan {
                Face::Tri(v1[0], v2[k], v2[k + 1])
            } else {
                Face::Quad(v1[k], v2[k], v2[k + 1], v1[k + 1])
            },
    )
}

/// Bridge two vertex rows with faces, appending to `out_faces`.
/// The rows must either have the same length (at least 2), or the first
/// must be a single vertex fanned against a longer second row; any other
/// combination is a construction error that the callers rule out.
pub fn create_faces(out_faces: &mut Vec<Face>, vert_idx_1: &Vec<u32>, vert_idx_2: &Vec<u32>)
    requires
        (vert_idx_1@.len() == vert_idx_2@.len() && vert_idx_1@.len() >= 2) || (vert_idx_1@.len()
            == 1 && vert_idx_2@.len() > 1),
        old(out_faces)@.len() + vert_idx_2@.len() < 0x1000_0000,
    ensures
        final(out_faces)@ == old(out_faces)@ + sp_bridge(vert_idx_1@, vert_idx_2@),
{
    let ghost orig = out_faces@;
    let fan = vert_idx_1.len() != vert_idx_2.len();
    let total = vert_idx_2.len();
    if !fan {
        out_faces.push(
            Face::Quad(
                vert_idx_2[0],
                vert_idx_1[0],
                vert_idx_1[total - 1],
                vert_idx_2[total - 1],
            ),
        );
    } else {
        out_faces.push(Face::Tri(vert_idx_2[0], vert_idx_1[0], vert_idx_2[total - 1]));
    }
    let mut num: usize = 0;
    while num < total - 1
        invariant
            (vert_idx_1@.len() == vert_idx_2@.len() && vert_idx_1@.len() >= 2) || (
            vert_idx_1@.len() == 1 && vert_idx_2@.len() > 1),
            total == vert_idx_2@.len(),
            fan == (vert_idx_1@.len() != vert_idx_2@.len()),
            0 <= num <= total - 1,
            orig.len() + total < 0x1000_0000,
            out_faces@ == orig + sp_bridge(vert_idx_1@, vert_idx_2@).take(num + 1),
        decreases total - 1 - num,
    {
        if fan {
            out_faces.push(Face::Tri(vert_idx_1[0], vert_idx_2[num], vert_idx_2[num + 1]));
        } else {
            out_faces.push(
                Face::Quad(
                    vert_idx_1[num],
                    vert_idx_2[num],
                    vert_idx_2[num + 1],
                    vert_idx_1[num + 1],
                ),
            );
        }
        num = num + 1;
        proof {
            assert(out_faces@ =~= orig + sp_bridge(vert_idx_1@, vert_idx_2@).take(num + 1));
        }
    }
    proof {
        assert(sp_bridge(vert_idx_1@, vert_idx_2@).take(total as int) =~= sp_bridge(
            vert_idx_1@,
            vert_idx_2@,
        ));
        assert(out_faces@ =~= orig + sp_bridge(vert_idx_1@, vert_idx_2@));
    }
}

/// The vertex indices of grid row `ix`: `res` consecutive indices starting
/// at `ix * res`.
pub open spec fn sp_row(res: int, ix: int) -> Seq<u32> {
    Seq::new(res as nat, |iz: int| (ix * res + iz) as u32)
}

/// All bridge faces among the first `nrows` rows of a `res`-wide grid.
pub open spec fn sp_faces_upto(res: int, nrows: int) -> Seq<Face>
    decreases nrows,
{
    if nrows <= 1 {
        Seq::empty()
    } else {
        sp_faces_upto(res, nrows - 1) + sp_bridge(sp_row(res, nrows - 2), sp_row(res, nrows - 1))
    }
}

/// The full face list of a `res` x `res` grid.
pub open spec fn sp_faces(res: int) -> Seq<Face> {
    sp_faces_upto(res, res)
}

/// Build the vertex-index vector of grid row `ix`.
fn row_indices(res: usize, ix: usize) -> (v: Vec<u32>)
    requires
        2 <= res <= RES_MAX,
        ix < res,
    ensures
        v@ == sp_row(res as int, ix as int),
{
    let mut v: Vec<u32> = Vec::new();
    proof {
        assert(ix * res + res <= RES_MAX * RES_MAX) by (nonlinear_arith)
            requires
                ix < res <= RES_MAX,
        ;
    }
    let base = ix * res;
    let mut iz: usize = 0;
    while iz < res
        invariant
            2 <= res <= RES_MAX,
            ix < res,
            base == ix * res,
            base + res <= RES_MAX * RES_MAX,
            0 <= iz <= res,
            v@.len() == iz,
            forall|k: int| 0 <= k < iz ==> v@[k] == sp_row(res as int, ix as int)[k],
        decreases res - iz,
    {
        v.push((base + iz) as u32);
        iz = iz + 1;
    }
    proof {
        assert(v@ =~= sp_row(res as int, ix as int));
    }
    v
}

/// Triangulate the row-by-row bridged grid: every pair of consecutive rows
/// is bridged with `create_faces`.
pub fn build_faces(res: usize) -> (faces: Vec<Face>)
    requires
        2 <= res <= RES_MAX,
    ensures
        faces@ == sp_faces(res as int),
{
    let mut faces: Vec<Face> = Vec::new();
    let mut prev = row_indices(res, 0);
    let mut ix: usize = 1;
    while ix < res
        invariant
            2 <= res <= RES_MAX,
            1 <= ix <= res,
            prev@ == sp_row(res as int, ix - 1),
            faces@ == sp_faces_upto(res as int, ix as int),
        decreases res - ix,
    {
        let cur = row_indices(res, ix);
        proof {
            lemma_faces_upto_len(res as int, ix as int);
            assert((ix - 1) * res + res < 0x1000_0000) by (nonlinear_arith)
                requires
                    1 <= ix <= res <= RES_MAX,
            ;
        }
        create_faces(&mut faces, &prev, &cur);
        prev = cur;
        ix = ix + 1;
    }
    faces
}

/// Each grid bridge adds `res` faces, so the face list of the first
/// `nrows` rows holds `(nrows - 1) * res` faces.
pub proof fn lemma_faces_upto_len(res: int, nrows: int)
    requires
        2 <= res,
        1 <= nrows,
    ensures
        sp_faces_upto(res, nrows).len() == (nrows - 1) * res,
    decreases nrows,
{
    if nrows == 1 {
        assert((nrows - 1) * res == 0) by (nonlinear_arith)
            requires
                nrows == 1,
        ;
    } else {
        lemma_faces_upto_len(res, nrows - 1);
        assert(sp_bridge(sp_row(res, nrows - 2), sp_row(res, nrows - 1)).len() == res);
        assert((nrows - 2) * res + res == (nrows - 1) * res) by (nonlinear_arith);
    }
}

/// The view of an optional borrowed edge-height vector.
pub open spec fn sp_opt_view(o: Option<&Vec<i64>>) -> Option<Seq<i64>> {
    match o {
        Option::Some(v) => Option::Some(v@),
        Option::None => Option::None,
    }
}

/// Everything one chunk build depends on: heightfield parameters, chunk
/// geometry, and the optional edge heights of already-built neighbors.
pub ghost struct GridInput {
    pub p: HeightParams,
    pub size: i64,
    pub res: int,
    pub ci: i64,
    pub cj: i64,
    pub oleft: Option<Seq<i64>>,
    pub oright: Option<Seq<i64>>,
    pub otop: Option<Seq<i64>>,
    pub obottom: Option<Seq<i64>>,
}

/// A supplied edge must have one value per boundary vertex, each a height
/// the clamping could have produced.
pub open spec fn sp_edge_ok(e: Option<Seq<i64>>, res: int) -> bool {
    match e {
        Option::Some(s) => s.len() == res && forall|k: int|
            0 <= k < s.len() ==> -HEIGHT_LIMIT <= #[trigger] s[k] < HEIGHT_LIMIT,
        Option::None => true,
    }
}

impl GridInput {
    /// Admissible build inputs.
    pub open spec fn wf(self) -> bool {
        &&& self.p.wf()
        &&& 2 <= self.res <= RES_MAX
        &&& 1 <= self.size <= CHUNK_SIZE_MAX
        &&& -CHUNK_COORD_MAX <= self.ci <= CHUNK_COORD_MAX
        &&& -CHUNK_COORD_MAX <= self.cj <= CHUNK_COORD_MAX
        &&& sp_edge_ok(self.oleft, self.res)
        &&& sp_edge_ok(self.oright, self.res)
        &&& sp_edge_ok(self.otop, self.res)
        &&& sp_edge_ok(self.obottom, self.res)
    }

    /// The fine sampling coordinate of grid step `k` along chunk coordinate
    /// `c`: chunks are `size` world units wide and a grid step advances by
    /// `size / (res - 1)` world units, so in units of `1 / (res - 1)` both
    /// are exact integers and adjacent chunks sample boundary points at
    /// bit-identical coordinates.
    pub open spec fn fine(self, c: i64, k: int) -> int {
        c * self.size * (self.res - 1) + k * self.size
    }

    /// The height of grid vertex `(ix, iz)` before the top/bottom neighbor
    /// overrides: a left or right neighbor's edge wins over sampling.
    pub open spec fn base_h(self, ix: int, iz: int) -> int {
        if self.oleft is Some && ix == 0 {
            self.oleft->0[iz] as int
        } else if self.oright is Some && ix == self.res - 1 {
            self.oright->0[iz] as int
        } else {
            spec_sample(self.p, self.fine(self.ci, ix) as i64, self.fine(self.cj, iz) as i64)
        }
    }

    /// The final height of grid vertex `(ix, iz)`: a top or bottom
    /// neighbor's edge wins over everything else.
    pub open spec fn height(self, ix: int, iz: int) -> int {
        if self.otop is Some && iz == 0 {
            self.otop->0[ix] as int
        } else if self.obottom is Some && iz == self.res - 1 {
            self.obottom->0[ix] as int
        } else {
            self.base_h(ix, iz)
        }
    }
}

/// Every height the grid can hold is one the clamp (or a well-formed
/// neighbor edge) could produce.
pub proof fn lemma_height_in_range(gi: GridInput, ix: int, iz: int)
    requires
        gi.wf(),
        0 <= ix < gi.res,
        0 <= iz < gi.res,
    ensures
        -HEIGHT_LIMIT <= gi.height(ix, iz) < HEIGHT_LIMIT,
        -HEIGHT_LIMIT <= gi.base_h(ix, iz) < HEIGHT_LIMIT,
{
}

/// The fine coordinates of every admissible grid vertex stay within the
/// sampler's coordinate limit.
pub proof fn lemma_fine_in_range(gi: GridInput, c: i64, k: int)
    requires
        gi.wf(),
        -CHUNK_COORD_MAX <= c <= CHUNK_COORD_MAX,
        0 <= k < gi.res,
    ensures
        -COORD_LIMIT <= gi.fine(c, k) <= COORD_LIMIT,
{
    assert(-0x2000_0000_0000 <= c * gi.size * (gi.res - 1) <= 0x2000_0000_0000)
        by (nonlinear_arith)
        requires
            -CHUNK_COORD_MAX <= c <= CHUNK_COORD_MAX,
            1 <= gi.size <= CHUNK_SIZE_MAX,
            2 <= gi.res <= RES_MAX,
    ;
    assert(0 <= k * gi.size <= 0x4000_0000) by (nonlinear_arith)
        requires
            1 <= gi.size <= CHUNK_SIZE_MAX,
            0 <= k < gi.res <= RES_MAX,
    ;
}

/// Sample the full height grid of one chunk, overriding boundary vertices
/// with the neighbor edges that were supplied, and extract the four edge
/// vectors for future neighbors.
fn sample_grid(
    p: &HeightParams,
    size: i64,
    res: usize,
    ci: i64,
    cj: i64,
    oleft: Option<&Vec<i64>>,
    oright: Option<&Vec<i64>>,
    otop: Option<&Vec<i64>>,
    obottom: Option<&Vec<i64>>,
) -> (r: (Vec<i64>, Vec<i64>, Vec<i64>, Vec<i64>, Vec<i64>))
    requires
        (GridInput {
            p: *p,
            size,
            res: res as int,
            ci,
            cj,
            oleft: sp_opt_view(oleft),
            oright: sp_opt_view(oright),
            otop: sp_opt_view(otop),
            obottom: sp_opt_view(obottom),
        }).wf(),
    ensures
        ({
            let gi = GridInput {
                p: *p,
                size,
                res: res as int,
                ci,
                cj,
                oleft: sp_opt_view(oleft),
                oright: sp_opt_view(oright),
                otop: sp_opt_view(otop),
                obottom: sp_opt_view(obottom),
            };
            let (heights, left, right, top, bottom) = r;
            &&& heights@.len() == res * res
            &&& forall|k: int|
                0 <= k < heights@.len() ==> #[trigger] heights@[k] == gi.height(
                    k / (res as int),
                    k % (res as int),
                )
            &&& forall|k: int|
                0 <= k < heights@.len() ==> -HEIGHT_LIMIT <= #[trigger] heights@[k] < HEIGHT_LIMIT
            &&& left@.len() == res && forall|b: int|
                0 <= b < res ==> #[trigger] left@[b] == gi.base_h(0, b)
            &&& right@.len() == res && forall|b: int|
                0 <= b < res ==> #[trigger] right@[b] == gi.base_h(res - 1, b)
            &&& top@.len() == res && forall|a: int|
                0 <= a < res ==> #[trigger] top@[a] == gi.height(a, 0)
            &&& bottom@.len() == res && forall|a: int|
                0 <= a < res ==> #[trigger] bottom@[a] == gi.height(a, res - 1)
        }),
{
    let ghost gi = GridInput {
        p: *p,
        size,
        res: res as int,
        ci,
        cj,
        oleft: sp_opt_view(oleft),
        oright: sp_opt_view(oright),
        otop: sp_opt_view(otop),
        obottom: sp_opt_view(obottom),
    };
    let mut heights: Vec<i64> = Vec::new();
    let mut left: Vec<i64> = Vec::new();
    let mut right: Vec<i64> = Vec::new();
    let mut top: Vec<i64> = Vec::new();
    let mut bottom: Vec<i64> = Vec::new();
    let resl = res as i64;
    let mut ix: usize = 0;
    while ix < res
        invariant
            gi == (GridInput {
                p: *p,
                size,
                res: res as int,
                ci,
                cj,
                oleft: sp_opt_view(oleft),
                oright: sp_opt_view(oright),
                otop: sp_opt_view(otop),
                obottom: sp_opt_view(obottom),
            }),
            gi.wf(),
            resl == res as i64,
            0 <= ix <= res,
            heights@.len() == ix * res,
            forall|k: int|
                0 <= k < heights@.len() ==> #[trigger] heights@[k] == gi.height(
                    k / (res as int),
                    k % (res as int),
                ),
            forall|k: int|
                0 <= k < heights@.len() ==> -HEIGHT_LIMIT <= #[trigger] heights@[k] < HEIGHT_LIMIT,
            left@.len() == (if ix == 0 {
                0int
            } else {
                res as int
            }),
            forall|b: int| 0 <= b < left@.len() ==> #[trigger] left@[b] == gi.base_h(0, b),
            right@.len() == (if ix == res {
                res as int
            } else {
                0int
            }),
            forall|b: int|
                0 <= b < right@.len() ==> #[trigger] right@[b] == gi.base_h(res - 1, b),
            top@.len() == ix,
            forall|a: int| 0 <= a < top@.len() ==> #[trigger] top@[a] == gi.height(a, 0),
            bottom@.len() == ix,
            forall|a: int|
                0 <= a < bottom@.len() ==> #[trigger] bottom@[a] == gi.height(a, res - 1),
        decreases res - ix,
    {
        let mut iz: usize = 0;
        proof {
            assert(ix * res + res <= res * res && (ix + 1) * res == ix * res + res)
                by (nonlinear_arith)
                requires
                    0 <= ix < res,
            ;
            assert(res * res <= RES_MAX * RES_MAX) by (nonlinear_arith)
                requires
                    0 < res <= RES_MAX,
            ;
        }
        while iz < res
            invariant
                gi == (GridInput {
                    p: *p,
                    size,
                    res: res as int,
                    ci,
                    cj,
                    oleft: sp_opt_view(oleft),
                    oright: sp_opt_view(oright),
                    otop: sp_opt_view(otop),
                    obottom: sp_opt_view(obottom),
                }),
                gi.wf(),
                resl == res as i64,
                0 <= ix < res,
                0 <= iz <= res,
                ix * res + res <= res * res <= RES_MAX * RES_MAX,
                heights@.len() == ix * res + iz,
                forall|k: int|
                    0 <= k < heights@.len() ==> #[trigger] heights@[k] == gi.height(
                        k / (res as int),
                        k % (res as int),
                    ),
                forall|k: int|
                    0 <= k < heights@.len() ==> -HEIGHT_LIMIT <= #[trigger] heights@[k]
                        < HEIGHT_LIMIT,
                left@.len() == (if ix == 0 {
                    iz as int
                } else {
                    res as int
                }),
                forall|b: int| 0 <= b < left@.len() ==> #[trigger] left@[b] == gi.base_h(0, b),
                right@.len() == (if ix == res - 1 {
                    iz as int
                } else {
                    0int
                }),
                forall|b: int|
                    0 <= b < right@.len() ==> #[trigger] right@[b] == gi.base_h(res - 1, b),
                top@.len() == (if iz == 0 {
                    ix as int
                } else {
                    ix + 1
                }),
                forall|a: int| 0 <= a < top@.len() ==> #[trigger] top@[a] == gi.height(a, 0),
                bottom@.len() == (if iz == res {
                    ix + 1
                } else {
                    ix as int
                }),
                forall|a: int|
                    0 <= a < bottom@.len() ==> #[trigger] bottom@[a] == gi.height(a, res - 1),
            decreases res - iz,
        {
            proof {
                lemma_fine_in_range(gi, ci, ix as int);
                lemma_fine_in_range(gi, cj, iz as int);
                assert(-0x8_0000_0000 <= ci * size <= 0x8_0000_0000 && -0x8_0000_0000 <= cj * size
                    <= 0x8_0000_0000) by (nonlinear_arith)
                    requires
                        -CHUNK_COORD_MAX <= ci <= CHUNK_COORD_MAX,
                        -CHUNK_COORD_MAX <= cj <= CHUNK_COORD_MAX,
                        1 <= size <= CHUNK_SIZE_MAX,
                ;
                assert(-0x2000_0000_0000 <= ci * size * (resl - 1) <= 0x2000_0000_0000
                    && -0x2000_0000_0000 <= cj * size * (resl - 1) <= 0x2000_0000_0000)
                    by (nonlinear_arith)
                    requires
                        -0x8_0000_0000 <= ci * size <= 0x8_0000_0000,
                        -0x8_0000_0000 <= cj * size <= 0x8_0000_0000,
                        1 <= resl <= RES_MAX,
                ;
                assert(0 <= (ix as i64) * size <= 0x4000_0000 && 0 <= (iz as i64) * size
                    <= 0x4000_0000) by (nonlinear_arith)
                    requires
                        0 <= ix < resl <= RES_MAX,
                        0 <= iz < resl <= RES_MAX,
                        1 <= size <= CHUNK_SIZE_MAX,
                ;
            }
            let xw: i64 = ci * size * (resl - 1) + (ix as i64) * size;
            let zw: i64 = cj * size * (resl - 1) + (iz as i64) * size;
            let mut h: i64 = crate::heightfield::sample(p, xw, zw);
            if ix == 0 {
                if let Option::Some(o) = oleft {
                    h = o[iz];
                }
                left.push(h);
            }
            if ix == res - 1 {
                if let Option::Some(o) = oright {
                    h = o[iz];
                }
                right.push(h);
            }
            if iz == 0 {
                if let Option::Some(o) = otop {
                    h = o[ix];
                }
                top.push(h);
            }
            if iz == res - 1 {
                if let Option::Some(o) = obottom {
                    h = o[ix];
                }
                bottom.push(h);
            }
            heights.push(h);
            proof {
                vstd::arithmetic::div_mod::lemma_fundamental_div_mod_converse(
                    ix * res + iz,
                    res as int,
                    ix as int,
                    iz as int,
                );
                assert(heights@[ix * res + iz] == gi.height(ix as int, iz as int));
            }
            iz = iz + 1;
        }
        ix = ix + 1;
    }
    (heights, left, right, top, bottom)
}

/// The triangle expansion of one face: a triangle stands as it is, and a
/// quadrilateral splits along its first diagonal.
pub open spec fn sp_face_tris(f: Face) -> Seq<u32> {
    match f {
        Face::Tri(a, b, c) => seq![a, b, c],
        Face::Quad(a, b, c, d) => seq![a, b, c, a, c, d],
    }
}

/// The flattened triangle index list of a face list.
pub open spec fn sp_tri(faces: Seq<Face>) -> Seq<u32>
    decreases faces.len(),
{
    if faces.len() == 0 {
        Seq::empty()
    } else {
        sp_tri(faces.drop_last()) + sp_face_tris(faces.last())
    }
}

/// Flatten a face list into a triangle index list, three indices per
/// triangle, quadrilaterals split along their first diagonal.
pub fn triangulate(faces: &Vec<Face>) -> (idx: Vec<u32>)
    requires
        faces@.len() < 0x100_0000,
    ensures
        idx@ == sp_tri(faces@),
{
    let mut idx: Vec<u32> = Vec::new();
    let n = faces.len();
    let mut t: usize = 0;
    while t < n
        invariant
            n == faces@.len(),
            n < 0x100_0000,
            0 <= t <= n,
            idx@ == sp_tri(faces@.take(t as int)),
            idx@.len() <= 6 * t,
        decreases n - t,
    {
        match faces[t] {
            Face::Tri(a, b, c) => {
                idx.push(a);
                idx.push(b);
                idx.push(c);
            },
            Face::Quad(a, b, c, d) => {
                idx.push(a);
                idx.push(b);
                idx.push(c);
                idx.push(a);
                idx.push(c);
                idx.push(d);
            },
        }
        t = t + 1;
        proof {
            assert(faces@.take(t as int).drop_last() =~= faces@.take(t - 1));
            assert(faces@.take(t as int).last() == faces@[t - 1]);
            assert(idx@ =~= sp_tri(faces@.take(t as int)));
        }
    }
    proof {
        assert(faces@.take(n as int) =~= faces@);
    }
    idx
}

/// Bound on any one component of a single face normal.
pub const CROSS_MAX: i64 = 0x2000_0000;

/// A face is over valid vertex indices when all of them lie below `bound`.
pub open spec fn sp_face_ok(f: Face, bound: int) -> bool {
    match f {
        Face::Tri(a, b, c) => a < bound && b < bound && c < bound,
        Face::Quad(a, b, c, d) => a < bound && b < bound && c < bound && d < bound,
    }
}

/// The grid-space face normal of triangle `(a, b, c)`: the cross product
/// of its two edge vectors, with vertices at `(v / res, v % res, h[v])`.
/// Per-vertex normals sum these unnormalized, so the average is weighted
/// by face area.
pub open spec fn sp_face_normal(h: Seq<i64>, res: int, a: int, b: int, c: int) -> (int, int, int) {
    let dx1 = b / res - a / res;
    let dz1 = b % res - a % res;
    let dh1 = h[b] - h[a];
    let dx2 = c / res - a / res;
    let dz2 = c % res - a % res;
    let dh2 = h[c] - h[a];
    (dz1 * dh2 - dh1 * dz2, dh1 * dx2 - dx1 * dh2, dx1 * dz2 - dz1 * dx2)
}

/// Componentwise accumulation of a face normal into a vertex normal.
pub open spec fn sp_add3(x: (i64, i64, i64), n: (int, int, int)) -> (i64, i64, i64) {
    (((x.0 + n.0) as i64), ((x.1 + n.1) as i64), ((x.2 + n.2) as i64))
}

/// Per-vertex normals after accumulating the first `t` triangles of `idx`:
/// all zero at first, and each triangle adds its face normal to the
/// normals of its three vertices in order.
pub open spec fn sp_normals_upto(h: Seq<i64>, res: int, idx: Seq<u32>, t: int) -> Seq<
    (i64, i64, i64),
>
    decreases t,
{
    if t <= 0 {
        Seq::new((res * res) as nat, |v: int| (0i64, 0i64, 0i64))
    } else {
        let prev = sp_normals_upto(h, res, idx, t - 1);
        let a = idx[3 * (t - 1)] as int;
        let b = idx[3 * (t - 1) + 1] as int;
        let c = idx[3 * (t - 1) + 2] as int;
        let n = sp_face_normal(h, res, a, b, c);
        let p1 = prev.update(a, sp_add3(prev[a], n));
        let p2 = p1.update(b, sp_add3(p1[b], n));
        p2.update(c, sp_add3(p2[c], n))
    }
}

/// The per-vertex normals of the whole triangle list.
pub open spec fn sp_normals(h: Seq<i64>, res: int, idx: Seq<u32>) -> Seq<(i64, i64, i64)> {
    sp_normals_upto(h, res, idx, idx.len() as int / 3)
}

/// Compute the face normal of triangle `(a, b, c)` in grid space.
fn face_normal(heights: &Vec<i64>, res: usize, a: usize, b: usize, c: usize) -> (n: (i64, i64, i64))
    requires
        2 <= res <= RES_MAX,
        heights@.len() == res * res,
        a < res * res,
        b < res * res,
        c < res * res,
        forall|k: int|
            0 <= k < heights@.len() ==> -HEIGHT_LIMIT <= #[trigger] heights@[k] < HEIGHT_LIMIT,
    ensures
        (n.0 as int, n.1 as int, n.2 as int) == sp_face_normal(
            heights@,
            res as int,
            a as int,
            b as int,
            c as int,
        ),
        -CROSS_MAX <= n.0 <= CROSS_MAX,
        -CROSS_MAX <= n.1 <= CROSS_MAX,
        -CROSS_MAX <= n.2 <= CROSS_MAX,
{
    proof {
        vstd::arithmetic::div_mod::lemma_multiply_divide_lt(a as int, res as int, res as int);
        vstd::arithmetic::div_mod::lemma_multiply_divide_lt(b as int, res as int, res as int);
        vstd::arithmetic::div_mod::lemma_multiply_divide_lt(c as int, res as int, res as int);
    }
    let ax = (a / res) as i64;
    let az = (a % res) as i64;
    let bx = (b / res) as i64;
    let bz = (b % res) as i64;
    let cx = (c / res) as i64;
    let cz = (c % res) as i64;
    let ha = heights[a];
    let hb = heights[b];
    let hc = heights[c];
    let dx1 = bx - ax;
    let dz1 = bz - az;
    let dh1 = hb - ha;
    let dx2 = cx - ax;
    let dz2 = cz - az;
    let dh2 = hc - ha;
    proof {
        lemma_cross_bound(dx1 as int, dz1 as int, dh1 as int, dx2 as int, dz2 as int, dh2 as int);
    }
    (dz1 * dh2 - dh1 * dz2, dh1 * dx2 - dx1 * dh2, dx1 * dz2 - dz1 * dx2)
}

/// Cross products of grid-space edge vectors stay within `CROSS_MAX`.
proof fn lemma_cross_bound(dx1: int, dz1: int, dh1: int, dx2: int, dz2: int, dh2: int)
    requires
        -0x400 <= dx1 <= 0x400,
        -0x400 <= dz1 <= 0x400,
        -0x20000 <= dh1 <= 0x20000,
        -0x400 <= dx2 <= 0x400,
        -0x400 <= dz2 <= 0x400,
        -0x20000 <= dh2 <= 0x20000,
    ensures
        -CROSS_MAX <= dz1 * dh2 - dh1 * dz2 <= CROSS_MAX,
        -CROSS_MAX <= dh1 * dx2 - dx1 * dh2 <= CROSS_MAX,
        -CROSS_MAX <= dx1 * dz2 - dz1 * dx2 <= CROSS_MAX,
        -0x800_0000 <= dz1 * dh2 <= 0x800_0000,
        -0x800_0000 <= dh1 * dz2 <= 0x800_0000,
        -0x800_0000 <= dh1 * dx2 <= 0x800_0000,
        -0x800_0000 <= dx1 * dh2 <= 0x800_0000,
        -0x10_0000 <= dx1 * dz2 <= 0x10_0000,
        -0x10_0000 <= dz1 * dx2 <= 0x10_0000,
{
    assert(-0x800_0000 <= dz1 * dh2 <= 0x800_0000 && -0x800_0000 <= dh1 * dz2 <= 0x800_0000
        && -0x800_0000 <= dh1 * dx2 <= 0x800_0000 && -0x800_0000 <= dx1 * dh2 <= 0x800_0000
        && -0x10_0000 <= dx1 * dz2 <= 0x10_0000 && -0x10_0000 <= dz1 * dx2 <= 0x10_0000)
        by (nonlinear_arith)
        requires
            -0x400 <= dx1 <= 0x400,
            -0x400 <= dz1 <= 0x400,
            -0x20000 <= dh1 <= 0x20000,
            -0x400 <= dx2 <= 0x400,
            -0x400 <= dz2 <= 0x400,
            -0x20000 <= dh2 <= 0x20000,
    ;
}

/// Accumulate per-vertex normals over the whole triangle list: each
/// vertex's normal is the (area-weighted, unnormalized) sum of the face
/// normals of the triangles that touch it.
fn compute_normals(heights: &Vec<i64>, res: usize, idx: &Vec<u32>) -> (normals: Vec<
    (i64, i64, i64),
>)
    requires
        2 <= res <= RES_MAX,
        heights@.len() == res * res,
        forall|k: int|
            0 <= k < heights@.len() ==> -HEIGHT_LIMIT <= #[trigger] heights@[k] < HEIGHT_LIMIT,
        idx@.len() % 3 == 0,
        idx@.len() <= 0x60_0000,
        forall|k: int| 0 <= k < idx@.len() ==> #[trigger] idx@[k] < res * res,
    ensures
        normals@ == sp_normals(heights@, res as int, idx@),
{
    let mut normals: Vec<(i64, i64, i64)> = Vec::new();
    proof {
        assert(res * res <= RES_MAX * RES_MAX) by (nonlinear_arith)
            requires
                0 < res <= RES_MAX,
        ;
    }
    let total = res * res;
    let mut v: usize = 0;
    while v < total
        invariant
            total == res * res,
            0 <= v <= total,
            normals@.len() == v,
            forall|k: int| 0 <= k < v ==> #[trigger] normals@[k] == (0i64, 0i64, 0i64),
        decreases total - v,
    {
        normals.push((0i64, 0i64, 0i64));
        v = v + 1;
    }
    proof {
        assert(normals@ =~= sp_normals_upto(heights@, res as int, idx@, 0));
    }
    let ntri = idx.len() / 3;
    let mut t: usize = 0;
    while t < ntri
        invariant
            2 <= res <= RES_MAX,
            heights@.len() == res * res,
            forall|k: int|
                0 <= k < heights@.len() ==> -HEIGHT_LIMIT <= #[trigger] heights@[k] < HEIGHT_LIMIT,
            idx@.len() % 3 == 0,
            idx@.len() <= 0x60_0000,
            forall|k: int| 0 <= k < idx@.len() ==> #[trigger] idx@[k] < res * res,
            ntri == idx@.len() / 3,
            0 <= t <= ntri,
            normals@.len() == res * res,
            normals@ == sp_normals_upto(heights@, res as int, idx@, t as int),
            forall|k: int|
                0 <= k < normals@.len() ==> {
                    let e = #[trigger] normals@[k];
                    &&& -3 * (t as int) * CROSS_MAX <= e.0 <= 3 * (t as int) * CROSS_MAX
                    &&& -3 * (t as int) * CROSS_MAX <= e.1 <= 3 * (t as int) * CROSS_MAX
                    &&& -3 * (t as int) * CROSS_MAX <= e.2 <= 3 * (t as int) * CROSS_MAX
                },
        decreases ntri - t,
    {
        proof {
            assert(3 * (t as int) + 2 < idx@.len());
        }
        let a = idx[3 * t] as usize;
        let b = idx[3 * t + 1] as usize;
        let c = idx[3 * t + 2] as usize;
        let n = face_normal(heights, res, a, b, c);
        let na = normals[a];
        normals.set(a, (na.0 + n.0, na.1 + n.1, na.2 + n.2));
        let nb = normals[b];
        normals.set(b, (nb.0 + n.0, nb.1 + n.1, nb.2 + n.2));
        let nc = normals[c];
        normals.set(c, (nc.0 + n.0, nc.1 + n.1, nc.2 + n.2));
        t = t + 1;
        proof {
            assert(normals@ =~= sp_normals_upto(heights@, res as int, idx@, t as int));
        }
    }
    proof {
        assert(ntri == idx@.len() as int / 3);
    }
    normals
}

/// Every face of the grid triangulation addresses a valid vertex.
pub proof fn lemma_faces_ok(res: int, nrows: int)
    requires
        2 <= res <= RES_MAX,
        1 <= nrows <= res,
    ensures
        forall|k: int|
            0 <= k < sp_faces_upto(res, nrows).len() ==> sp_face_ok(
                #[trigger] sp_faces_upto(res, nrows)[k],
                res * res,
            ),
    decreases nrows,
{
    if nrows > 1 {
        lemma_faces_ok(res, nrows - 1);
        assert forall|iz: int| 0 <= iz < res implies #[trigger] sp_row(res, nrows - 2)[iz] < res
            * res && sp_row(res, nrows - 1)[iz] < res * res by {
            assert((nrows - 2) * res + iz < res * res && (nrows - 1) * res + iz < res * res)
                by (nonlinear_arith)
                requires
                    2 <= res,
                    2 <= nrows <= res,
                    0 <= iz < res,
            ;
        }
        let bridge = sp_bridge(sp_row(res, nrows - 2), sp_row(res, nrows - 1));
        assert forall|k: int| 0 <= k < bridge.len() implies sp_face_ok(
            #[trigger] bridge[k],
            res * res,
        ) by {
            if k > 0 {
                assert(bridge[k] == Seq::new(
                    (res - 1) as nat,
                    |j: int| Face::Quad(
                        sp_row(res, nrows - 2)[j],
                        sp_row(res, nrows - 1)[j],
                        sp_row(res, nrows - 1)[j + 1],
                        sp_row(res, nrows - 2)[j + 1],
                    ),
                )[k - 1]);
            }
        }
        let whole = sp_faces_upto(res, nrows);
        let prefix = sp_faces_upto(res, nrows - 1);
        assert forall|k: int| 0 <= k < whole.len() implies sp_face_ok(
            #[trigger] whole[k],
            res * res,
        ) by {
            if k < prefix.len() {
                assert(whole[k] == prefix[k]);
            } else {
                assert(whole[k] == bridge[k - prefix.len()]);
            }
        }
    }
}

/// Flattening faces with valid indices gives a triangle list with valid
/// indices, three per face corner group, at most six per face.
pub proof fn lemma_tri_ok(faces: Seq<Face>, bound: int)
    requires
        forall|k: int| 0 <= k < faces.len() ==> sp_face_ok(#[trigger] faces[k], bound),
    ensures
        sp_tri(faces).len() % 3 == 0,
        sp_tri(faces).len() <= 6 * faces.len(),
        forall|k: int| 0 <= k < sp_tri(faces).len() ==> #[trigger] sp_tri(faces)[k] < bound,
    decreases faces.len(),
{
    if faces.len() > 0 {
        lemma_tri_ok(faces.drop_last(), bound);
    }
}

/// Why a chunk build was rejected.
#[derive(Debug, Clone, Copy, PartialEq, Eq, Structural)]
pub enum TerrainError {
    /// The heightfield parameters are out of range.
    InvalidParams,
    /// The resolution, chunk size or chunk coordinates are out of range.
    InvalidDimensions,
    /// A supplied neighbor edge does not match the resolution, or holds a
    /// height outside the representable range.
    InvalidEdge,
}

/// A chunk's CPU-side mesh: the height grid, the triangle index list and
/// the per-vertex normals, all in fixed-point grid space.
#[derive(Debug)]
pub struct TerrainMesh {
    /// Vertices per side; the grid holds `resolution * resolution` heights.
    pub resolution: usize,
    /// Row-major heights: vertex `(ix, iz)` is at `ix * resolution + iz`.
    pub heights: Vec<i64>,
    /// Triangle vertex indices, three per triangle.
    pub indices: Vec<u32>,
    /// Per-vertex normals: unnormalized sums of adjacent face normals.
    pub normals: Vec<(i64, i64, i64)>,
}

/// A generated chunk: its mesh plus the four edge-height vectors kept for
/// the neighbors that will be generated later.
#[derive(Debug)]
pub struct TerrainModel {
    pub mesh: TerrainMesh,
    /// Heights of the `ix == 0` column, before top/bottom overrides.
    pub left: Vec<i64>,
    /// Heights of the `ix == res - 1` column, before top/bottom overrides.
    pub right: Vec<i64>,
    /// Heights of the `iz == 0` row, as they stand in the grid.
    pub top: Vec<i64>,
    /// Heights of the `iz == res - 1` row, as they stand in the grid.
    pub bottom: Vec<i64>,
}

/// What `execute` promises of a chunk built from inputs `gi`.
pub open spec fn sp_model_ok(m: TerrainModel, gi: GridInput) -> bool {
    &&& m.mesh.resolution == gi.res
    &&& m.mesh.heights@.len() == gi.res * gi.res
    &&& forall|k: int|
        0 <= k < m.mesh.heights@.len() ==> #[trigger] m.mesh.heights@[k] == gi.height(
            k / gi.res,
            k % gi.res,
        )
    &&& forall|k: int|
        0 <= k < m.mesh.heights@.len() ==> -HEIGHT_LIMIT <= #[trigger] m.mesh.heights@[k]
            < HEIGHT_LIMIT
    &&& m.mesh.indices@ == sp_tri(sp_faces(gi.res))
    &&& m.mesh.normals@ == sp_normals(m.mesh.heights@, gi.res, m.mesh.indices@)
    &&& m.left@.len() == gi.res && forall|b: int|
        0 <= b < gi.res ==> #[trigger] m.left@[b] == gi.base_h(0, b)
    &&& m.right@.len() == gi.res && forall|b: int|
        0 <= b < gi.res ==> #[trigger] m.right@[b] == gi.base_h(gi.res - 1, b)
    &&& m.top@.len() == gi.res && forall|a: int|
        0 <= a < gi.res ==> #[trigger] m.top@[a] == gi.height(a, 0)
    &&& m.bottom@.len() == gi.res && forall|a: int|
        0 <= a < gi.res ==> #[trigger] m.bottom@[a] == gi.height(a, gi.res - 1)
}

/// Check that an optional supplied edge is admissible for resolution `res`.
fn edge_ok(e: &Option<Vec<i64>>, res: usize) -> (b: bool)
    ensures
        b == sp_edge_ok(
            match e {
                Option::Some(v) => Option::Some(v@),
                Option::None => Option::<Seq<i64>>::None,
            },
            res as int,
        ),
{
    match e {
        Option::None => true,
        Option::Some(v) => {
            if v.len() != res {
                return false;
            }
            let mut k: usize = 0;
            while k < res
                invariant
                    e matches Option::Some(vv) && vv@ == v@,
                    v@.len() == res,
                    0 <= k <= res,
                    forall|j: int| 0 <= j < k ==> -HEIGHT_LIMIT <= #[trigger] v@[j] < HEIGHT_LIMIT,
                decreases res - k,
            {
                if v[k] < -HEIGHT_LIMIT || v[k] >= HEIGHT_LIMIT {
                    proof {
                        assert(!sp_edge_ok(Option::Some(v@), res as int)) by {
                            assert(0 <= k < v@.len() && !(-HEIGHT_LIMIT <= v@[k as int]
                                < HEIGHT_LIMIT));
                            assert(!(forall|j: int|
                                0 <= j < v@.len() ==> -HEIGHT_LIMIT <= #[trigger] v@[j]
                                    < HEIGHT_LIMIT)) by {
                                let w = k as int;
                                assert(0 <= w < v@.len() && !(-HEIGHT_LIMIT <= v@[w]
                                    < HEIGHT_LIMIT));
                            }
                        }
                    }
                    return false;
                }
                k = k + 1;
            }
            true
        },
    }
}

/// The dimension checks of a chunk build.
pub open spec fn sp_dims_ok(size: i64, res: int, ci: i64, cj: i64) -> bool {
    &&& 2 <= res <= RES_MAX
    &&& 1 <= size <= CHUNK_SIZE_MAX
    &&& -CHUNK_COORD_MAX <= ci <= CHUNK_COORD_MAX
    &&& -CHUNK_COORD_MAX <= cj <= CHUNK_COORD_MAX
}

/// The build inputs, as one ghost value.
pub open spec fn sp_grid_input(
    p: HeightParams,
    size: i64,
    res: int,
    ci: i64,
    cj: i64,
    oleft: Option<Seq<i64>>,
    oright: Option<Seq<i64>>,
    otop: Option<Seq<i64>>,
    obottom: Option<Seq<i64>>,
) -> GridInput {
    GridInput { p, size, res, ci, cj, oleft, oright, otop, obottom }
}

/// The view of an owned optional edge vector.
pub open spec fn sp_opt_owned_view(o: Option<Vec<i64>>) -> Option<Seq<i64>> {
    match o {
        Option::Some(v) => Option::Some(v@),
        Option::None => Option::None,
    }
}

/// Build one chunk: sample its height grid at origin `(ci, cj)` (in chunk
/// units), splice in the supplied neighbor edges so shared boundary
/// vertices are bit-identical, triangulate row by row, and accumulate the
/// per-vertex normals. Succeeds exactly on admissible inputs; malformed
/// inputs are rejected, never truncated or padded.
pub fn execute(
    p: &HeightParams,
    size: i64,
    res: usize,
    ci: i64,
    cj: i64,
    oleft: Option<Vec<i64>>,
    oright: Option<Vec<i64>>,
    otop: Option<Vec<i64>>,
    obottom: Option<Vec<i64>>,
) -> (r: Result<TerrainModel, TerrainError>)
    ensures
        ({
            let gi = sp_grid_input(
                *p,
                size,
                res as int,
                ci,
                cj,
                sp_opt_owned_view(oleft),
                sp_opt_owned_view(oright),
                sp_opt_owned_view(otop),
                sp_opt_owned_view(obottom),
            );
            &&& (r is Ok <==> gi.wf())
            &&& (r matches Ok(m) ==> sp_model_ok(m, gi))
            &&& (r matches Err(e) ==> e == (if !p.wf() {
                TerrainError::InvalidParams
            } else if !sp_dims_ok(size, res as int, ci, cj) {
                TerrainError::InvalidDimensions
            } else {
                TerrainError::InvalidEdge
            }))
        }),
{
    let ghost gi = sp_grid_input(
        *p,
        size,
        res as int,
        ci,
        cj,
        sp_opt_owned_view(oleft),
        sp_opt_owned_view(oright),
        sp_opt_owned_view(otop),
        sp_opt_owned_view(obottom),
    );
    if !(1 <= p.scale && p.scale <= crate::heightfield::SCALE_LIMIT && 1 <= p.octaves && p.octaves
        <= crate::heightfield::OCTAVE_LIMIT && 0 <= p.amplitude && p.amplitude
        <= crate::heightfield::AMPLITUDE_LIMIT && -crate::heightfield::AMPLITUDE_LIMIT
        <= p.height_offset && p.height_offset <= crate::heightfield::AMPLITUDE_LIMIT
        && -HEIGHT_LIMIT <= p.sea_level && p.sea_level <= p.plateau_level && p.plateau_level
        < HEIGHT_LIMIT && -crate::heightfield::ORIGIN_LIMIT <= p.origin_x && p.origin_x
        <= crate::heightfield::ORIGIN_LIMIT && -crate::heightfield::ORIGIN_LIMIT <= p.origin_y
        && p.origin_y <= crate::heightfield::ORIGIN_LIMIT) {
        return Result::Err(TerrainError::InvalidParams);
    }
    if !(2 <= res && res <= RES_MAX && 1 <= size && size <= CHUNK_SIZE_MAX && -CHUNK_COORD_MAX <= ci
        && ci <= CHUNK_COORD_MAX && -CHUNK_COORD_MAX <= cj && cj <= CHUNK_COORD_MAX) {
        return Result::Err(TerrainError::InvalidDimensions);
    }
    if !(edge_ok(&oleft, res) && edge_ok(&oright, res) && edge_ok(&otop, res) && edge_ok(
        &obottom,
        res,
    )) {
        return Result::Err(TerrainError::InvalidEdge);
    }
    let (heights, left, right, top, bottom) = sample_grid(
        p,
        size,
        res,
        ci,
        cj,
        oleft.as_ref(),
        oright.as_ref(),
        otop.as_ref(),
        obottom.as_ref(),
    );
    let faces = build_faces(res);
    proof {
        lemma_faces_upto_len(res as int, res as int);
        assert((res - 1) * res < 0x100_0000 && 6 * ((res - 1) * res) <= 0x60_0000)
            by (nonlinear_arith)
            requires
                2 <= res <= RES_MAX,
        ;
        lemma_faces_ok(res as int, res as int);
        lemma_tri_ok(sp_faces(res as int), (res * res) as int);
    }
    let indices = triangulate(&faces);
    let normals = compute_normals(&heights, res, &indices);
    let mesh = TerrainMesh { resolution: res, heights, indices, normals };
    Result::Ok(TerrainModel { mesh, left, right, top, bottom })
}

/// Seam continuity. Let chunk `a` be built first (with no right-neighbor
/// data), and let chunk `b` be built directly to its right, consuming
/// `a`'s extracted right edge as its left edge. Then along the shared
/// boundary the two chunks hold bit-identical heights: at every interior
/// boundary vertex unconditionally, and at the corners too as soon as
/// neither build was handed top or bottom neighbor data (a perpendicular
/// neighbor has authority over a corner it also touches).
pub proof fn lemma_seam_continuity(a: GridInput, b: GridInput, ma: TerrainModel, mb: TerrainModel)
    requires
        a.wf(),
        b.wf(),
        sp_model_ok(ma, a),
        sp_model_ok(mb, b),
        b.p == a.p,
        b.size == a.size,
        b.res == a.res,
        b.ci == a.ci + 1,
        b.cj == a.cj,
        a.oright is None,
        b.oleft == Option::Some(ma.right@),
    ensures
        forall|iz: int|
            0 < iz < a.res - 1 ==> mb.mesh.heights@[iz] == ma.mesh.heights@[(a.res - 1) * a.res
                + iz],
        (a.otop is None && a.obottom is None && b.otop is None && b.obottom is None)
            ==> forall|iz: int|
            0 <= iz < a.res ==> mb.mesh.heights@[iz] == ma.mesh.heights@[(a.res - 1) * a.res + iz],
{
    let res = a.res;
    assert forall|iz: int| 0 < iz < res - 1 implies mb.mesh.heights@[iz] == ma.mesh.heights@[(res
        - 1) * res + iz] by {
        lemma_seam_at(a, b, ma, mb, iz);
    }
    if a.otop is None && a.obottom is None && b.otop is None && b.obottom is None {
        assert forall|iz: int| 0 <= iz < res implies mb.mesh.heights@[iz] == ma.mesh.heights@[(res
            - 1) * res + iz] by {
            lemma_seam_at(a, b, ma, mb, iz);
        }
    }
}

/// One shared boundary vertex of the seam-continuity law: under the same
/// hypotheses, relate the two height grids at index `iz`, for interior
/// vertices always and for corners when no perpendicular neighbor data
/// was supplied.
proof fn lemma_seam_at(a: GridInput, b: GridInput, ma: TerrainModel, mb: TerrainModel, iz: int)
    requires
        a.wf(),
        b.wf(),
        sp_model_ok(ma, a),
        sp_model_ok(mb, b),
        b.p == a.p,
        b.size == a.size,
        b.res == a.res,
        b.ci == a.ci + 1,
        b.cj == a.cj,
        a.oright is None,
        b.oleft == Option::Some(ma.right@),
        0 <= iz < a.res,
        (0 < iz < a.res - 1) || (a.otop is None && a.obottom is None && b.otop is None
            && b.obottom is None),
    ensures
        mb.mesh.heights@[iz] == ma.mesh.heights@[(a.res - 1) * a.res + iz],
{
    let res = a.res;
    vstd::arithmetic::div_mod::lemma_fundamental_div_mod_converse(iz, res, 0, iz);
    vstd::arithmetic::div_mod::lemma_fundamental_div_mod_converse(
        (res - 1) * res + iz,
        res,
        res - 1,
        iz,
    );
    assert(0 <= (res - 1) * res + iz < res * res) by (nonlinear_arith)
        requires
            2 <= res,
            0 <= iz < res,
    ;
    assert(mb.mesh.heights@[iz] == b.height(0, iz));
    assert(ma.mesh.heights@[(res - 1) * res + iz] == a.height(res - 1, iz));
    assert(b.height(0, iz) == b.base_h(0, iz));
    assert(b.base_h(0, iz) == ma.right@[iz]);
    assert(ma.right@[iz] == a.base_h(res - 1, iz));
    assert(a.height(res - 1, iz) == a.base_h(res - 1, iz));
}

/// Even without neighbor data, two horizontally adjacent chunks sample
/// their shared boundary at the same fine coordinates: the right column
/// of chunk `(ci, cj)` and the left column of chunk `(ci + 1, cj)` are
/// the same world points, so the deterministic sampler gives them
/// bit-identical heights.
pub proof fn lemma_shared_boundary_coordinates(a: GridInput, b: GridInput, iz: int)
    requires
        a.wf(),
        b.wf(),
        b.size == a.size,
        b.res == a.res,
        b.ci == a.ci + 1,
        b.cj == a.cj,
        0 <= iz < a.res,
    ensures
        b.fine(b.ci, 0) == a.fine(a.ci, a.res - 1),
        b.fine(b.cj, iz) == a.fine(a.cj, iz),
{
    assert((a.ci + 1) * a.size * (a.res - 1) == a.ci * a.size * (a.res - 1) + (a.res - 1) * a.size)
        by (nonlinear_arith);
}

} // verus!
