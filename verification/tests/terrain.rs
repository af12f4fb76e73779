use skycache::heightfield::{sample, HeightParams};
use skycache::terrain_generation::{create_faces, execute, triangulate, Face, TerrainError};

fn flat_params() -> HeightParams {
    // amplitude 0: every raw height is exactly height_offset, then clamped
    HeightParams::new(7, 0, 16, 4, 0, 0, -100, 100).unwrap()
}

fn hilly_params() -> HeightParams {
    HeightParams::new(99, 3, 64, 6, 20000, 0, -30000, 30000).unwrap()
}

#[test]
fn sample_is_deterministic() {
    let p = hilly_params();
    let a = sample(&p, 12345, -6789);
    let b = sample(&p, 12345, -6789);
    assert_eq!(a, b);
}

#[test]
fn sample_clamps_to_sea_and_plateau() {
    let p = hilly_params();
    for k in 0..200 {
        let h = sample(&p, k * 37, -k * 91);
        assert!(p.sea_level <= h && h <= p.plateau_level);
    }
}

#[test]
fn sample_exact_when_amplitude_zero() {
    // raw value is exactly the height offset
    let p = HeightParams::new(1, 0, 16, 4, 0, 50, -100, 100).unwrap();
    assert_eq!(sample(&p, 4, 9), 50);
    // an offset above the plateau clamps down to it
    let hi = HeightParams::new(1, 0, 16, 4, 0, 500, -100, 100).unwrap();
    assert_eq!(sample(&hi, -3, 8), 100);
    // an offset below sea level clamps up to it
    let lo = HeightParams::new(1, 0, 16, 4, 0, -500, -100, 100).unwrap();
    assert_eq!(sample(&lo, 0, 0), -100);
}

#[test]
fn params_rejects_out_of_range() {
    assert!(HeightParams::new(1, 0, 0, 4, 0, 0, -100, 100).is_none());
    assert!(HeightParams::new(1, 0, 16, 0, 0, 0, -100, 100).is_none());
    assert!(HeightParams::new(1, 0, 16, 4, -1, 0, -100, 100).is_none());
    assert!(HeightParams::new(1, 0, 16, 4, 0, 0, 100, -100).is_none());
}

#[test]
fn create_faces_quads() {
    let mut faces: Vec<Face> = Vec::new();
    create_faces(&mut faces, &vec![0, 1], &vec![2, 3]);
    assert_eq!(faces, vec![Face::Quad(2, 0, 1, 3), Face::Quad(0, 2, 3, 1)]);
}

#[test]
fn create_faces_fan() {
    let mut faces: Vec<Face> = Vec::new();
    create_faces(&mut faces, &vec![7], &vec![1, 2, 3]);
    assert_eq!(
        faces,
        vec![Face::Tri(1, 7, 3), Face::Tri(7, 1, 2), Face::Tri(7, 2, 3)]
    );
}

#[test]
fn triangulate_splits_quads() {
    let idx = triangulate(&vec![Face::Quad(0, 1, 2, 3), Face::Tri(9, 8, 7)]);
    assert_eq!(idx, vec![0, 1, 2, 0, 2, 3, 9, 8, 7]);
}

#[test]
fn execute_smallest_grid_indices() {
    let p = flat_params();
    let m = execute(&p, 4, 2, 0, 0, None, None, None, None).unwrap();
    // one bridge of two faces: the whole-row quad, then the cell quad
    assert_eq!(m.mesh.indices, vec![2, 0, 1, 2, 1, 3, 0, 2, 3, 0, 3, 1]);
    assert_eq!(m.mesh.heights, vec![0, 0, 0, 0]);
}

#[test]
fn execute_flat_grid_normals() {
    let p = flat_params();
    let m = execute(&p, 4, 2, 0, 0, None, None, None, None).unwrap();
    // flat grid: normals point straight along the height axis, with the
    // sign fixed by each triangle's winding
    assert_eq!(
        m.mesh.normals,
        vec![(0, 0, 1), (0, 0, -1), (0, 0, -1), (0, 0, 1)]
    );
}

#[test]
fn execute_rejects_small_resolution() {
    let p = flat_params();
    let r = execute(&p, 4, 1, 0, 0, None, None, None, None);
    assert_eq!(r.err(), Some(TerrainError::InvalidDimensions));
}

#[test]
fn execute_rejects_bad_params() {
    let mut p = flat_params();
    p.scale = 0;
    let r = execute(&p, 4, 8, 0, 0, None, None, None, None);
    assert_eq!(r.err(), Some(TerrainError::InvalidParams));
}

#[test]
fn execute_rejects_mismatched_edge() {
    let p = flat_params();
    let bad = vec![0i64; 7]; // one short of the resolution
    let r = execute(&p, 4, 8, 0, 0, Some(bad), None, None, None);
    assert_eq!(r.err(), Some(TerrainError::InvalidEdge));
    let out_of_range = vec![1 << 40; 8];
    let r2 = execute(&p, 4, 8, 0, 0, Some(out_of_range), None, None, None);
    assert_eq!(r2.err(), Some(TerrainError::InvalidEdge));
}

#[test]
fn seam_continuity_via_edges() {
    let p = hilly_params();
    let res = 8usize;
    let a = execute(&p, 4, res, 0, 0, None, None, None, None).unwrap();
    let b = execute(
        &p,
        4,
        res,
        1,
        0,
        Some(a.right.clone()),
        None,
        None,
        None,
    )
    .unwrap();
    for iz in 0..res {
        assert_eq!(
            b.mesh.heights[iz],
            a.mesh.heights[(res - 1) * res + iz],
            "seam mismatch at boundary vertex {}",
            iz
        );
    }
}

#[test]
fn seam_matches_even_without_edges() {
    // the sampler evaluates shared boundary points at identical fine
    // coordinates, so even independent builds agree along the seam
    let p = hilly_params();
    let res = 8usize;
    let a = execute(&p, 4, res, 0, 0, None, None, None, None).unwrap();
    let b = execute(&p, 4, res, 1, 0, None, None, None, None).unwrap();
    for iz in 0..res {
        assert_eq!(b.mesh.heights[iz], a.mesh.heights[(res - 1) * res + iz]);
    }
}

#[test]
fn edge_overrides_and_extraction() {
    let p = hilly_params();
    let res = 8usize;
    let oleft: Vec<i64> = (0..res as i64).map(|k| 100 + k).collect();
    let otop: Vec<i64> = (0..res as i64).map(|k| 500 + k).collect();
    let m = execute(
        &p,
        4,
        res,
        0,
        0,
        Some(oleft.clone()),
        None,
        Some(otop.clone()),
        None,
    )
    .unwrap();
    // the top row wins everywhere on it, corners included
    for ix in 0..res {
        assert_eq!(m.mesh.heights[ix * res], otop[ix]);
        assert_eq!(m.top[ix], otop[ix]);
    }
    // the left column holds the supplied values away from the top corner
    for iz in 1..res {
        assert_eq!(m.mesh.heights[iz], oleft[iz]);
    }
    // the extracted left edge records the pre-top-override values
    assert_eq!(m.left, oleft);
}
