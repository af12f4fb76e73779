use skycache::heightfield::HeightParams;
use skycache::runtime::{BuildResult, Executor};
use skycache::sky::{build_priority, crop, gii, giiu, CellKind, Sky, SkyConfig};
use skycache::terrain_generation::execute;

fn settings() -> skycache::settings::Settings {
    skycache::settings::Settings {
        sky_enabled: true,
        box_enabled: false,
        triangle_enabled: false,
        letters_enabled: false,
        dog_enabled: false,
        lap_enabled: false,
    }
}

fn small_config() -> SkyConfig {
    SkyConfig {
        chunk_size: 4,
        resolution: 8,
        window_radius: 1,
        lookahead_div: 3,
        visibility_radius: 3,
    }
}

fn params() -> HeightParams {
    HeightParams::new(42, 0, 64, 6, 20000, 0, -30000, 30000).unwrap()
}

fn new_sky() -> Sky {
    Sky::new(settings(), small_config(), params(), 0, 0).unwrap()
}

fn new_executor() -> Executor {
    Executor::new_default().expect("thread pool")
}

#[test]
fn index_mapping() {
    assert_eq!(crop(-1, 3), None);
    assert_eq!(crop(3, 3), None);
    assert_eq!(crop(2, 3), Some(2));
    assert_eq!(gii(0, 0, 1), Some(4));
    assert_eq!(gii(-1, -1, 1), Some(0));
    assert_eq!(gii(1, 1, 1), Some(8));
    assert_eq!(gii(2, 0, 1), None);
    assert_eq!(giiu(1, -1, 1), 2);
}

#[test]
fn priority_order_radius_one() {
    let order = build_priority(1);
    assert_eq!(
        order,
        vec![
            (0, 0),
            (-1, 0),
            (0, -1),
            (0, 1),
            (1, 0),
            (-1, -1),
            (-1, 1),
            (1, -1),
            (1, 1),
        ]
    );
}

#[test]
fn priority_order_sorted_by_manhattan() {
    let order = build_priority(3);
    assert_eq!(order.len(), 49);
    for w in order.windows(2) {
        let (a, b) = (w[0], w[1]);
        let ma = a.0.abs() + a.1.abs();
        let mb = b.0.abs() + b.1.abs();
        assert!(ma < mb || (ma == mb && (a.0 < b.0 || (a.0 == b.0 && a.1 < b.1))));
    }
    for i in -3i64..=3 {
        for j in -3i64..=3 {
            assert!(order.contains(&(i, j)));
        }
    }
}

#[test]
fn priority_independent_of_construction_randomness() {
    let p1 = HeightParams::new_random(1, 64, 6, 20000, 0, -30000, 30000).unwrap();
    let p2 = HeightParams::new_random(2, 64, 6, 20000, 0, -30000, 30000).unwrap();
    let s1 = Sky::new(settings(), small_config(), p1, 0, 0).unwrap();
    let s2 = Sky::new(settings(), small_config(), p2, 0, 0).unwrap();
    assert_eq!(s1.ordered_cells(), s2.ordered_cells());
    assert_eq!(s1.ordered_cells().as_slice(), build_priority(1).as_slice());
}

#[test]
fn new_cache_is_empty_and_centered() {
    let sky = new_sky();
    assert_eq!(sky.window_center(), (0, 0));
    for i in -1i64..=1 {
        for j in -1i64..=1 {
            assert_eq!(sky.cell_kind(i, j), Some(CellKind::Empty));
        }
    }
    assert_eq!(sky.cell_kind(2, 0), None);
    let off = Sky::new(settings(), small_config(), params(), -1, 5).unwrap();
    assert_eq!(off.window_center(), (-1, 1));
}

#[test]
fn center_ready_after_first_tick() {
    let mut sky = new_sky();
    let ex = new_executor();
    sky.tick(&ex);
    assert_eq!(sky.cell_kind(0, 0), Some(CellKind::Ready));
    let visible = sky.get_current();
    assert!(visible.len() >= 1);
}

#[test]
fn center_chunk_matches_direct_build() {
    let mut sky = new_sky();
    let ex = new_executor();
    sky.tick(&ex);
    let direct = execute(&params(), 4, 8, 0, 0, None, None, None, None).unwrap();
    let cached = sky.get_chunk(0, 0).unwrap();
    assert_eq!(cached.mesh.heights, direct.mesh.heights);
}

#[test]
fn scenario_recenter() {
    // a 3x3 window over chunks of size 4: one tick readies the center;
    // moving the camera one whole chunk in +x re-centers the window,
    // so the chunk formerly at key (1, 0) is now the center, the world
    // chunk formerly at (-1, 0) is out of reach, and the newly exposed
    // leading cell is empty
    let mut sky = new_sky();
    let ex = new_executor();
    sky.tick(&ex);
    assert_eq!(sky.cell_kind(0, 0), Some(CellKind::Ready));
    sky.camera_entered(4, 0);
    sky.tick(&ex);
    assert_eq!(sky.window_center(), (1, 0));
    assert_eq!(sky.cell_kind(0, 0), Some(CellKind::Ready));
    // the center now holds the world chunk (1, 0); its heights are the
    // deterministic heights of that chunk
    let expected = execute(&params(), 4, 8, 1, 0, None, None, None, None).unwrap();
    let cached = sky.get_chunk(0, 0).unwrap();
    assert_eq!(cached.mesh.heights, expected.mesh.heights);
    // the world chunk formerly at key (-1, 0) now lies outside the window
    assert!(sky.get_chunk(-2, 0).is_none());
    assert_eq!(sky.cell_kind(-2, 0), None);
    // the newly exposed cell ahead of the camera is empty
    assert_eq!(sky.cell_kind(1, 0), Some(CellKind::Empty));
}

#[test]
fn duplicate_result_discarded() {
    // after the first tick the eight neighbors are generating under
    // tickets 0..8, allocated in priority order
    let mut sky = new_sky();
    let ex = new_executor();
    sky.tick(&ex);
    assert_eq!(sky.cell_kind(1, 0), Some(CellKind::Generating));
    // ticket 3 belongs to the fourth empty cell of the priority order,
    // which is (1, 0)
    let model = execute(&params(), 4, 8, 99, 99, None, None, None, None).unwrap();
    sky.deliver_result(BuildResult { ticket: 3, model: Some(model) });
    assert_eq!(sky.cell_kind(1, 0), Some(CellKind::Ready));
    let first = sky.get_chunk(1, 0).unwrap().mesh.heights.clone();
    // a second result under the same ticket is a no-op: the first chunk
    // committed to the cell stays
    let other = execute(&params(), 4, 8, -5, 7, None, None, None, None).unwrap();
    sky.deliver_result(BuildResult { ticket: 3, model: Some(other) });
    assert_eq!(sky.cell_kind(1, 0), Some(CellKind::Ready));
    assert_eq!(sky.get_chunk(1, 0).unwrap().mesh.heights, first);
}

#[test]
fn failed_result_empties_cell() {
    let mut sky = new_sky();
    let ex = new_executor();
    sky.tick(&ex);
    assert_eq!(sky.cell_kind(-1, 0), Some(CellKind::Generating));
    // ticket 0 belongs to (-1, 0); a failure report frees the cell so a
    // later tick can retry it
    sky.deliver_result(BuildResult { ticket: 0, model: None });
    assert_eq!(sky.cell_kind(-1, 0), Some(CellKind::Empty));
}

#[test]
fn stale_ticket_is_ignored() {
    let mut sky = new_sky();
    let model = execute(&params(), 4, 8, 0, 0, None, None, None, None).unwrap();
    sky.deliver_result(BuildResult { ticket: 77, model: Some(model) });
    for i in -1i64..=1 {
        for j in -1i64..=1 {
            assert_eq!(sky.cell_kind(i, j), Some(CellKind::Empty));
        }
    }
}

#[test]
fn visibility_cutoff() {
    let mut config = small_config();
    config.visibility_radius = 1;
    let mut sky = Sky::new(settings(), config, params(), 0, 0).unwrap();
    let ex = new_executor();
    sky.tick(&ex);
    // only keys of Manhattan distance zero pass a cutoff of one
    assert_eq!(sky.get_current().len(), 1);
}

#[test]
fn camera_entered_is_pure_bookkeeping() {
    let mut sky = new_sky();
    sky.camera_entered(3, -2);
    for i in -1i64..=1 {
        for j in -1i64..=1 {
            assert_eq!(sky.cell_kind(i, j), Some(CellKind::Empty));
        }
    }
    assert_eq!(sky.window_center(), (0, 0));
}

#[test]
fn new_rejects_bad_config() {
    let mut config = small_config();
    config.window_radius = 0;
    assert!(Sky::new(settings(), config, params(), 0, 0).is_none());
    let mut config2 = small_config();
    config2.chunk_size = 0;
    assert!(Sky::new(settings(), config2, params(), 0, 0).is_none());
}
