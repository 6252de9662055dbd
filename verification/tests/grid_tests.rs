use admin_editor::grid::{
    bool_of, chance_of, circle_step, decide_next_move, enforce_circle_bounds, finish_respawn,
    handle_transition_end, i32_below, next_move, random_i32, random_step_duration, spawn_circle_state,
    spawn_position, spawn_with, u32_between, usize_below, Axis, Direction, GridCircle, GridData,
    GridMetrics, RandomSource, SpawnEdge, StepOutcome,
};

fn metrics(cols: i32, rows: i32) -> GridMetrics {
    GridMetrics { cols, rows }
}

fn dot(col: i32, row: i32, dir: Direction) -> GridCircle {
    GridCircle {
        id: 7,
        col,
        row,
        travel_dir: dir,
        moving: false,
        respawning: false,
        step_ms: 400,
        spawn_edge: SpawnEdge::Left,
        alive: true,
    }
}

#[test]
fn directions() {
    assert_eq!(Direction::Left.reverse(), Direction::Right);
    assert_eq!(Direction::Up.reverse().reverse(), Direction::Up);
    assert_eq!(Direction::Down.axis(), Axis::Vertical);
    assert_eq!(Direction::Left.delta(), (-1, 0));
    assert_eq!(Direction::Down.delta(), (0, 1));
    assert_eq!(Direction::Right.perpendicular(), [Direction::Up, Direction::Down]);
    assert_eq!(Direction::Up.perpendicular(), [Direction::Left, Direction::Right]);
    assert_eq!(Direction::from(SpawnEdge::Top), Direction::Down);
    assert_eq!(Direction::from(SpawnEdge::Right), Direction::Left);
    assert_eq!(SpawnEdge::from_index(2), SpawnEdge::Top);
    assert_eq!(SpawnEdge::from_index(9), SpawnEdge::Bottom);
}

#[test]
fn grid_shape() {
    let g = GridData { vertical_line_count: 5, horizontal_line_count: 3, cell_width_positive: true, cell_height_positive: true };
    assert_eq!(g.cols(), 4);
    assert_eq!(g.rows(), 2);
    assert!(g.in_bounds(3, 1));
    assert!(!g.in_bounds(4, 0));
    assert!(!g.in_bounds(-1, 0));
    let m = GridMetrics::from(&g).unwrap();
    assert_eq!((m.cols, m.rows), (4, 2));
    let empty = GridData { vertical_line_count: 0, horizontal_line_count: 0, cell_width_positive: false, cell_height_positive: false };
    assert_eq!(empty.cols(), 0);
    assert!(GridMetrics::from(&empty).is_none());
    let flat = GridData { vertical_line_count: 5, horizontal_line_count: 3, cell_width_positive: true, cell_height_positive: false };
    assert!(GridMetrics::from(&flat).is_none());
}

#[test]
fn draws() {
    assert_eq!(i32_below(17, 5), 2);
    assert_eq!(i32_below(17, 0), 0);
    assert_eq!(i32_below(17, -3), 0);
    assert_eq!(usize_below(10, 4), 2);
    assert_eq!(usize_below(10, 0), 0);
    assert!(bool_of(3));
    assert!(!bool_of(4));
    assert!(chance_of(119, 20));
    assert!(!chance_of(120, 20));
    assert!(chance_of(5, 100));
    assert!(!chance_of(0, 0));
    assert_eq!(u32_between(5, 320, 640), 325);
    assert_eq!(u32_between(321, 320, 640), 320);
    assert_eq!(u32_between(9, 10, 10), 10);
    let mut rng = RandomSource::new();
    for _ in 0..50 {
        let d = random_step_duration(&mut rng);
        assert!((320..=640).contains(&d));
        let v = random_i32(&mut rng, 3);
        assert!((0..3).contains(&v));
    }
}

#[test]
fn fallback_generator_steps() {
    let mut rng = RandomSource::new();
    assert_eq!(rng.next_from(Some(5)), 5);
    assert_eq!(rng.fallback_seed, 0x9e3779b97f4a7c15);
    let first = rng.next_from(None);
    assert_eq!(first, 0x9e3779b97f4a7c15);
    assert_eq!(rng.fallback_seed, 0x9e3779b97f4a7c15u64.wrapping_mul(6364136223846793005).wrapping_add(1));
}

#[test]
fn moves() {
    let m = metrics(3, 3);
    assert_eq!(next_move(&dot(1, 1, Direction::Right), &m, false, true), Some((2, 1)));
    assert_eq!(next_move(&dot(2, 1, Direction::Right), &m, false, true), None);
    assert_eq!(next_move(&dot(1, 1, Direction::Right), &m, true, true), Some((1, 0)));
    assert_eq!(next_move(&dot(1, 0, Direction::Right), &m, true, true), Some((2, 0)));
    assert_eq!(next_move(&dot(1, 1, Direction::Up), &m, true, false), Some((2, 1)));
    let mut rng = RandomSource::new();
    for _ in 0..20 {
        match decide_next_move(&mut rng, &dot(1, 1, Direction::Down), &m) {
            Some((c, r)) => assert!((c, r) == (1, 2) || (c, r) == (0, 1) || (c, r) == (2, 1)),
            None => panic!("a move from the middle stays on the grid"),
        }
    }
}

#[test]
fn spawns_on_edges() {
    let m = metrics(4, 3);
    assert_eq!(spawn_position(SpawnEdge::Left, &m, 2), (0, 2));
    assert_eq!(spawn_position(SpawnEdge::Right, &m, 9), (3, 2));
    assert_eq!(spawn_position(SpawnEdge::Top, &m, -4), (0, 0));
    assert_eq!(spawn_position(SpawnEdge::Bottom, &m, 1), (1, 2));
    let c = spawn_with(3, &m, SpawnEdge::Bottom, 1, 500);
    assert_eq!((c.col, c.row, c.travel_dir), (1, 2, Direction::Up));
    assert!(!c.respawning && !c.moving && c.alive);
    let mut rng = RandomSource::new();
    for id in 0..20 {
        let c = spawn_circle_state(&mut rng, id, &m);
        assert_eq!(c.id, id);
        assert!(c.col >= 0 && c.col < 4 && c.row >= 0 && c.row < 3);
        assert_eq!(c.travel_dir, Direction::from(c.spawn_edge));
    }
}

#[test]
fn steps() {
    let m = metrics(3, 3);
    let mut rng = RandomSource::new();
    let mut c = dot(1, 1, Direction::Right);
    c.moving = true;
    assert_eq!(circle_step(&mut rng, &mut c, &m), StepOutcome::Waiting);
    assert_eq!((c.col, c.row), (1, 1));
    let out = handle_transition_end(&mut rng, &mut c, &m);
    assert_eq!(out, StepOutcome::Moved);
    assert!(c.moving);
    let mut edge = dot(2, 2, Direction::Down);
    edge.respawning = true;
    assert_eq!(circle_step(&mut rng, &mut edge, &m), StepOutcome::Waiting);
    let out = finish_respawn(&mut rng, &mut edge, &m);
    assert!(out == StepOutcome::Respawned || out == StepOutcome::Moved);
    assert!(edge.col >= 0 && edge.col < 3 && edge.row >= 0 && edge.row < 3);
    let mut off = dot(7, 1, Direction::Left);
    assert!(enforce_circle_bounds(&mut rng, &mut off, &m));
    assert!(off.respawning);
    assert!(off.col >= 0 && off.col < 3);
    let mut on = dot(1, 1, Direction::Left);
    assert!(!enforce_circle_bounds(&mut rng, &mut on, &m));
    assert_eq!((on.col, on.row), (1, 1));
}
