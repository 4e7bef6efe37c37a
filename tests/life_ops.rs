use arcade_markets::life::{GridState, OperationResult, Pattern, Position, LCG_MULTIPLIER};
use arcade_markets::life_ops::Operation;

fn done(g: &GridState) -> (u64, u32) {
    (g.generation, g.live_count())
}

fn reply(r: OperationResult) -> (u64, u32) {
    match r {
        OperationResult::Done { generation, live_count } => (generation, live_count),
        OperationResult::Error(e) => panic!("unexpected error: {}", e),
    }
}

#[test]
fn toggle_request_and_its_bounds() {
    let mut g = GridState::new();
    assert_eq!(reply(g.execute_operation(Operation::Toggle { x: 2, y: 3 }, 0)), (0, 1));
    assert!(g.get(2, 3));
    match g.execute_operation(Operation::Toggle { x: 32, y: 0 }, 0) {
        OperationResult::Error(e) => assert_eq!(e, "Position out of bounds"),
        other => panic!("expected an error, got {:?}", other),
    }
    assert_eq!(g.live_count(), 1);
}

#[test]
fn set_cells_request_skips_cells_off_the_grid() {
    let mut g = GridState::new();
    let positions = vec![Position { x: 1, y: 1 }, Position { x: 40, y: 1 }, Position { x: 2, y: 1 }];
    let r = g.execute_operation(Operation::SetCells { positions: positions.clone(), alive: true }, 0);
    assert_eq!(reply(r), (0, 2));
    assert_eq!(g.live_cells(), vec![(1, 1), (2, 1)]);
    g.execute_operation(Operation::SetCells { positions, alive: false }, 0);
    assert_eq!(g.live_count(), 0);
}

#[test]
fn step_requests_advance_generations() {
    let mut g = GridState::new();
    g.execute_operation(Operation::LoadPattern { pattern: Pattern::Blinker, x: 4, y: 5 }, 0);
    assert_eq!(reply(g.execute_operation(Operation::Step, 0)), (1, 3));
    assert_eq!(g.live_cells(), vec![(5, 4), (5, 5), (5, 6)]);
    assert_eq!(reply(g.execute_operation(Operation::StepMultiple { count: 3 }, 0)), (4, 3));
    assert_eq!(g.live_cells(), vec![(4, 5), (5, 5), (6, 5)]);
    g.execute_operation(Operation::StepMultiple { count: 1_000 }, 0);
    assert_eq!(g.generation, 104);
}

#[test]
fn start_stop_and_clear_requests() {
    let mut g = GridState::new();
    g.execute_operation(Operation::LoadPattern { pattern: Pattern::Block, x: 0, y: 0 }, 0);
    g.execute_operation(Operation::Start, 0);
    assert!(g.running);
    assert_eq!(done(&g), (0, 4));
    g.execute_operation(Operation::Stop, 0);
    assert!(!g.running);
    g.execute_operation(Operation::Start, 0);
    assert_eq!(reply(g.execute_operation(Operation::Clear, 0)), (0, 0));
    assert!(!g.running);
}

#[test]
fn randomize_request_mixes_in_the_time() {
    let mut g = GridState::new();
    g.execute_operation(Operation::Randomize { seed: 5 }, 5);
    assert_eq!(g.cells[0], 1);
    assert_eq!(g.cells[1], LCG_MULTIPLIER.wrapping_add(1));
}

#[test]
fn patterns_are_clipped_at_the_edge() {
    let mut g = GridState::new();
    g.execute_operation(Operation::LoadPattern { pattern: Pattern::Block, x: 31, y: 31 }, 0);
    assert_eq!(g.live_cells(), vec![(31, 31)]);
    let mut g = GridState::new();
    g.execute_operation(Operation::LoadPattern { pattern: Pattern::GliderGun, x: 0, y: 0 }, 0);
    assert_eq!(g.live_count(), 32);
}

#[test]
fn random_patch_follows_the_generator() {
    let mut g = GridState::new();
    let (x, y, now) = (3u32, 4u32, 99u64);
    g.execute_operation(Operation::LoadPattern { pattern: Pattern::Random, x, y }, now);
    let mut rng = (x as u64 ^ (y as u64 * 12345)) ^ now;
    let mut want = Vec::new();
    for dy in 0..8u32 {
        for dx in 0..8u32 {
            rng = rng.wrapping_mul(LCG_MULTIPLIER).wrapping_add(1);
            if (rng >> 32) & 1 == 1 {
                want.push((x + dx, y + dy));
            }
        }
    }
    assert_eq!(g.live_cells(), want);
}
