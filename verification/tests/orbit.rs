use orbit_explorer::fingerprint::hash_state;
use orbit_explorer::moves::{parse_moves, ParseError};
use orbit_explorer::orbit::{
    apply_moves, explore_trajectory, next_step, Blocked, Explorer, PuzzleState, Step,
};
use orbit_explorer::puzzle::{LayerMask, LayeredTwist, Puzzle, Twist, TwistInfo};

/// Eight stickers in a row. `R` and `U` each turn four of them one step
/// round; the two turns share one sticker, as two faces of a cube share an
/// edge. Any other twist is blocked.
#[derive(Clone, Debug, PartialEq)]
struct Stickers {
    cells: Vec<u8>,
}

impl Stickers {
    fn solved() -> Stickers {
        Stickers { cells: (0..8).collect() }
    }

    fn turn(&self, cycle: [usize; 4]) -> Stickers {
        let mut cells = self.cells.clone();
        for k in 0..4 {
            cells[cycle[(k + 1) % 4]] = self.cells[cycle[k]];
        }
        Stickers { cells }
    }
}

impl PuzzleState for Stickers {
    fn do_twist(&self, twist: LayeredTwist) -> Result<Stickers, Blocked> {
        match twist.transform.0 {
            0 => Ok(self.turn([0, 1, 2, 3])),
            1 => Ok(self.turn([3, 2, 1, 0])),
            2 => Ok(self.turn([3, 4, 5, 6])),
            3 => Ok(self.turn([6, 5, 4, 3])),
            _ => Err(Blocked),
        }
    }

    fn snapshot(&self) -> Vec<u8> {
        self.cells.clone()
    }
}

fn sticker_puzzle() -> Puzzle {
    let entry = |id: u16, name: &str, reverse: u16| TwistInfo {
        id: Twist(id),
        name: name.to_string(),
        reverse: Twist(reverse),
    };
    Puzzle {
        id: "stickers:8".to_string(),
        name: "Eight stickers".to_string(),
        twists: vec![entry(0, "R", 1), entry(1, "R'", 0), entry(2, "U", 3), entry(3, "U'", 2)],
    }
}

/// A walk on the integers: twist 0 steps from `x` to `x + 1` below `turn`
/// and from `turn` back to `back`; twist 1 stays; twist 2 is blocked.
#[derive(Clone, Debug, PartialEq)]
struct Walk {
    at: u64,
    turn: u64,
    back: u64,
}

impl PuzzleState for Walk {
    fn do_twist(&self, twist: LayeredTwist) -> Result<Walk, Blocked> {
        match twist.transform.0 {
            0 => {
                let at = if self.at == self.turn { self.back } else { self.at + 1 };
                Ok(Walk { at, turn: self.turn, back: self.back })
            }
            1 => Ok(self.clone()),
            _ => Err(Blocked),
        }
    }

    fn snapshot(&self) -> Vec<u8> {
        self.at.to_le_bytes().to_vec()
    }
}

fn twist(id: u16) -> LayeredTwist {
    LayeredTwist { layers: LayerMask(1), transform: Twist(id) }
}

fn walk_puzzle() -> Puzzle {
    Puzzle {
        id: "walk".to_string(),
        name: "Walk".to_string(),
        twists: vec![
            TwistInfo { id: Twist(0), name: "step".to_string(), reverse: Twist(0) },
            TwistInfo { id: Twist(1), name: "stay".to_string(), reverse: Twist(1) },
        ],
    }
}

#[test]
fn two_operations_r_u_terminate_within_budget() {
    let puzzle = sticker_puzzle();
    let moves = parse_moves(&puzzle, "R,U").unwrap();
    let stats = explore_trajectory(&puzzle, Stickers::solved(), &moves, 100000, 3);
    if stats.reached_cycle {
        assert!(stats.period.unwrap() >= 1);
    } else {
        assert!(stats.unique_states_visited <= 100001);
    }
    // The map is a permutation of the stickers, so the trajectory returns
    // to the start: count its order without the explorer.
    let mut state = Stickers::solved();
    let mut order = 0;
    loop {
        state = state.do_twist(moves[0]).unwrap().do_twist(moves[1]).unwrap();
        order += 1;
        if state == Stickers::solved() {
            break;
        }
    }
    assert_eq!(order, 7);
    assert!(stats.reached_cycle);
    assert_eq!(stats.period, Some(7));
    assert_eq!(stats.transient_length, 0);
    assert_eq!(stats.unique_states_visited, 7);
    assert_eq!(stats.max_iterations, 100000);
}

#[test]
fn r_then_r_prime_is_a_no_op_trajectory() {
    let puzzle = sticker_puzzle();
    let moves = parse_moves(&puzzle, "R,R'").unwrap();
    assert_eq!(moves.len(), 2);
    let stats = explore_trajectory(&puzzle, Stickers::solved(), &moves, 100000, 3);
    assert!(stats.reached_cycle);
    assert_eq!(stats.period, Some(1));
    assert_eq!(stats.transient_length, 0);
    assert_eq!(stats.unique_states_visited, 1);
}

#[test]
fn unknown_token_stops_before_exploration() {
    let puzzle = sticker_puzzle();
    let resolved = parse_moves(&puzzle, "Q");
    assert_eq!(resolved, Err(ParseError::UnknownOperation("Q".to_string())));
}

#[test]
fn operation_then_inverse_restores_the_fingerprint() {
    let puzzle = sticker_puzzle();
    let mut state = Stickers::solved();
    for name in ["R", "U", "R,U", "U',R", "R,R,U"] {
        for step in parse_moves(&puzzle, name).unwrap() {
            state = state.do_twist(step).unwrap();
        }
        for pair in ["R,R'", "R',R", "U,U'", "U',U"] {
            let moves = parse_moves(&puzzle, pair).unwrap();
            let before = hash_state(&state.snapshot());
            let (after, applied) = apply_moves(state.clone(), &moves);
            assert_eq!(applied, 2);
            assert_eq!(hash_state(&after.snapshot()), before);
        }
    }
}

#[test]
fn fixed_point_has_period_one() {
    let puzzle = walk_puzzle();
    for moves in [vec![twist(1)], vec![twist(1), twist(1), twist(1)]] {
        for budget in [1usize, 2, 1000] {
            let stats =
                explore_trajectory(&puzzle, Walk { at: 5, turn: 9, back: 0 }, &moves, budget, 1);
            assert!(stats.reached_cycle);
            assert_eq!(stats.period, Some(1));
            assert_eq!(stats.transient_length, 0);
            assert_eq!(stats.unique_states_visited, 1);
        }
    }
    // The same fingerprint comes back at every iteration.
    let state = Walk { at: 5, turn: 9, back: 0 };
    let first = hash_state(&state.snapshot());
    let mut current = state;
    for _ in 0..20 {
        current = apply_moves(current, &[twist(1)]).0;
        assert_eq!(hash_state(&current.snapshot()), first);
    }
}

#[test]
fn transient_and_period_of_a_rho_shaped_walk() {
    let puzzle = walk_puzzle();
    // 0 1 2 3 4 5 6 3 ...: three steps in, then a cycle of four.
    let start = Walk { at: 0, turn: 6, back: 3 };
    let stats = explore_trajectory(&puzzle, start.clone(), &[twist(0)], 100, 1);
    assert!(stats.reached_cycle);
    assert_eq!(stats.transient_length, 3);
    assert_eq!(stats.period, Some(4));
    assert_eq!(stats.unique_states_visited, 7);

    // Record the fingerprints again and hold the report against them.
    let mut recorded = vec![hash_state(&start.snapshot())];
    let mut state = start;
    for _ in 0..7 {
        state = apply_moves(state, &[twist(0)]).0;
        recorded.push(hash_state(&state.snapshot()));
    }
    let j = stats.transient_length;
    let p = stats.period.unwrap();
    assert_eq!(recorded[j], recorded[j + p]);
    for k in j + 1..j + p {
        assert_ne!(recorded[k], recorded[j]);
    }
}

#[test]
fn two_steps_per_iteration_halve_the_cycle() {
    let puzzle = walk_puzzle();
    // Positions after each iteration: 0 2 4 6 4 ...
    let stats = explore_trajectory(
        &puzzle,
        Walk { at: 0, turn: 6, back: 3 },
        &[twist(0), twist(0)],
        100,
        1,
    );
    assert!(stats.reached_cycle);
    assert_eq!(stats.transient_length, 2);
    assert_eq!(stats.period, Some(2));
    assert_eq!(stats.unique_states_visited, 4);
}

#[test]
fn budget_exhaustion_counts_every_state() {
    let puzzle = walk_puzzle();
    for budget in [0usize, 1, 2, 50, 1000] {
        let stats = explore_trajectory(
            &puzzle,
            Walk { at: 0, turn: u64::MAX, back: 0 },
            &[twist(0)],
            budget,
            1,
        );
        assert!(!stats.reached_cycle);
        assert_eq!(stats.period, None);
        assert_eq!(stats.transient_length, 0);
        assert_eq!(stats.unique_states_visited, budget + 1);
        assert_eq!(stats.max_iterations, budget);
    }
}

#[test]
fn cycle_found_at_the_last_allowed_iteration() {
    let puzzle = walk_puzzle();
    let start = Walk { at: 0, turn: 6, back: 3 };
    let stats = explore_trajectory(&puzzle, start.clone(), &[twist(0)], 7, 1);
    assert!(stats.reached_cycle);
    assert_eq!((stats.transient_length, stats.period), (3, Some(4)));
    let stats = explore_trajectory(&puzzle, start, &[twist(0)], 6, 1);
    assert!(!stats.reached_cycle);
    assert_eq!(stats.unique_states_visited, 7);
}

#[test]
fn zero_budget_records_the_initial_state_only() {
    let puzzle = walk_puzzle();
    let stats = explore_trajectory(&puzzle, Walk { at: 1, turn: 1, back: 1 }, &[twist(0)], 0, 1);
    assert!(!stats.reached_cycle);
    assert_eq!(stats.period, None);
    assert_eq!(stats.unique_states_visited, 1);
}

#[test]
fn empty_move_sequence_is_the_identity_map() {
    let puzzle = walk_puzzle();
    let stats = explore_trajectory(&puzzle, Walk { at: 0, turn: 6, back: 3 }, &[], 10, 1);
    assert!(stats.reached_cycle);
    assert_eq!(stats.period, Some(1));
    assert_eq!(stats.transient_length, 0);
    assert!(stats.move_sequence.is_empty());
}

#[test]
fn blocked_twist_ends_the_iteration_not_the_run() {
    let start = Walk { at: 0, turn: 6, back: 3 };
    // The step is made, the blocked twist stops the rest of the sequence.
    let (state, applied) = apply_moves(start.clone(), &[twist(0), twist(2), twist(0)]);
    assert_eq!(applied, 1);
    assert_eq!(state.at, 1);
    let (state, applied) = apply_moves(start.clone(), &[twist(2), twist(0)]);
    assert_eq!(applied, 0);
    assert_eq!(state, start);
    let (state, applied) = apply_moves(start.clone(), &[twist(0), twist(0), twist(0)]);
    assert_eq!(applied, 3);
    assert_eq!(state.at, 3);

    let puzzle = walk_puzzle();
    // One step per iteration gets through: the run goes on as with "step".
    let stats =
        explore_trajectory(&puzzle, start.clone(), &[twist(0), twist(2), twist(0)], 100, 1);
    assert!(stats.reached_cycle);
    assert_eq!((stats.transient_length, stats.period), (3, Some(4)));
    // Nothing gets through: the state is seen again at once.
    let stats = explore_trajectory(&puzzle, start, &[twist(2), twist(0)], 100, 1);
    assert!(stats.reached_cycle);
    assert_eq!((stats.transient_length, stats.period), (0, Some(1)));
    assert_eq!(stats.unique_states_visited, 1);
}

#[test]
fn summary_carries_the_puzzle_and_the_move_names() {
    let puzzle = sticker_puzzle();
    let moves = vec![twist(0), twist(3), twist(42), twist(0), twist(65535)];
    let stats = explore_trajectory(&puzzle, Stickers::solved(), &moves, 5, 4);
    assert_eq!(stats.puzzle_id, "stickers:8");
    assert_eq!(stats.puzzle_name, "Eight stickers");
    assert_eq!(stats.dimension, 4);
    assert_eq!(stats.max_iterations, 5);
    assert_eq!(stats.move_sequence, vec!["R", "U'", "?42", "R", "?65535"]);
}

#[test]
fn twist_names_and_lookups() {
    let puzzle = sticker_puzzle();
    assert_eq!(puzzle.twist_name(Twist(2)), "U");
    assert_eq!(puzzle.twist_name(Twist(9)), "?9");
    assert_eq!(puzzle.twist_name(Twist(0)), "R");
    assert_eq!(puzzle.id_from_name("U'"), Some(Twist(3)));
    assert_eq!(puzzle.id_from_name("u"), None);
    assert_eq!(puzzle.twist_from_name("R'").map(|t| t.reverse), Some(Twist(0)));
    assert!(puzzle.twist_from_name("").is_none());
    assert_eq!(puzzle.twist_from_id(Twist(1)).map(|t| t.name.as_str()), Some("R'"));
    assert!(puzzle.twist_from_id(Twist(4)).is_none());
    let names = puzzle.move_names(&[twist(1), twist(100)]);
    assert_eq!(names, vec!["R'", "?100"]);
}

#[test]
fn explorer_step_by_step() {
    let explorer = Explorer::new(b"a", 10);
    assert!(!explorer.is_finished());
    assert_eq!(explorer.iterations(), 0);
    assert_eq!(explorer.unique_states_visited(), 1);
    assert_eq!(explorer.max_iterations(), 10);

    let explorer = explorer.observe(b"b");
    assert!(!explorer.is_finished());
    assert_eq!(explorer.iterations(), 1);
    assert_eq!(explorer.unique_states_visited(), 2);
    assert_eq!(explorer.period(), None);

    let explorer = explorer.observe(b"c");
    let explorer = explorer.observe(b"b");
    assert!(explorer.is_finished());
    assert!(explorer.reached_cycle());
    assert_eq!(explorer.iterations(), 3);
    assert_eq!(explorer.transient_length(), 1);
    assert_eq!(explorer.period(), Some(2));
    assert_eq!(explorer.unique_states_visited(), 3);

    // A finished run takes nothing more.
    let explorer = explorer.observe(b"d");
    assert_eq!(explorer.iterations(), 3);
    assert_eq!(explorer.transient_length(), 1);
    assert_eq!(explorer.period(), Some(2));
    assert_eq!(explorer.unique_states_visited(), 3);
}

#[test]
fn explorer_stops_at_the_budget() {
    let mut explorer = Explorer::new(&[0], 3);
    for k in 1..=3u8 {
        assert!(!explorer.is_finished());
        explorer = explorer.observe(&[k]);
    }
    assert!(explorer.is_finished());
    assert!(!explorer.reached_cycle());
    assert_eq!(explorer.unique_states_visited(), 4);
    let explorer = explorer.observe(&[0]);
    assert!(!explorer.reached_cycle());
    assert_eq!(explorer.iterations(), 3);
    assert_eq!(explorer.unique_states_visited(), 4);
}

#[test]
fn explorer_summary_of_a_run() {
    let puzzle = sticker_puzzle();
    let explorer = Explorer::new(b"x", 9).observe(b"y").observe(b"y");
    let stats = explorer.summarize(&puzzle, &[twist(2)], 3, 1234);
    assert_eq!(stats.puzzle_id, "stickers:8");
    assert_eq!(stats.move_sequence, vec!["U"]);
    assert_eq!(stats.period, Some(1));
    assert_eq!(stats.transient_length, 1);
    assert_eq!(stats.unique_states_visited, 2);
    assert_eq!(stats.max_iterations, 9);
    assert!(stats.reached_cycle);
    assert_eq!(stats.exploration_time_ms, 1234);
    assert_eq!(stats.dimension, 3);
}

#[test]
fn next_step_walks_the_sequence_and_stops_when_blocked() {
    let moves = [twist(0), twist(2), twist(1)];
    assert_eq!(next_step(&moves, 0, false), Step::Twist(twist(0)));
    assert_eq!(next_step(&moves, 1, false), Step::Twist(twist(2)));
    assert_eq!(next_step(&moves, 2, false), Step::Twist(twist(1)));
    assert_eq!(next_step(&moves, 3, false), Step::Snapshot);
    assert_eq!(next_step(&moves, 4, false), Step::Snapshot);
    assert_eq!(next_step(&moves, 0, true), Step::Snapshot);
    assert_eq!(next_step(&moves, 1, true), Step::Snapshot);
    assert_eq!(next_step(&[], 0, false), Step::Snapshot);
}
