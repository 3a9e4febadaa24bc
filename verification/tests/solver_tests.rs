use pocket_cube::codec::{get_solved_cube, Movement};
use pocket_cube::moves::move_cube;
use pocket_cube::notation::compress_moves;
use pocket_cube::solver::solve_cube;

const SCRAMBLE: [Movement; 14] = [
    Movement::RIGHT,
    Movement::DOWN,
    Movement::BACK,
    Movement::RIGHT,
    Movement::RIGHT,
    Movement::BACK,
    Movement::BACK,
    Movement::DOWN,
    Movement::BACK,
    Movement::RIGHT,
    Movement::RIGHT,
    Movement::RIGHT,
    Movement::BACK,
    Movement::DOWN,
];

#[test]
fn solving_the_solved_state_is_empty() {
    let solution = solve_cube(get_solved_cube());
    assert!(solution.is_empty());
}

#[test]
fn solver_is_deterministic_on_solved_state() {
    for _ in 0..3 {
        let solution = solve_cube(get_solved_cube());
        assert!(solution.is_empty());
    }
}

#[test]
fn known_scramble_solves_back_to_solved() {
    let mut cube = get_solved_cube();
    for m in SCRAMBLE {
        cube = move_cube(&cube, m);
    }
    cube.depth = 0;
    let scrambled_hash = cube.hash;
    let solved_hash = get_solved_cube().hash;
    assert_ne!(scrambled_hash, solved_hash);

    let solution = solve_cube(cube);
    assert!(!solution.is_empty());
    assert!(solution.len() <= 14);

    // The list is goal-to-root: forward order reads it from the end.
    let mut replay = pocket_cube::codec::Cube {
        hash: scrambled_hash,
        prev_hash: 0,
        prev_move: Movement::RIGHT,
        depth: 0,
    };
    for i in (0..solution.len()).rev() {
        replay = move_cube(&replay, solution[i]);
    }
    assert_eq!(replay.hash, solved_hash);
}

#[test]
fn one_move_scramble_solves_in_three() {
    let cube = get_solved_cube();
    let mut scrambled = move_cube(&cube, Movement::RIGHT);
    scrambled.depth = 0;
    let solution = solve_cube(scrambled);
    // The inverse of one quarter-turn is three quarter-turns of that face.
    assert_eq!(solution.len(), 3);
    assert_eq!(compress_moves(&solution), "R'");
}
