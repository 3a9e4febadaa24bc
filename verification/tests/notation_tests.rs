use pocket_cube::codec::Movement;
use pocket_cube::notation::{compress_moves, move_letter};

// The compressor consumes its input from the last element down, so a
// forward sequence is stored reversed, goal-to-root.
fn rev(forward: &[Movement]) -> Vec<Movement> {
    forward.iter().rev().copied().collect()
}

#[test]
fn letters_of_the_three_moves() {
    assert_eq!(move_letter(Movement::RIGHT), 'R');
    assert_eq!(move_letter(Movement::DOWN), 'D');
    assert_eq!(move_letter(Movement::BACK), 'B');
}

#[test]
fn triple_run_compresses_to_prime() {
    let moves = rev(&[Movement::RIGHT, Movement::RIGHT, Movement::RIGHT]);
    assert_eq!(compress_moves(&moves), "R'");
}

#[test]
fn double_run_compresses_to_two_prefix() {
    let moves = rev(&[Movement::RIGHT, Movement::RIGHT]);
    assert_eq!(compress_moves(&moves), "2R");
}

#[test]
fn distinct_moves_stay_single_letters() {
    let moves = rev(&[Movement::RIGHT, Movement::DOWN, Movement::BACK]);
    assert_eq!(compress_moves(&moves), "R D B");
}

#[test]
fn empty_sequence_compresses_to_empty_string() {
    let moves: Vec<Movement> = Vec::new();
    assert_eq!(compress_moves(&moves), "");
}

#[test]
fn mixed_runs_compress_in_forward_order() {
    let moves = rev(&[
        Movement::RIGHT,
        Movement::RIGHT,
        Movement::DOWN,
        Movement::BACK,
        Movement::BACK,
        Movement::BACK,
        Movement::RIGHT,
    ]);
    assert_eq!(compress_moves(&moves), "2R D B' R");
}

#[test]
fn four_equal_moves_split_as_prime_then_single() {
    // A run of four: the first three compress to the prime, one remains.
    let moves = rev(&[Movement::DOWN, Movement::DOWN, Movement::DOWN, Movement::DOWN]);
    assert_eq!(compress_moves(&moves), "D' D");
}
