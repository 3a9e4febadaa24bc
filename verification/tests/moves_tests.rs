use pocket_cube::codec::{get_piece_in_position, get_solved_cube, Cube, Movement};
use pocket_cube::moves::move_cube;

fn pieces_of(cube: &Cube) -> [(u8, u8); 8] {
    let mut out = [(0u8, 0u8); 8];
    for slot in 0..8 {
        out[slot] = get_piece_in_position(cube, slot);
    }
    out
}

#[test]
fn right_move_table_on_solved() {
    let solved = get_solved_cube();
    let turned = move_cube(&solved, Movement::RIGHT);
    let p = pieces_of(&turned);
    assert_eq!(p, [(0, 0), (3, 2), (2, 0), (7, 1), (4, 0), (1, 1), (6, 0), (5, 2)]);
    assert_eq!(turned.prev_hash, solved.hash);
    assert_eq!(turned.prev_move, Movement::RIGHT);
    assert_eq!(turned.depth, 1);
}

#[test]
fn down_move_table_on_solved() {
    let solved = get_solved_cube();
    let turned = move_cube(&solved, Movement::DOWN);
    let p = pieces_of(&turned);
    assert_eq!(p, [(0, 0), (1, 0), (2, 0), (3, 0), (5, 0), (7, 0), (4, 0), (6, 0)]);
}

#[test]
fn back_move_table_on_solved() {
    let solved = get_solved_cube();
    let turned = move_cube(&solved, Movement::BACK);
    let p = pieces_of(&turned);
    assert_eq!(p, [(1, 2), (5, 1), (2, 0), (3, 0), (0, 1), (4, 2), (6, 0), (7, 0)]);
}

#[test]
fn four_turns_of_one_face_restore_solved() {
    for m in [Movement::DOWN, Movement::BACK, Movement::RIGHT] {
        let solved = get_solved_cube();
        let mut cube = solved.hash;
        let mut c = solved;
        for _ in 0..4 {
            c = move_cube(&c, m);
        }
        assert_eq!(c.hash, cube);
        // Three turns are the inverse turn, not the identity.
        let mut c3 = get_solved_cube();
        for _ in 0..3 {
            c3 = move_cube(&c3, m);
        }
        assert_ne!(c3.hash, cube);
        cube = c3.hash;
        let back = move_cube(&c3, m);
        assert_ne!(back.hash, cube);
        assert_eq!(back.hash, get_solved_cube().hash);
    }
}

#[test]
fn moves_keep_identities_a_permutation() {
    let mut c = get_solved_cube();
    let scramble = [
        Movement::RIGHT,
        Movement::DOWN,
        Movement::BACK,
        Movement::RIGHT,
        Movement::RIGHT,
        Movement::BACK,
        Movement::DOWN,
    ];
    for m in scramble {
        c = move_cube(&c, m);
        let mut seen = [false; 8];
        for slot in 0..8 {
            let (id, rot) = get_piece_in_position(&c, slot);
            assert!(id < 8);
            assert!(rot < 3);
            assert!(!seen[id as usize]);
            seen[id as usize] = true;
        }
    }
}
