use pocket_cube::codec::{encode_pieces, get_color, get_piece_in_position, get_solved_cube, Cube, Movement};

fn cube_with_hash(hash: u64) -> Cube {
    Cube { hash, prev_hash: 0, prev_move: Movement::RIGHT, depth: 0 }
}

#[test]
fn round_trip_every_slot_and_pair() {
    for slot in 0..8usize {
        for id in 0..8u8 {
            for rot in 0..3u8 {
                let mut pieces = [(0u8, 0u8); 8];
                pieces[slot] = (id, rot);
                let state = encode_pieces(&pieces);
                let cube = cube_with_hash(state);
                for s in 0..8usize {
                    let (got_id, got_rot) = get_piece_in_position(&cube, s);
                    if s == slot {
                        assert_eq!((got_id, got_rot), (id, rot));
                    } else {
                        assert_eq!((got_id, got_rot), (0, 0));
                    }
                }
            }
        }
    }
}

#[test]
fn encode_matches_shifted_sum() {
    let pieces = [(0u8, 0u8), (1, 0), (2, 0), (3, 0), (4, 0), (5, 0), (6, 0), (7, 0)];
    let state = encode_pieces(&pieces);
    let mut expected = 0u64;
    for i in 0..8 {
        expected += (pieces[i].0 as u64) << (i * 5);
        expected += (pieces[i].1 as u64) << (i * 5 + 3);
    }
    assert_eq!(state, expected);
}

#[test]
fn solved_cube_encoding() {
    let solved = get_solved_cube();
    assert_eq!(solved.hash, 0b00_111_00_110_00_101_00_100_00_011_00_010_00_001_00_000u64);
    assert_eq!(solved.depth, 0);
    for slot in 0..8usize {
        let (id, rot) = get_piece_in_position(&solved, slot);
        assert_eq!(id as usize, slot);
        assert_eq!(rot, 0);
    }
}

#[test]
fn color_palette() {
    assert_eq!(get_color(0, 0), 'W');
    assert_eq!(get_color(0, 1), 'G');
    assert_eq!(get_color(0, 2), 'O');
    assert_eq!(get_color(1, 0), 'W');
    assert_eq!(get_color(1, 1), 'O');
    assert_eq!(get_color(1, 2), 'B');
    assert_eq!(get_color(2, 1), 'R');
    assert_eq!(get_color(3, 2), 'R');
    assert_eq!(get_color(4, 0), 'Y');
    assert_eq!(get_color(5, 1), 'B');
    assert_eq!(get_color(6, 2), 'R');
    assert_eq!(get_color(7, 2), 'B');
}

#[test]
fn color_rotation_wraps_modulo_three() {
    assert_eq!(get_color(0, 3), 'W');
    assert_eq!(get_color(0, 4), 'G');
    assert_eq!(get_color(7, 5), 'B');
}
