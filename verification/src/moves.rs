//! The move transform: each generator move is a fixed permutation of the 8
//! slots combined with fixed per-slot orientation deltas, applied modulo 3.

use vstd::prelude::*;
use crate::codec::{
    Cube,
    Movement,
    SOLVED_HASH,
    STATE_BOUND,
    encode_pieces,
    get_piece_in_position,
    lemma_encode_fields,
    lemma_field_bounds,
    lemma_solved_fields,
    lemma_state_determined_by_fields,
    piece_id,
    piece_rot,
    spec_encode,
};

verus! {

/// The slot whose piece lands in `slot` when `m` is applied: the fixed slot
/// permutation of each generator move.
pub open spec fn moved_from(m: Movement, slot: int) -> int {
    match m {
        Movement::RIGHT => if slot == 1 {
            3
        } else if slot == 3 {
            7
        } else if slot == 5 {
            1
        } else if slot == 7 {
            5
        } else {
            slot
        },
        Movement::DOWN => if slot == 4 {
            5
        } else if slot == 5 {
            7
        } else if slot == 6 {
            4
        } else if slot == 7 {
            6
        } else {
            slot
        },
        Movement::BACK => if slot == 0 {
            1
        } else if slot == 1 {
            5
        } else if slot == 4 {
            0
        } else if slot == 5 {
            4
        } else {
            slot
        },
    }
}

/// The orientation delta a piece gains when it lands in `slot` under `m`;
/// slots with delta 0 keep the incoming orientation bits unchanged.
pub open spec fn rot_delta(m: Movement, slot: int) -> u64 {
    match m {
        Movement::RIGHT => if slot == 1 || slot == 7 {
            2
        } else if slot == 3 || slot == 5 {
            1
        } else {
            0
        },
        Movement::DOWN => 0,
        Movement::BACK => if slot == 0 || slot == 5 {
            2
        } else if slot == 1 || slot == 4 {
            1
        } else {
            0
        },
    }
}

/// The (identity, orientation) pair that `slot` holds after `m` is applied
/// to `state`: the piece from `moved_from(m, slot)`, turned by the slot's
/// delta modulo 3 where the delta is nonzero.
pub open spec fn moved_pair(state: u64, m: Movement, slot: int) -> (u8, u8) {
    let src = moved_from(m, slot);
    let id = piece_id(state, src);
    let rot = if rot_delta(m, slot) == 0 {
        piece_rot(state, src) as int
    } else {
        (piece_rot(state, src) + rot_delta(m, slot)) % 3
    };
    (id as u8, rot as u8)
}

/// All 8 pairs of the successor state, slot by slot.
pub open spec fn moved_pairs(state: u64, m: Movement) -> Seq<(u8, u8)> {
    Seq::new(8, |slot: int| moved_pair(state, m, slot))
}

/// The successor state: the moved pairs packed back into a single integer.
pub open spec fn spec_move(state: u64, m: Movement) -> u64 {
    spec_encode(moved_pairs(state, m))
}

/// Field-level reading of `spec_move`: each slot of the successor state
/// decodes to exactly the pair that the move's tables assign to it, and the
/// successor fits in 40 bits.
pub proof fn lemma_move_fields(state: u64, m: Movement)
    ensures
        spec_move(state, m) < STATE_BOUND,
        forall|slot: int|
            0 <= slot < 8 ==> #[trigger] piece_id(spec_move(state, m), slot) == piece_id(
                state,
                moved_from(m, slot),
            ),
        forall|slot: int|
            0 <= slot < 8 && rot_delta(m, slot) == 0 ==> #[trigger] piece_rot(
                spec_move(state, m),
                slot,
            ) == piece_rot(state, moved_from(m, slot)),
        forall|slot: int|
            0 <= slot < 8 && rot_delta(m, slot) != 0 ==> #[trigger] piece_rot(
                spec_move(state, m),
                slot,
            ) == (piece_rot(state, moved_from(m, slot)) + rot_delta(m, slot)) % 3,
{
    let p = moved_pairs(state, m);
    assert forall|i: int| 0 <= i < 8 implies (#[trigger] p[i]).0 < 8 && p[i].1 < 4 by {
        lemma_field_bounds(state, moved_from(m, i));
    }
    lemma_encode_fields(p);
    assert forall|slot: int| 0 <= slot < 8 implies #[trigger] piece_id(spec_move(state, m), slot)
        == piece_id(state, moved_from(m, slot)) by {
        lemma_field_bounds(state, moved_from(m, slot));
        assert(piece_id(spec_move(state, m), slot) == p[slot].0 as u64);
    }
    assert forall|slot: int| 0 <= slot < 8 && rot_delta(m, slot) == 0 implies #[trigger] piece_rot(
        spec_move(state, m),
        slot,
    ) == piece_rot(state, moved_from(m, slot)) by {
        lemma_field_bounds(state, moved_from(m, slot));
        assert(piece_rot(spec_move(state, m), slot) == p[slot].1 as u64);
    }
    assert forall|slot: int| 0 <= slot < 8 && rot_delta(m, slot) != 0 implies #[trigger] piece_rot(
        spec_move(state, m),
        slot,
    ) == (piece_rot(state, moved_from(m, slot)) + rot_delta(m, slot)) % 3 by {
        lemma_field_bounds(state, moved_from(m, slot));
        assert(piece_rot(spec_move(state, m), slot) == p[slot].1 as u64);
    }
}

/// Applies one generator move to a cube: decodes the 8 pairs, permutes and
/// re-orients them by the move's fixed tables, and packs the result, linking
/// the new node to its parent at one greater depth.
#[verifier::rlimit(100)]
pub fn move_cube(cube: &Cube, movement: Movement) -> (r: Cube)
    requires
        cube.depth < u64::MAX,
    ensures
        r.hash == spec_move(cube.hash, movement),
        r.hash < STATE_BOUND,
        r.prev_hash == cube.hash,
        r.prev_move == movement,
        r.depth == cube.depth + 1,
{
    let p0 = get_piece_in_position(cube, 0);
    let p1 = get_piece_in_position(cube, 1);
    let p2 = get_piece_in_position(cube, 2);
    let p3 = get_piece_in_position(cube, 3);
    let p4 = get_piece_in_position(cube, 4);
    let p5 = get_piece_in_position(cube, 5);
    let p6 = get_piece_in_position(cube, 6);
    let p7 = get_piece_in_position(cube, 7);
    let pieces: [(u8, u8); 8] = match movement {
        Movement::RIGHT => {
            let arr = [
                p0,
                (p3.0, (p3.1 + 2) % 3),
                p2,
                (p7.0, (p7.1 + 1) % 3),
                p4,
                (p1.0, (p1.1 + 1) % 3),
                p6,
                (p5.0, (p5.1 + 2) % 3),
            ];
            proof {
                let h = cube.hash;
                assert(arr@[0] == moved_pair(h, movement, 0));
                assert(arr@[1] == moved_pair(h, movement, 1));
                assert(arr@[2] == moved_pair(h, movement, 2));
                assert(arr@[3] == moved_pair(h, movement, 3));
                assert(arr@[4] == moved_pair(h, movement, 4));
                assert(arr@[5] == moved_pair(h, movement, 5));
                assert(arr@[6] == moved_pair(h, movement, 6));
                assert(arr@[7] == moved_pair(h, movement, 7));
                assert(arr@ =~= moved_pairs(cube.hash, movement));
            }
            arr
        },
        Movement::DOWN => {
            let arr = [p0, p1, p2, p3, p5, p7, p4, p6];
            proof {
                let h = cube.hash;
                assert(arr@[0] == moved_pair(h, movement, 0));
                assert(arr@[1] == moved_pair(h, movement, 1));
                assert(arr@[2] == moved_pair(h, movement, 2));
                assert(arr@[3] == moved_pair(h, movement, 3));
                assert(arr@[4] == moved_pair(h, movement, 4));
                assert(arr@[5] == moved_pair(h, movement, 5));
                assert(arr@[6] == moved_pair(h, movement, 6));
                assert(arr@[7] == moved_pair(h, movement, 7));
                assert(arr@ =~= moved_pairs(cube.hash, movement));
            }
            arr
        },
        Movement::BACK => {
            let arr = [
                (p1.0, (p1.1 + 2) % 3),
                (p5.0, (p5.1 + 1) % 3),
                p2,
                p3,
                (p0.0, (p0.1 + 1) % 3),
                (p4.0, (p4.1 + 2) % 3),
                p6,
                p7,
            ];
            proof {
                let h = cube.hash;
                assert(arr@[0] == moved_pair(h, movement, 0));
                assert(arr@[1] == moved_pair(h, movement, 1));
                assert(arr@[2] == moved_pair(h, movement, 2));
                assert(arr@[3] == moved_pair(h, movement, 3));
                assert(arr@[4] == moved_pair(h, movement, 4));
                assert(arr@[5] == moved_pair(h, movement, 5));
                assert(arr@[6] == moved_pair(h, movement, 6));
                assert(arr@[7] == moved_pair(h, movement, 7));
                assert(arr@ =~= moved_pairs(cube.hash, movement));
            }
            arr
        },
    };
    let hash = encode_pieces(&pieces);
    Cube { hash, prev_hash: cube.hash, prev_move: movement, depth: cube.depth + 1 }
}

/// Applies a move sequence to a state in forward order: `ms[0]` first.
pub open spec fn apply_forward(state: u64, ms: Seq<Movement>) -> u64
    decreases ms.len(),
{
    if ms.len() == 0 {
        state
    } else {
        apply_forward(spec_move(state, ms[0]), ms.drop_first())
    }
}

/// Applies a move sequence stored in reverse order, last element first:
/// the order in which the search engine hands its move list back.
pub open spec fn apply_reversed(state: u64, ms: Seq<Movement>) -> u64
    decreases ms.len(),
{
    if ms.len() == 0 {
        state
    } else {
        apply_reversed(spec_move(state, ms.last()), ms.drop_last())
    }
}

/// Consuming a sequence back to front is the same as applying its reversal
/// in forward order.
pub proof fn lemma_apply_reversed_is_forward(state: u64, ms: Seq<Movement>)
    ensures
        apply_reversed(state, ms) == apply_forward(state, ms.reverse()),
    decreases ms.len(),
{
    if ms.len() > 0 {
        assert(ms.reverse()[0] == ms.last());
        assert(ms.reverse().drop_first() =~= ms.drop_last().reverse());
        lemma_apply_reversed_is_forward(spec_move(state, ms.last()), ms.drop_last());
    } else {
        assert(ms.reverse() =~= ms);
    }
}

/// Appending one move to a sequence applies it last: the states reachable
/// from any start are closed under all three generator moves.
pub proof fn lemma_apply_forward_snoc(state: u64, ms: Seq<Movement>, mv: Movement)
    ensures
        apply_forward(state, ms.push(mv)) == spec_move(apply_forward(state, ms), mv),
    decreases ms.len(),
{
    reveal_with_fuel(apply_forward, 2);
    if ms.len() == 0 {
        assert(ms.push(mv)[0] == mv);
        assert(ms.push(mv).drop_first() =~= Seq::<Movement>::empty());
    } else {
        assert(ms.push(mv)[0] == ms[0]);
        assert(ms.push(mv).drop_first() =~= ms.drop_first().push(mv));
        lemma_apply_forward_snoc(spec_move(state, ms[0]), ms.drop_first(), mv);
    }
}

/// A well-formed cube state: it fits in 40 bits, every orientation is a
/// residue modulo 3, and the 8 identities are pairwise distinct, so they
/// form a permutation of the 8 pieces.
pub open spec fn valid_state(state: u64) -> bool {
    &&& state < STATE_BOUND
    &&& forall|slot: int| 0 <= slot < 8 ==> #[trigger] piece_rot(state, slot) < 3
    &&& forall|i: int, j: int|
        0 <= i < 8 && 0 <= j < 8 && i != j ==> piece_id(state, i) != piece_id(state, j)
}

/// The solved state is well formed.
pub proof fn lemma_solved_state_valid()
    ensures
        valid_state(SOLVED_HASH),
{
    lemma_solved_fields();
}

/// Every generator move carries a well-formed state to a well-formed state:
/// it permutes the 8 identities and keeps every orientation a residue
/// modulo 3.
pub proof fn lemma_move_preserves_valid(state: u64, m: Movement)
    requires
        valid_state(state),
    ensures
        valid_state(spec_move(state, m)),
{
    lemma_move_fields(state, m);
    let s = spec_move(state, m);
    assert forall|slot: int| 0 <= slot < 8 implies #[trigger] piece_rot(s, slot) < 3 by {
        assert(0 <= moved_from(m, slot) < 8);
    }
    assert forall|i: int, j: int|
        0 <= i < 8 && 0 <= j < 8 && i != j implies piece_id(s, i) != piece_id(s, j) by {
        assert(0 <= moved_from(m, i) < 8);
        assert(0 <= moved_from(m, j) < 8);
        assert(moved_from(m, i) != moved_from(m, j));
    }
}

/// Move closure: every state reachable from the solved state by generator
/// moves is itself a well-formed state, whose identities decode to a
/// permutation of the 8 pieces.
pub proof fn lemma_reachable_states_valid(ms: Seq<Movement>)
    ensures
        valid_state(apply_forward(SOLVED_HASH, ms)),
    decreases ms.len(),
{
    lemma_solved_state_valid();
    lemma_valid_trip(SOLVED_HASH, ms);
}

/// Validity travels along any move sequence from any well-formed start.
pub proof fn lemma_valid_trip(state: u64, ms: Seq<Movement>)
    requires
        valid_state(state),
    ensures
        valid_state(apply_forward(state, ms)),
    decreases ms.len(),
{
    if ms.len() > 0 {
        lemma_move_preserves_valid(state, ms[0]);
        lemma_valid_trip(spec_move(state, ms[0]), ms.drop_first());
    }
}

/// Four quarter-turns of the same face compose to the identity on every
/// well-formed state; three therefore act as the inverse turn, which is
/// what the apostrophe of the compressed notation stands for.
pub proof fn lemma_four_turns_identity(state: u64, m: Movement)
    requires
        valid_state(state),
    ensures
        spec_move(spec_move(spec_move(spec_move(state, m), m), m), m) == state,
{
    let s1 = spec_move(state, m);
    let s2 = spec_move(s1, m);
    let s3 = spec_move(s2, m);
    let s4 = spec_move(s3, m);
    lemma_move_fields(state, m);
    lemma_move_fields(s1, m);
    lemma_move_fields(s2, m);
    lemma_move_fields(s3, m);
    assert forall|slot: int|
        0 <= slot < 8 implies piece_id(s4, slot) == piece_id(state, slot) && #[trigger] piece_rot(
        s4,
        slot,
    ) == piece_rot(state, slot) by {
        let f1 = moved_from(m, slot);
        let f2 = moved_from(m, f1);
        let f3 = moved_from(m, f2);
        let f4 = moved_from(m, f3);
        assert(0 <= f1 < 8 && 0 <= f2 < 8 && 0 <= f3 < 8 && 0 <= f4 < 8);
        assert(f4 == slot);
        assert(piece_id(s4, slot) == piece_id(state, slot));
        assert(piece_rot(s4, slot) == piece_rot(state, slot));
    }
    lemma_state_determined_by_fields(s4, state);
}

/// Applying the same generator move to the solved state four times in a row
/// returns to the solved state.
pub proof fn lemma_four_turns_solved(m: Movement)
    ensures
        spec_move(spec_move(spec_move(spec_move(SOLVED_HASH, m), m), m), m) == SOLVED_HASH,
{
    lemma_solved_state_valid();
    lemma_four_turns_identity(SOLVED_HASH, m);
}

} // verus!
