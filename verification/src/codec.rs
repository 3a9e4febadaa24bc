//! The state codec: a cube state is a single `u64` in which each of the 8
//! positional slots owns a 5-bit field, 3 bits of piece identity followed by
//! 2 bits of orientation, at bit offset `slot * 5`.

use vstd::prelude::*;

verus! {

/// One of the three generator moves, named by the face it turns.
#[derive(Debug, Copy, Clone, PartialEq, Eq, Structural)]
pub enum Movement {
    BACK,
    DOWN,
    RIGHT,
}

/// A search node: a cube state together with the link by which the search
/// first reached it (parent state, the move that produced it, and its depth
/// from the root of the search).
pub struct Cube {
    pub hash: u64,
    pub prev_hash: u64,
    pub prev_move: Movement,
    pub depth: u64,
}

/// The packed encoding of the solved state: slot `i` holds piece identity
/// `i` at orientation 0, for every slot.
pub const SOLVED_HASH: u64 = 0b00_111_00_110_00_101_00_100_00_011_00_010_00_001_00_000u64;

/// All states produced by the codec fit in 40 bits: 8 slots of 5 bits each.
pub const STATE_BOUND: u64 = 0x100_0000_0000u64;

/// The piece identity stored at `slot`: the 3-bit field at offset `slot * 5`.
pub open spec fn piece_id(state: u64, slot: int) -> u64 {
    (state >> ((5 * slot) as u64)) & 0b111
}

/// The orientation stored at `slot`: the 2-bit field at offset `slot * 5 + 3`.
pub open spec fn piece_rot(state: u64, slot: int) -> u64 {
    (state >> ((5 * slot + 3) as u64)) & 0b11
}

/// The packed state holding the given 8 (identity, orientation) pairs,
/// slot by slot: identity `p[i].0` in bits `[5i, 5i+3)` and orientation
/// `p[i].1` in bits `[5i+3, 5i+5)`.
#[verifier::opaque]
pub open spec fn spec_encode(p: Seq<(u8, u8)>) -> u64
    recommends
        p.len() == 8,
{
    (p[0].0 as u64) | ((p[0].1 as u64) << 3u64) | ((p[1].0 as u64) << 5u64) | ((p[1].1 as u64)
        << 8u64) | ((p[2].0 as u64) << 10u64) | ((p[2].1 as u64) << 13u64) | ((p[3].0 as u64)
        << 15u64) | ((p[3].1 as u64) << 18u64) | ((p[4].0 as u64) << 20u64) | ((p[4].1 as u64)
        << 23u64) | ((p[5].0 as u64) << 25u64) | ((p[5].1 as u64) << 28u64) | ((p[6].0 as u64)
        << 30u64) | ((p[6].1 as u64) << 33u64) | ((p[7].0 as u64) << 35u64) | ((p[7].1 as u64)
        << 38u64)
}

/// Every decoded identity fits in 3 bits and every decoded orientation in 2,
/// whatever the state holds.
pub proof fn lemma_field_bounds(state: u64, slot: int)
    requires
        0 <= slot < 8,
    ensures
        piece_id(state, slot) < 8,
        piece_rot(state, slot) < 4,
{
    let sh: u64 = (5 * slot) as u64;
    let sh2: u64 = (5 * slot + 3) as u64;
    assert((state >> sh) & 0b111 < 8 && (state >> sh2) & 0b11 < 4) by (bit_vector);
}

/// Decoding is the left inverse of encoding: every slot of the packed state
/// yields back exactly the pair that was packed into it, and the packed
/// state fits in 40 bits.
pub proof fn lemma_encode_fields(p: Seq<(u8, u8)>)
    requires
        p.len() == 8,
        forall|i: int| 0 <= i < 8 ==> (#[trigger] p[i]).0 < 8 && p[i].1 < 4,
    ensures
        spec_encode(p) < STATE_BOUND,
        forall|slot: int|
            0 <= slot < 8 ==> piece_id(spec_encode(p), slot) == p[slot].0 as u64 && piece_rot(
                spec_encode(p),
                slot,
            ) == p[slot].1 as u64,
{
    let i0 = p[0].0;
    let r0 = p[0].1;
    let i1 = p[1].0;
    let r1 = p[1].1;
    let i2 = p[2].0;
    let r2 = p[2].1;
    let i3 = p[3].0;
    let r3 = p[3].1;
    let i4 = p[4].0;
    let r4 = p[4].1;
    let i5 = p[5].0;
    let r5 = p[5].1;
    let i6 = p[6].0;
    let r6 = p[6].1;
    let i7 = p[7].0;
    let r7 = p[7].1;
    let e = spec_encode(p);
    reveal(spec_encode);
    assert(e == (i0 as u64) | ((r0 as u64) << 3u64) | ((i1 as u64) << 5u64) | ((r1 as u64)
        << 8u64) | ((i2 as u64) << 10u64) | ((r2 as u64) << 13u64) | ((i3 as u64) << 15u64) | ((
    r3 as u64) << 18u64) | ((i4 as u64) << 20u64) | ((r4 as u64) << 23u64) | ((i5 as u64)
        << 25u64) | ((r5 as u64) << 28u64) | ((i6 as u64) << 30u64) | ((r6 as u64) << 33u64) | ((
    i7 as u64) << 35u64) | ((r7 as u64) << 38u64));
    assert(e < 0x100_0000_0000u64 && (e >> 0u64) & 0b111 == i0 as u64 && (e >> 3u64) & 0b11
        == r0 as u64 && (e >> 5u64) & 0b111 == i1 as u64 && (e >> 8u64) & 0b11 == r1 as u64 && (e
        >> 10u64) & 0b111 == i2 as u64 && (e >> 13u64) & 0b11 == r2 as u64 && (e >> 15u64) & 0b111
        == i3 as u64 && (e >> 18u64) & 0b11 == r3 as u64 && (e >> 20u64) & 0b111 == i4 as u64 && (e
        >> 23u64) & 0b11 == r4 as u64 && (e >> 25u64) & 0b111 == i5 as u64 && (e >> 28u64) & 0b11
        == r5 as u64 && (e >> 30u64) & 0b111 == i6 as u64 && (e >> 33u64) & 0b11 == r6 as u64 && (e
        >> 35u64) & 0b111 == i7 as u64 && (e >> 38u64) & 0b11 == r7 as u64) by (bit_vector)
        requires
            e == (i0 as u64) | ((r0 as u64) << 3u64) | ((i1 as u64) << 5u64) | ((r1 as u64)
                << 8u64) | ((i2 as u64) << 10u64) | ((r2 as u64) << 13u64) | ((i3 as u64)
                << 15u64) | ((r3 as u64) << 18u64) | ((i4 as u64) << 20u64) | ((r4 as u64)
                << 23u64) | ((i5 as u64) << 25u64) | ((r5 as u64) << 28u64) | ((i6 as u64)
                << 30u64) | ((r6 as u64) << 33u64) | ((i7 as u64) << 35u64) | ((r7 as u64)
                << 38u64),
            i0 < 8,
            r0 < 4,
            i1 < 8,
            r1 < 4,
            i2 < 8,
            r2 < 4,
            i3 < 8,
            r3 < 4,
            i4 < 8,
            r4 < 4,
            i5 < 8,
            r5 < 4,
            i6 < 8,
            r6 < 4,
            i7 < 8,
            r7 < 4,
    ;
    assert forall|slot: int| 0 <= slot < 8 implies piece_id(e, slot) == p[slot].0 as u64
        && piece_rot(e, slot) == p[slot].1 as u64 by {
        if slot == 0 {
            assert(piece_id(e, 0) == (e >> 0u64) & 0b111);
            assert(piece_rot(e, 0) == (e >> 3u64) & 0b11);
        } else if slot == 1 {
            assert(piece_id(e, 1) == (e >> 5u64) & 0b111);
            assert(piece_rot(e, 1) == (e >> 8u64) & 0b11);
        } else if slot == 2 {
            assert(piece_id(e, 2) == (e >> 10u64) & 0b111);
            assert(piece_rot(e, 2) == (e >> 13u64) & 0b11);
        } else if slot == 3 {
            assert(piece_id(e, 3) == (e >> 15u64) & 0b111);
            assert(piece_rot(e, 3) == (e >> 18u64) & 0b11);
        } else if slot == 4 {
            assert(piece_id(e, 4) == (e >> 20u64) & 0b111);
            assert(piece_rot(e, 4) == (e >> 23u64) & 0b11);
        } else if slot == 5 {
            assert(piece_id(e, 5) == (e >> 25u64) & 0b111);
            assert(piece_rot(e, 5) == (e >> 28u64) & 0b11);
        } else if slot == 6 {
            assert(piece_id(e, 6) == (e >> 30u64) & 0b111);
            assert(piece_rot(e, 6) == (e >> 33u64) & 0b11);
        } else {
            assert(piece_id(e, 7) == (e >> 35u64) & 0b111);
            assert(piece_rot(e, 7) == (e >> 38u64) & 0b11);
        }
    }
}

/// Extracts the (identity, orientation) pair stored at slot `piece_number`
/// of the packed state.
pub fn get_piece_in_position(cube: &Cube, piece_number: usize) -> (r: (u8, u8))
    requires
        piece_number < 8,
    ensures
        r.0 as u64 == piece_id(cube.hash, piece_number as int),
        r.1 as u64 == piece_rot(cube.hash, piece_number as int),
        r.0 < 8,
        r.1 < 4,
{
    let shift: u64 = (piece_number as u64) * 5;
    let piece_mask: u64 = 0b111u64 << shift;
    let rotation_mask: u64 = 0b11u64 << (shift + 3);
    let id_bits = ((cube.hash & piece_mask) >> shift) as u8;
    let rot_bits = ((cube.hash & rotation_mask) >> (shift + 3)) as u8;
    proof {
        let h = cube.hash;
        let sh: u64 = ((piece_number as u64) * 5) as u64;
        assert((h & (0b111u64 << sh)) >> sh == (h >> sh) & 0b111 && (h >> sh) & 0b111 < 8 && (h & (
        0b11u64 << (sh + 3))) >> (sh + 3) == (h >> (sh + 3)) & 0b11 && (h >> (sh + 3)) & 0b11 < 4)
            by (bit_vector)
            requires
                sh < 40u64,
        ;
    }
    (id_bits, rot_bits)
}

/// Packs 8 (identity, orientation) pairs into a single state, slot by slot.
pub fn encode_pieces(pieces: &[(u8, u8); 8]) -> (state: u64)
    requires
        forall|i: int| 0 <= i < 8 ==> (#[trigger] pieces@[i]).0 < 8 && pieces@[i].1 < 4,
    ensures
        state == spec_encode(pieces@),
        state < STATE_BOUND,
        forall|slot: int|
            0 <= slot < 8 ==> piece_id(state, slot) == pieces@[slot].0 as u64 && piece_rot(
                state,
                slot,
            ) == pieces@[slot].1 as u64,
{
    let state = (pieces[0].0 as u64) | ((pieces[0].1 as u64) << 3u64) | ((pieces[1].0 as u64)
        << 5u64) | ((pieces[1].1 as u64) << 8u64) | ((pieces[2].0 as u64) << 10u64) | ((
    pieces[2].1 as u64) << 13u64) | ((pieces[3].0 as u64) << 15u64) | ((pieces[3].1 as u64)
        << 18u64) | ((pieces[4].0 as u64) << 20u64) | ((pieces[4].1 as u64) << 23u64) | ((
    pieces[5].0 as u64) << 25u64) | ((pieces[5].1 as u64) << 28u64) | ((pieces[6].0 as u64)
        << 30u64) | ((pieces[6].1 as u64) << 33u64) | ((pieces[7].0 as u64) << 35u64) | ((
    pieces[7].1 as u64) << 38u64);
    proof {
        reveal(spec_encode);
        lemma_encode_fields(pieces@);
    }
    state
}

/// Two 40-bit states whose 8 decoded fields agree are the same state: the
/// fields cover all 40 bits, so decoding determines the encoding.
pub proof fn lemma_state_determined_by_fields(a: u64, b: u64)
    requires
        a < STATE_BOUND,
        b < STATE_BOUND,
        forall|slot: int|
            0 <= slot < 8 ==> piece_id(a, slot) == piece_id(b, slot) && #[trigger] piece_rot(
                a,
                slot,
            ) == piece_rot(b, slot),
    ensures
        a == b,
{
    assert(piece_id(a, 0) == (a >> 0u64) & 0b111 && piece_rot(a, 0) == (a >> 3u64) & 0b11);
    assert(piece_id(a, 1) == (a >> 5u64) & 0b111 && piece_rot(a, 1) == (a >> 8u64) & 0b11);
    assert(piece_id(a, 2) == (a >> 10u64) & 0b111 && piece_rot(a, 2) == (a >> 13u64) & 0b11);
    assert(piece_id(a, 3) == (a >> 15u64) & 0b111 && piece_rot(a, 3) == (a >> 18u64) & 0b11);
    assert(piece_id(a, 4) == (a >> 20u64) & 0b111 && piece_rot(a, 4) == (a >> 23u64) & 0b11);
    assert(piece_id(a, 5) == (a >> 25u64) & 0b111 && piece_rot(a, 5) == (a >> 28u64) & 0b11);
    assert(piece_id(a, 6) == (a >> 30u64) & 0b111 && piece_rot(a, 6) == (a >> 33u64) & 0b11);
    assert(piece_id(a, 7) == (a >> 35u64) & 0b111 && piece_rot(a, 7) == (a >> 38u64) & 0b11);
    assert(piece_id(b, 0) == (b >> 0u64) & 0b111 && piece_rot(b, 0) == (b >> 3u64) & 0b11);
    assert(piece_id(b, 1) == (b >> 5u64) & 0b111 && piece_rot(b, 1) == (b >> 8u64) & 0b11);
    assert(piece_id(b, 2) == (b >> 10u64) & 0b111 && piece_rot(b, 2) == (b >> 13u64) & 0b11);
    assert(piece_id(b, 3) == (b >> 15u64) & 0b111 && piece_rot(b, 3) == (b >> 18u64) & 0b11);
    assert(piece_id(b, 4) == (b >> 20u64) & 0b111 && piece_rot(b, 4) == (b >> 23u64) & 0b11);
    assert(piece_id(b, 5) == (b >> 25u64) & 0b111 && piece_rot(b, 5) == (b >> 28u64) & 0b11);
    assert(piece_id(b, 6) == (b >> 30u64) & 0b111 && piece_rot(b, 6) == (b >> 33u64) & 0b11);
    assert(piece_id(b, 7) == (b >> 35u64) & 0b111 && piece_rot(b, 7) == (b >> 38u64) & 0b11);
    assert(a == b) by (bit_vector)
        requires
            a < 0x100_0000_0000u64,
            b < 0x100_0000_0000u64,
            (a >> 0u64) & 0b111 == (b >> 0u64) & 0b111,
            (a >> 3u64) & 0b11 == (b >> 3u64) & 0b11,
            (a >> 5u64) & 0b111 == (b >> 5u64) & 0b111,
            (a >> 8u64) & 0b11 == (b >> 8u64) & 0b11,
            (a >> 10u64) & 0b111 == (b >> 10u64) & 0b111,
            (a >> 13u64) & 0b11 == (b >> 13u64) & 0b11,
            (a >> 15u64) & 0b111 == (b >> 15u64) & 0b111,
            (a >> 18u64) & 0b11 == (b >> 18u64) & 0b11,
            (a >> 20u64) & 0b111 == (b >> 20u64) & 0b111,
            (a >> 23u64) & 0b11 == (b >> 23u64) & 0b11,
            (a >> 25u64) & 0b111 == (b >> 25u64) & 0b111,
            (a >> 28u64) & 0b11 == (b >> 28u64) & 0b11,
            (a >> 30u64) & 0b111 == (b >> 30u64) & 0b111,
            (a >> 33u64) & 0b11 == (b >> 33u64) & 0b11,
            (a >> 35u64) & 0b111 == (b >> 35u64) & 0b111,
            (a >> 38u64) & 0b11 == (b >> 38u64) & 0b11,
    ;
}

/// In the solved state, slot `i` holds piece identity `i` at orientation 0,
/// and the packed value fits in 40 bits.
pub proof fn lemma_solved_fields()
    ensures
        SOLVED_HASH < STATE_BOUND,
        forall|slot: int| 0 <= slot < 8 ==> #[trigger] piece_id(SOLVED_HASH, slot) == slot,
        forall|slot: int| 0 <= slot < 8 ==> #[trigger] piece_rot(SOLVED_HASH, slot) == 0,
{
    let s = SOLVED_HASH;
    assert(s < 0x100_0000_0000u64 && (s >> 0u64) & 0b111 == 0 && (s >> 3u64) & 0b11 == 0 && (s
        >> 5u64) & 0b111 == 1 && (s >> 8u64) & 0b11 == 0 && (s >> 10u64) & 0b111 == 2 && (s
        >> 13u64) & 0b11 == 0 && (s >> 15u64) & 0b111 == 3 && (s >> 18u64) & 0b11 == 0 && (s
        >> 20u64) & 0b111 == 4 && (s >> 23u64) & 0b11 == 0 && (s >> 25u64) & 0b111 == 5 && (s
        >> 28u64) & 0b11 == 0 && (s >> 30u64) & 0b111 == 6 && (s >> 33u64) & 0b11 == 0 && (s
        >> 35u64) & 0b111 == 7 && (s >> 38u64) & 0b11 == 0) by (bit_vector)
        requires
            s == 0b00_111_00_110_00_101_00_100_00_011_00_010_00_001_00_000u64,
    ;
    assert forall|slot: int|
        0 <= slot < 8 implies #[trigger] piece_id(s, slot) == slot && #[trigger] piece_rot(
        s,
        slot,
    ) == 0 by {
        if slot == 0 {
            assert(piece_id(s, 0) == (s >> 0u64) & 0b111 && piece_rot(s, 0) == (s >> 3u64) & 0b11);
        } else if slot == 1 {
            assert(piece_id(s, 1) == (s >> 5u64) & 0b111 && piece_rot(s, 1) == (s >> 8u64) & 0b11);
        } else if slot == 2 {
            assert(piece_id(s, 2) == (s >> 10u64) & 0b111 && piece_rot(s, 2) == (s >> 13u64)
                & 0b11);
        } else if slot == 3 {
            assert(piece_id(s, 3) == (s >> 15u64) & 0b111 && piece_rot(s, 3) == (s >> 18u64)
                & 0b11);
        } else if slot == 4 {
            assert(piece_id(s, 4) == (s >> 20u64) & 0b111 && piece_rot(s, 4) == (s >> 23u64)
                & 0b11);
        } else if slot == 5 {
            assert(piece_id(s, 5) == (s >> 25u64) & 0b111 && piece_rot(s, 5) == (s >> 28u64)
                & 0b11);
        } else if slot == 6 {
            assert(piece_id(s, 6) == (s >> 30u64) & 0b111 && piece_rot(s, 6) == (s >> 33u64)
                & 0b11);
        } else {
            assert(piece_id(s, 7) == (s >> 35u64) & 0b111 && piece_rot(s, 7) == (s >> 38u64)
                & 0b11);
        }
    }
}

/// The solved cube: the canonical goal state at search depth 0. Its parent
/// link fields are placeholders that no search ever reads.
pub fn get_solved_cube() -> (c: Cube)
    ensures
        c.hash == SOLVED_HASH,
        c.prev_hash == 0,
        c.prev_move == Movement::RIGHT,
        c.depth == 0,
{
    Cube { hash: SOLVED_HASH, prev_hash: 0, prev_move: Movement::RIGHT, depth: 0 }
}

/// The sticker letter a piece shows: each identity owns a fixed 3-letter
/// palette, indexed by the orientation taken modulo 3.
pub open spec fn spec_color(id: u64, rotation: u64) -> char {
    let r = rotation % 3;
    if id == 0 {
        if r == 0 {
            'W'
        } else if r == 1 {
            'G'
        } else {
            'O'
        }
    } else if id == 1 {
        if r == 0 {
            'W'
        } else if r == 1 {
            'O'
        } else {
            'B'
        }
    } else if id == 2 {
        if r == 0 {
            'W'
        } else if r == 1 {
            'R'
        } else {
            'G'
        }
    } else if id == 3 {
        if r == 0 {
            'W'
        } else if r == 1 {
            'B'
        } else {
            'R'
        }
    } else if id == 4 {
        if r == 0 {
            'Y'
        } else if r == 1 {
            'O'
        } else {
            'G'
        }
    } else if id == 5 {
        if r == 0 {
            'Y'
        } else if r == 1 {
            'B'
        } else {
            'O'
        }
    } else if id == 6 {
        if r == 0 {
            'Y'
        } else if r == 1 {
            'G'
        } else {
            'R'
        }
    } else {
        if r == 0 {
            'Y'
        } else if r == 1 {
            'R'
        } else {
            'B'
        }
    }
}

/// Looks up the sticker letter for a piece identity and orientation.
pub fn get_color(id: u8, rotation: u8) -> (c: char)
    requires
        id < 8,
    ensures
        c == spec_color(id as u64, rotation as u64),
{
    let r = rotation % 3;
    if id == 0 {
        if r == 0 {
            'W'
        } else if r == 1 {
            'G'
        } else {
            'O'
        }
    } else if id == 1 {
        if r == 0 {
            'W'
        } else if r == 1 {
            'O'
        } else {
            'B'
        }
    } else if id == 2 {
        if r == 0 {
            'W'
        } else if r == 1 {
            'R'
        } else {
            'G'
        }
    } else if id == 3 {
        if r == 0 {
            'W'
        } else if r == 1 {
            'B'
        } else {
            'R'
        }
    } else if id == 4 {
        if r == 0 {
            'Y'
        } else if r == 1 {
            'O'
        } else {
            'G'
        }
    } else if id == 5 {
        if r == 0 {
            'Y'
        } else if r == 1 {
            'B'
        } else {
            'O'
        }
    } else if id == 6 {
        if r == 0 {
            'Y'
        } else if r == 1 {
            'G'
        } else {
            'R'
        }
    } else {
        if r == 0 {
            'Y'
        } else if r == 1 {
            'R'
        } else {
            'B'
        }
    }
}

} // verus!
