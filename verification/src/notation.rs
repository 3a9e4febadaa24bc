//! The notation compressor: renders a move list in compact cube notation
//! with run-length suffixes. The list arrives goal-to-root from the search
//! engine, so it is consumed from its last element down, which is forward
//! solve order.

use vstd::prelude::*;
use vstd::string::StringExecFns;
use crate::codec::Movement;

verus! {

/// The single-letter token of a generator move.
pub open spec fn spec_letter(m: Movement) -> char {
    match m {
        Movement::RIGHT => 'R',
        Movement::DOWN => 'D',
        Movement::BACK => 'B',
    }
}

/// The separator that precedes the rendering of the remaining moves: one
/// space, unless nothing remains.
pub open spec fn spec_sep(rest: Seq<Movement>) -> Seq<char> {
    if rest.len() == 0 {
        Seq::<char>::empty()
    } else {
        seq![' ']
    }
}

/// The compressed rendering of a move list stored goal-to-root. Reading
/// from the end: a run of exactly 3 equal moves renders as the letter
/// followed by an apostrophe (three quarter-turns are the inverse turn), a
/// run of exactly 2 renders as `2` followed by the letter, and a single
/// move renders as its letter alone; tokens are separated by single spaces.
pub open spec fn spec_compress(ms: Seq<Movement>) -> Seq<char>
    decreases ms.len(),
{
    if ms.len() == 0 {
        Seq::<char>::empty()
    } else {
        let n = ms.len() as int;
        if n >= 3 && ms[n - 1] == ms[n - 2] && ms[n - 2] == ms[n - 3] {
            let rest = ms.take(n - 3);
            seq![spec_letter(ms[n - 1]), '\''] + spec_sep(rest) + spec_compress(rest)
        } else if n >= 2 && ms[n - 1] == ms[n - 2] {
            let rest = ms.take(n - 2);
            seq!['2', spec_letter(ms[n - 1])] + spec_sep(rest) + spec_compress(rest)
        } else {
            let rest = ms.take(n - 1);
            seq![spec_letter(ms[n - 1])] + spec_sep(rest) + spec_compress(rest)
        }
    }
}

/// The letter a generator move prints as: `R`, `D` or `B`.
pub fn move_letter(movement: Movement) -> (c: char)
    ensures
        c == spec_letter(movement),
{
    match movement {
        Movement::RIGHT => 'R',
        Movement::DOWN => 'D',
        Movement::BACK => 'B',
    }
}

/// Appends the letter of `movement` to the output string.
fn append_move_letter(out: &mut String, movement: Movement)
    ensures
        final (out)@ == old(out)@ + seq![spec_letter(movement)],
{
    match movement {
        Movement::RIGHT => {
            out.append("R");
            proof {
                reveal_strlit("R");
                assert("R"@ =~= seq![spec_letter(movement)]);
            }
        },
        Movement::DOWN => {
            out.append("D");
            proof {
                reveal_strlit("D");
                assert("D"@ =~= seq![spec_letter(movement)]);
            }
        },
        Movement::BACK => {
            out.append("B");
            proof {
                reveal_strlit("B");
                assert("B"@ =~= seq![spec_letter(movement)]);
            }
        },
    }
}

/// Renders a goal-to-root move list as its compressed notation string.
pub fn compress_moves(moves: &Vec<Movement>) -> (s: String)
    ensures
        s@ == spec_compress(moves@),
{
    let mut out = String::new();
    let mut i: usize = moves.len();
    proof {
        assert(moves@.take(i as int) =~= moves@);
        assert(out@ + spec_compress(moves@) =~= spec_compress(moves@));
    }
    while i > 0
        invariant
            i <= moves@.len(),
            out@ + spec_compress(moves@.take(i as int)) == spec_compress(moves@),
        decreases i,
    {
        let ghost old_out = out@;
        let ghost pre = moves@.take(i as int);
        let ghost mut token: Seq<char> = Seq::<char>::empty();
        let m = moves[i - 1];
        if i > 1 && moves[i - 1] == moves[i - 2] {
            if i > 2 && moves[i - 2] == moves[i - 3] {
                append_move_letter(&mut out, m);
                out.append("'");
                i -= 3;
                proof {
                    reveal_strlit("'");
                    token = seq![spec_letter(m), '\''];
                    assert(spec_compress(pre) == token + spec_sep(pre.take(i as int))
                        + spec_compress(pre.take(i as int)));
                    assert(out@ =~= old_out + token);
                }
            } else {
                out.append("2");
                append_move_letter(&mut out, m);
                i -= 2;
                proof {
                    reveal_strlit("2");
                    token = seq!['2', spec_letter(m)];
                    assert(spec_compress(pre) == token + spec_sep(pre.take(i as int))
                        + spec_compress(pre.take(i as int)));
                    assert(out@ =~= old_out + token);
                }
            }
        } else {
            append_move_letter(&mut out, m);
            i -= 1;
            proof {
                token = seq![spec_letter(m)];
                assert(spec_compress(pre) == token + spec_sep(pre.take(i as int))
                    + spec_compress(pre.take(i as int)));
                assert(out@ =~= old_out + token);
            }
        }
        if i > 0 {
            out.append(" ");
        }
        proof {
            let rest = moves@.take(i as int);
            assert(pre.take(i as int) =~= rest);
            if i > 0 {
                reveal_strlit(" ");
                assert(" "@ =~= seq![' ']);
                assert(out@ =~= old_out + token + spec_sep(rest));
            } else {
                assert(out@ =~= old_out + token + spec_sep(rest));
            }
            assert(out@ + spec_compress(rest) =~= old_out + spec_compress(pre));
        }
    }
    proof {
        assert(moves@.take(0) =~= Seq::<Movement>::empty());
        assert(out@ + spec_compress(moves@.take(0)) =~= out@);
    }
    out
}

} // verus!
