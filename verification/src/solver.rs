//! The search engine: breadth-first search over the state graph from a
//! scrambled state towards the solved state, with a parent link per visited
//! state and path reconstruction once the goal is dequeued.

use std::collections::HashMap;
use std::collections::VecDeque;
use vstd::prelude::*;
use vstd::relations::injective_on;
use vstd::set_lib::{lemma_int_range, lemma_len_subset, lemma_map_size, set_int_range};
use crate::codec::{Cube, Movement, SOLVED_HASH, STATE_BOUND, get_solved_cube};
use crate::moves::{
    apply_forward,
    apply_reversed,
    lemma_apply_reversed_is_forward,
    move_cube,
    spec_move,
};

verus! {

broadcast use vstd::std_specs::hash::group_hash_axioms;

/// A state from which some generator-move sequence reaches the solved state.
pub open spec fn solvable(state: u64) -> bool {
    exists|ms: Seq<Movement>| apply_forward(state, ms) == SOLVED_HASH
}

/// The set of all 40-bit packed states.
spec fn small_states() -> Set<u64> {
    Set::new(|h: u64| h < STATE_BOUND)
}

/// There are exactly `STATE_BOUND` packed states, so the visited set of any
/// search is finite and bounded.
proof fn lemma_small_states_card()
    ensures
        small_states().finite(),
        small_states().len() == STATE_BOUND,
{
    let r = set_int_range(0, STATE_BOUND as int);
    lemma_int_range(0, STATE_BOUND as int);
    let f = |i: int| i as u64;
    assert(injective_on(f, r)) by {
        assert forall|x1: int, x2: int|
            r.contains(x1) && r.contains(x2) && #[trigger] f(x1) == #[trigger] f(
                x2,
            ) implies x1 == x2 by {
            assert(x1 as u64 as int == x1);
            assert(x2 as u64 as int == x2);
        }
    }
    assert(r.map(f) =~= small_states()) by {
        assert forall|h: u64| small_states().contains(h) implies r.map(f).contains(h) by {
            assert(r.contains(h as int) && f(h as int) == h);
        }
        assert forall|h: u64| r.map(f).contains(h) implies small_states().contains(h) by {
            let i = choose|i: int| r.contains(i) && f(i) == h;
            assert(h == i as u64);
        }
    }
    lemma_map_size(r, small_states(), f);
}

/// What the search knows of every node it has created: the node's state
/// fits the packed encoding unless it is the root itself; its depth never
/// exceeds the number of visited states; depth 0 identifies the root; and a
/// deeper node was produced by one move from a visited parent of strictly
/// smaller depth.
spec fn node_ok(c: Cube, m: Map<u64, Cube>, root: u64) -> bool {
    &&& c.hash == root || c.hash < STATE_BOUND
    &&& c.depth <= m.dom().len()
    &&& (c.depth == 0 ==> c.hash == root)
    &&& (c.depth > 0 ==> {
        &&& m.contains_key(c.prev_hash)
        &&& m[c.prev_hash].depth < c.depth
        &&& c.hash == spec_move(c.prev_hash, c.prev_move)
    })
}

/// The visited set is sound: it never holds the solved state, and each
/// entry is stored under its own state and is a well-linked node.
spec fn map_ok(m: Map<u64, Cube>, root: u64) -> bool {
    &&& !m.contains_key(SOLVED_HASH)
    &&& forall|k: u64| #[trigger] m.contains_key(k) ==> m[k].hash == k && node_ok(m[k], m, root)
}

/// Every node waiting in the work queue is well linked.
spec fn queue_ok(q: Seq<Cube>, m: Map<u64, Cube>, root: u64) -> bool {
    forall|i: int| 0 <= i < q.len() ==> node_ok(#[trigger] q[i], m, root)
}

/// The state is either already visited or waiting in the queue.
spec fn in_map_or_queue(h: u64, m: Map<u64, Cube>, q: Seq<Cube>) -> bool {
    m.contains_key(h) || exists|i: int| 0 <= i < q.len() && (#[trigger] q[i]).hash == h
}

/// Every successor of a visited state has been seen: it is visited itself
/// or still waits in the queue. With an empty queue this makes the visited
/// set closed under all three moves.
spec fn closure_ok(m: Map<u64, Cube>, q: Seq<Cube>) -> bool {
    forall|k: u64, mv: Movement|
        m.contains_key(k) ==> in_map_or_queue(#[trigger] spec_move(k, mv), m, q)
}

/// The node `move_cube` hands back for parent `c` and move `mv`.
spec fn child_ok(child: Cube, c: Cube, mv: Movement) -> bool {
    &&& child.hash == spec_move(c.hash, mv)
    &&& child.hash < STATE_BOUND
    &&& child.prev_hash == c.hash
    &&& child.prev_move == mv
    &&& child.depth == c.depth + 1
}

/// A visited set whose states all fit the packed encoding, or are the root,
/// holds at most one node per packed state plus the root.
proof fn lemma_visited_bound(m: Map<u64, Cube>, root: u64)
    requires
        m.dom().finite(),
        forall|k: u64| #[trigger] m.contains_key(k) ==> k == root || k < STATE_BOUND,
    ensures
        m.dom().len() <= STATE_BOUND + 1,
{
    lemma_small_states_card();
    let big = small_states().insert(root);
    assert(m.dom().subset_of(big));
    lemma_len_subset(m.dom(), big);
}

/// A state seen before the front of the queue was dequeued is still seen
/// afterwards, provided the dequeued state itself was committed to the
/// visited set and the rest of the queue was kept.
proof fn lemma_frontier_shift(
    h: u64,
    old_m: Map<u64, Cube>,
    old_q: Seq<Cube>,
    m: Map<u64, Cube>,
    q: Seq<Cube>,
)
    requires
        in_map_or_queue(h, old_m, old_q),
        old_q.len() > 0,
        forall|k: u64| old_m.contains_key(k) ==> #[trigger] m.contains_key(k),
        m.contains_key(old_q[0].hash),
        q.len() >= old_q.len() - 1,
        forall|i: int| 1 <= i < old_q.len() ==> q[i - 1] == #[trigger] old_q[i],
    ensures
        in_map_or_queue(h, m, q),
{
    if !old_m.contains_key(h) {
        let i = choose|i: int| 0 <= i < old_q.len() && (#[trigger] old_q[i]).hash == h;
        if i == 0 {
            assert(m.contains_key(h));
        } else {
            assert(q[i - 1].hash == h);
        }
    }
}

/// Dequeuing an unvisited, unsolved state, enqueuing its three successors
/// and committing it to the visited set preserves every search invariant
/// and grows the visited set by exactly one state.
proof fn lemma_step_expand(
    root: u64,
    old_m: Map<u64, Cube>,
    old_q: Seq<Cube>,
    m: Map<u64, Cube>,
    q: Seq<Cube>,
    c: Cube,
    cd: Cube,
    cb: Cube,
    cr: Cube,
)
    requires
        old_m.dom().finite(),
        map_ok(old_m, root),
        queue_ok(old_q, old_m, root),
        closure_ok(old_m, old_q),
        in_map_or_queue(root, old_m, old_q),
        old_q.len() > 0,
        c == old_q[0],
        c.hash != SOLVED_HASH,
        !old_m.contains_key(c.hash),
        child_ok(cd, c, Movement::DOWN),
        child_ok(cb, c, Movement::BACK),
        child_ok(cr, c, Movement::RIGHT),
        m == old_m.insert(c.hash, c),
        q == old_q.subrange(1, old_q.len() as int).push(cd).push(cb).push(cr),
    ensures
        map_ok(m, root),
        queue_ok(q, m, root),
        closure_ok(m, q),
        in_map_or_queue(root, m, q),
        m.dom().len() == old_m.dom().len() + 1,
{
    let ch = c.hash;
    assert(m.dom() =~= old_m.dom().insert(ch));
    assert(m.dom().len() == old_m.dom().len() + 1);
    assert forall|k: u64| #[trigger] m.contains_key(k) implies m[k].hash == k && node_ok(
        m[k],
        m,
        root,
    ) by {
        if k == ch {
            assert(node_ok(c, old_m, root));
            if c.depth > 0 {
                assert(c.prev_hash != ch);
            }
        } else {
            assert(old_m.contains_key(k));
            assert(m[k] == old_m[k]);
            if old_m[k].depth > 0 {
                assert(old_m[k].prev_hash != ch);
            }
        }
    }
    assert forall|i: int| 0 <= i < q.len() implies node_ok(#[trigger] q[i], m, root) by {
        if i < old_q.len() - 1 {
            assert(q[i] == old_q[i + 1]);
            assert(node_ok(old_q[i + 1], old_m, root));
            if old_q[i + 1].depth > 0 {
                assert(old_q[i + 1].prev_hash != ch);
            }
        } else {
            assert(node_ok(c, old_m, root));
            assert(q[i] == cd || q[i] == cb || q[i] == cr);
        }
    }
    assert forall|k: u64, mv: Movement| m.contains_key(k) implies in_map_or_queue(
        #[trigger] spec_move(k, mv),
        m,
        q,
    ) by {
        let n = q.len();
        if k == ch {
            match mv {
                Movement::DOWN => {
                    assert(q[n - 3].hash == spec_move(ch, Movement::DOWN));
                },
                Movement::BACK => {
                    assert(q[n - 2].hash == spec_move(ch, Movement::BACK));
                },
                Movement::RIGHT => {
                    assert(q[n - 1].hash == spec_move(ch, Movement::RIGHT));
                },
            }
        } else {
            assert(old_m.contains_key(k));
            assert(in_map_or_queue(spec_move(k, mv), old_m, old_q));
            lemma_frontier_shift(spec_move(k, mv), old_m, old_q, m, q);
        }
    }
    lemma_frontier_shift(root, old_m, old_q, m, q);
}

/// Dequeuing an already-visited state and overwriting its stored node with
/// a strictly shallower one preserves every search invariant and leaves the
/// visited states unchanged.
proof fn lemma_step_replace(
    root: u64,
    old_m: Map<u64, Cube>,
    old_q: Seq<Cube>,
    m: Map<u64, Cube>,
    q: Seq<Cube>,
    c: Cube,
)
    requires
        map_ok(old_m, root),
        queue_ok(old_q, old_m, root),
        closure_ok(old_m, old_q),
        in_map_or_queue(root, old_m, old_q),
        old_q.len() > 0,
        c == old_q[0],
        c.hash != SOLVED_HASH,
        old_m.contains_key(c.hash),
        old_m[c.hash].depth > c.depth,
        m == old_m.insert(c.hash, c),
        q == old_q.subrange(1, old_q.len() as int),
    ensures
        map_ok(m, root),
        queue_ok(q, m, root),
        closure_ok(m, q),
        in_map_or_queue(root, m, q),
        m.dom() == old_m.dom(),
{
    let ch = c.hash;
    assert(m.dom() =~= old_m.dom());
    assert(node_ok(c, old_m, root));
    if c.depth > 0 && c.prev_hash == ch {
        assert(old_m[ch].depth < c.depth);
        assert(false);
    }
    assert forall|k: u64| #[trigger] m.contains_key(k) implies m[k].hash == k && node_ok(
        m[k],
        m,
        root,
    ) by {
        if k != ch {
            assert(old_m.contains_key(k));
            assert(m[k] == old_m[k]);
            if old_m[k].depth > 0 && old_m[k].prev_hash == ch {
                assert(m[ch].depth == c.depth < old_m[ch].depth);
            }
        }
    }
    assert forall|i: int| 0 <= i < q.len() implies node_ok(#[trigger] q[i], m, root) by {
        assert(q[i] == old_q[i + 1]);
        assert(node_ok(old_q[i + 1], old_m, root));
        if old_q[i + 1].depth > 0 && old_q[i + 1].prev_hash == ch {
            assert(m[ch].depth == c.depth < old_m[ch].depth);
        }
    }
    assert forall|k: u64, mv: Movement| m.contains_key(k) implies in_map_or_queue(
        #[trigger] spec_move(k, mv),
        m,
        q,
    ) by {
        assert(old_m.contains_key(k));
        assert(in_map_or_queue(spec_move(k, mv), old_m, old_q));
        lemma_frontier_shift(spec_move(k, mv), old_m, old_q, m, q);
    }
    lemma_frontier_shift(root, old_m, old_q, m, q);
}

/// Dropping an already-visited state from the queue, keeping its stored
/// node, preserves every search invariant.
proof fn lemma_step_drop(
    root: u64,
    old_m: Map<u64, Cube>,
    old_q: Seq<Cube>,
    q: Seq<Cube>,
    c: Cube,
)
    requires
        map_ok(old_m, root),
        queue_ok(old_q, old_m, root),
        closure_ok(old_m, old_q),
        in_map_or_queue(root, old_m, old_q),
        old_q.len() > 0,
        c == old_q[0],
        old_m.contains_key(c.hash),
        q == old_q.subrange(1, old_q.len() as int),
    ensures
        queue_ok(q, old_m, root),
        closure_ok(old_m, q),
        in_map_or_queue(root, old_m, q),
{
    assert forall|i: int| 0 <= i < q.len() implies node_ok(#[trigger] q[i], old_m, root) by {
        assert(q[i] == old_q[i + 1]);
    }
    assert forall|k: u64, mv: Movement| old_m.contains_key(k) implies in_map_or_queue(
        #[trigger] spec_move(k, mv),
        old_m,
        q,
    ) by {
        assert(in_map_or_queue(spec_move(k, mv), old_m, old_q));
        lemma_frontier_shift(spec_move(k, mv), old_m, old_q, old_m, q);
    }
    lemma_frontier_shift(root, old_m, old_q, old_m, q);
}

/// A set of states closed under all three moves traps every move sequence:
/// whatever is applied to a member, the result is again a member.
proof fn lemma_closed_map_traps(m: Map<u64, Cube>, h: u64, ms: Seq<Movement>)
    requires
        m.contains_key(h),
        forall|k: u64, mv: Movement|
            m.contains_key(k) ==> m.contains_key(#[trigger] spec_move(k, mv)),
    ensures
        m.contains_key(apply_forward(h, ms)),
    decreases ms.len(),
{
    if ms.len() > 0 {
        lemma_closed_map_traps(m, spec_move(h, ms[0]), ms.drop_first());
    }
}

/// Breadth-first search from `cube` to the solved state over the three
/// generator moves, expanding DOWN, BACK, RIGHT in that fixed order.
///
/// The returned moves are collected goal-to-root, so the forward solution
/// reads them from the last element down to the first: applying the
/// reversal of the result to the input state reaches the solved state
/// whenever the result is nonempty. An already-solved input always yields
/// the empty sequence, and an empty result for any other input means no
/// move sequence at all reaches the solved state from it.
pub fn solve_cube(cube: Cube) -> (r: Vec<Movement>)
    requires
        cube.depth == 0,
    ensures
        r@.len() > 0 ==> apply_forward(cube.hash, r@.reverse()) == SOLVED_HASH,
        cube.hash == SOLVED_HASH ==> r@.len() == 0,
        r@.len() == 0 ==> cube.hash == SOLVED_HASH || !solvable(cube.hash),
{
    let ghost root: u64 = cube.hash;
    let solved_cube_hash = get_solved_cube().hash;
    let mut map: HashMap<u64, Cube> = HashMap::new();
    let mut queue: VecDeque<Cube> = VecDeque::new();
    let mut return_vec: Vec<Movement> = Vec::new();
    let mut goal: Option<Cube> = None;

    queue.push_back(cube);
    proof {
        assert(queue@.len() == 1 && queue@[0] == cube);
        assert(map@.dom() =~= Set::<u64>::empty());
    }

    while goal.is_none() && queue.len() > 0
        invariant
            root == cube.hash,
            solved_cube_hash == SOLVED_HASH,
            map@.dom().finite(),
            map_ok(map@, root),
            queue_ok(queue@, map@, root),
            map@.dom().len() <= STATE_BOUND + 1,
            goal is None ==> closure_ok(map@, queue@),
            goal is None ==> in_map_or_queue(root, map@, queue@),
            root == SOLVED_HASH ==> map@.dom().len() == 0,
            goal matches Some(g) ==> g.hash == SOLVED_HASH && node_ok(g, map@, root),
            return_vec@.len() == 0,
        decreases STATE_BOUND + 1 - map@.dom().len(), queue@.len(),
    {
        let ghost old_map = map@;
        let ghost old_queue = queue@;
        let current_cube = queue.pop_front().unwrap();
        if current_cube.hash == solved_cube_hash {
            proof {
                assert forall|i: int| 0 <= i < queue@.len() implies node_ok(
                    #[trigger] queue@[i],
                    map@,
                    root,
                ) by {
                    assert(queue@[i] == old_queue[i + 1]);
                }
            }
            goal = Some(current_cube);
        } else if !map.contains_key(&current_cube.hash) {
            proof {
                if root == SOLVED_HASH {
                    assert(current_cube.depth <= 0);
                    assert(current_cube.hash == root);
                    assert(false);
                }
            }
            queue.push_back(move_cube(&current_cube, Movement::DOWN));
            queue.push_back(move_cube(&current_cube, Movement::BACK));
            queue.push_back(move_cube(&current_cube, Movement::RIGHT));
            let ghost mid_queue = queue@;
            map.insert(current_cube.hash, current_cube);
            proof {
                assert(mid_queue == old_queue.subrange(1, old_queue.len() as int).push(
                    mid_queue[mid_queue.len() - 3],
                ).push(mid_queue[mid_queue.len() - 2]).push(mid_queue[mid_queue.len() - 1])) by {
                    assert(mid_queue =~= old_queue.subrange(1, old_queue.len() as int).push(
                        mid_queue[mid_queue.len() - 3],
                    ).push(mid_queue[mid_queue.len() - 2]).push(mid_queue[mid_queue.len() - 1]));
                }
                lemma_step_expand(
                    root,
                    old_map,
                    old_queue,
                    map@,
                    queue@,
                    current_cube,
                    mid_queue[mid_queue.len() - 3],
                    mid_queue[mid_queue.len() - 2],
                    mid_queue[mid_queue.len() - 1],
                );
                lemma_visited_bound(map@, root);
            }
        } else {
            let present_depth = map.get(&current_cube.hash).unwrap().depth;
            if present_depth > current_cube.depth {
                map.insert(current_cube.hash, current_cube);
                proof {
                    lemma_step_replace(root, old_map, old_queue, map@, queue@, current_cube);
                    assert(map@.dom().len() == old_map.dom().len());
                }
            } else {
                proof {
                    lemma_step_drop(root, old_map, old_queue, queue@, current_cube);
                }
            }
        }
    }

    match goal {
        None => {
            proof {
                if root != SOLVED_HASH && solvable(root) {
                    let ms = choose|ms: Seq<Movement>| apply_forward(root, ms) == SOLVED_HASH;
                    assert forall|k: u64, mv: Movement| map@.contains_key(
                        k,
                    ) implies map@.contains_key(#[trigger] spec_move(k, mv)) by {
                        assert(in_map_or_queue(spec_move(k, mv), map@, queue@));
                    }
                    assert(map@.contains_key(root));
                    lemma_closed_map_traps(map@, root, ms);
                    assert(false);
                }
            }
            return_vec
        },
        Some(g) => {
            let mut current_cube = g;
            while current_cube.depth != 0
                invariant
                    map_ok(map@, root),
                    node_ok(current_cube, map@, root),
                    apply_reversed(current_cube.hash, return_vec@) == SOLVED_HASH,
                    root == SOLVED_HASH ==> map@.dom().len() == 0,
                    root == SOLVED_HASH ==> return_vec@.len() == 0,
                decreases current_cube.depth,
            {
                let ghost old_vec = return_vec@;
                return_vec.push(current_cube.prev_move);
                proof {
                    assert(return_vec@.drop_last() =~= old_vec);
                }
                let new_cube = map.get(&current_cube.prev_hash).unwrap();
                current_cube = Cube {
                    hash: new_cube.hash,
                    prev_hash: new_cube.prev_hash,
                    prev_move: new_cube.prev_move,
                    depth: new_cube.depth,
                };
            }
            proof {
                assert(current_cube.hash == root);
                lemma_apply_reversed_is_forward(root, return_vec@);
            }
            return_vec
        },
    }
}

} // verus!
