//! Depth-bounded alpha-beta search over simulated positions.
use vstd::prelude::*;
use crate::board::{Board, Position};
use crate::legality::play;
use crate::movegen::{Move, candidate_moves, sound_move, all_sound, lemma_candidates_sound};

verus! {

/// The deepest search that the scores are sure to fit in an `isize` for:
/// a score never exceeds 99 for each level searched.
pub const MAX_SEARCH_DEPTH: isize = 20_000_000;

/// The largest value among `s`; 0 when `s` is empty.
pub open spec fn max_value(s: Seq<Move>) -> int
    decreases s.len(),
{
    if s.len() == 0 {
        0
    } else if s.len() == 1 {
        s[0].value as int
    } else if s.last().value > max_value(s.drop_last()) {
        s.last().value as int
    } else {
        max_value(s.drop_last())
    }
}

/// Where `m` goes in `s`, sorted by value: after every element of no greater value.
pub open spec fn insert_pos(s: Seq<Move>, m: Move) -> int
    decreases s.len(),
{
    if s.len() == 0 {
        0
    } else if s.last().value <= m.value {
        s.len() as int
    } else {
        insert_pos(s.drop_last(), m)
    }
}

/// `s` in ascending order of value; moves of equal value keep their order.
pub open spec fn sort_by_value(s: Seq<Move>) -> Seq<Move>
    decreases s.len(),
{
    if s.len() == 0 {
        s
    } else {
        let t = sort_by_value(s.drop_last());
        t.insert(insert_pos(t, s.last()), s.last())
    }
}

/// The score of the node reached by playing `node` in `p`, searched `depth`
/// more levels within the window (alpha, beta). Its base is the largest
/// immediate capture value among the node's children; below the horizon the
/// children, in ascending order of value, are searched one level deeper for
/// the other player and the extremal score found is added to that base.
/// A node without children scores 0.
pub open spec fn search(p: Position, node: Move, depth: int, alpha: int, beta: int, maximizing: bool) -> int
    decreases depth, 1int, 0int,
{
    let q = play(p, node);
    let children = candidate_moves(q);
    if depth <= 0 || children.len() == 0 {
        max_value(children)
    } else {
        let start = if maximizing { isize::MIN as int } else { isize::MAX as int };
        max_value(children) + scan(q, sort_by_value(children), 0, depth - 1, alpha, beta, maximizing, start)
    }
}

/// The extremal score over `children` from index `i` on, given the best
/// `value` so far; stops once beta <= alpha.
pub open spec fn scan(
    q: Position,
    children: Seq<Move>,
    i: int,
    depth: int,
    alpha: int,
    beta: int,
    maximizing: bool,
    value: int,
) -> int
    decreases depth, 2int, children.len() - i,
{
    if i < 0 || i >= children.len() {
        value
    } else {
        let v = search(q, children[i], depth, alpha, beta, !maximizing);
        if maximizing {
            let nv = if v > value { v } else { value };
            let na = if nv > alpha { nv } else { alpha };
            if beta <= na {
                nv
            } else {
                scan(q, children, i + 1, depth, na, beta, maximizing, nv)
            }
        } else {
            let nv = if v < value { v } else { value };
            let nb = if nv < beta { nv } else { beta };
            if nb <= alpha {
                nv
            } else {
                scan(q, children, i + 1, depth, alpha, nb, maximizing, nv)
            }
        }
    }
}

/// `max_value` is the maximum: no element exceeds it, and a non-empty
/// sequence holds it.
pub proof fn lemma_max_value_is_max(s: Seq<Move>)
    ensures
        forall|i: int| 0 <= i < s.len() ==> (#[trigger] s[i]).value <= max_value(s),
        s.len() > 0 ==> exists|i: int| 0 <= i < s.len() && (#[trigger] s[i]).value == max_value(s),
    decreases s.len(),
{
    if s.len() > 1 {
        let init = s.drop_last();
        lemma_max_value_is_max(init);
        assert forall|i: int| 0 <= i < s.len() implies (#[trigger] s[i]).value <= max_value(s) by {
            if i < init.len() {
                assert(s[i] == init[i]);
            }
        }
        if s.last().value > max_value(init) {
            assert(s[s.len() - 1].value == max_value(s));
        } else {
            let j = choose|j: int| 0 <= j < init.len() && (#[trigger] init[j]).value == max_value(init);
            assert(s[j] == init[j]);
        }
    } else if s.len() == 1 {
        assert(s[0].value == max_value(s));
    }
}

proof fn lemma_insert_pos_bounds(s: Seq<Move>, m: Move)
    ensures
        0 <= insert_pos(s, m) <= s.len(),
    decreases s.len(),
{
    if s.len() > 0 {
        lemma_insert_pos_bounds(s.drop_last(), m);
    }
}

proof fn lemma_sort_keeps(q: Position, s: Seq<Move>)
    requires
        all_sound(q, s),
    ensures
        sort_by_value(s).len() == s.len(),
        all_sound(q, sort_by_value(s)),
    decreases s.len(),
{
    if s.len() > 0 {
        let init = s.drop_last();
        assert forall|i: int| 0 <= i < init.len() implies sound_move(q, #[trigger] init[i]) by {
            assert(init[i] == s[i]);
        }
        lemma_sort_keeps(q, init);
        let t = sort_by_value(init);
        let x = s.last();
        let pos = insert_pos(t, x);
        lemma_insert_pos_bounds(t, x);
        t.insert_ensures(pos, x);
        assert(sound_move(q, s[s.len() - 1]));
        assert forall|i: int| 0 <= i < t.insert(pos, x).len() implies sound_move(q, #[trigger] t.insert(pos, x)[i]) by {
            if i < pos {
            } else if i == pos {
            } else {
                assert(t.insert(pos, x)[(i - 1) + 1] == t[i - 1]);
            }
        }
    }
}

/// The moves in ascending order of value, equal values in their given order.
fn sort_moves(moves: &Vec<Move>) -> (sorted: Vec<Move>)
    ensures
        sorted@ == sort_by_value(moves@),
{
    let mut sorted: Vec<Move> = Vec::new();
    let mut i: usize = 0;
    while i < moves.len()
        invariant
            i <= moves@.len(),
            sorted@ == sort_by_value(moves@.take(i as int)),
        decreases moves@.len() - i,
    {
        let m = moves[i];
        proof {
            lemma_insert_pos_bounds(sorted@, m);
            assert(sorted@.take(sorted@.len() as int) =~= sorted@);
        }
        let mut pos: usize = sorted.len();
        while pos > 0 && sorted[pos - 1].value > m.value
            invariant
                pos <= sorted@.len(),
                insert_pos(sorted@, m) == insert_pos(sorted@.take(pos as int), m),
            decreases pos,
        {
            proof {
                assert(sorted@.take(pos as int).drop_last() =~= sorted@.take(pos - 1));
            }
            pos = pos - 1;
        }
        proof {
            if pos > 0 {
                assert(sorted@.take(pos as int).last() == sorted@[pos - 1]);
            }
        }
        sorted.insert(pos, m);
        proof {
            assert(moves@.take(i + 1).drop_last() =~= moves@.take(i as int));
        }
        i = i + 1;
    }
    proof {
        assert(moves@.take(i as int) =~= moves@);
    }
    sorted
}

/// The largest value among the moves, 0 when there are none.
fn max_move_value(moves: &Vec<Move>) -> (m: isize)
    requires
        forall|i: int| 0 <= i < moves@.len() ==> -99 <= #[trigger] moves@[i].value <= 99,
    ensures
        m == max_value(moves@),
        -99 <= m <= 99,
{
    let mut m: isize = 0;
    let mut i: usize = 0;
    while i < moves.len()
        invariant
            i <= moves@.len(),
            forall|i: int| 0 <= i < moves@.len() ==> -99 <= #[trigger] moves@[i].value <= 99,
            m == max_value(moves@.take(i as int)),
            -99 <= m <= 99,
        decreases moves@.len() - i,
    {
        let v = moves[i].value;
        proof {
            assert(moves@.take(i + 1).drop_last() =~= moves@.take(i as int));
            assert(moves@.take(i + 1).last() == moves@[i as int]);
        }
        if i == 0 || v > m {
            m = v;
        }
        i = i + 1;
    }
    proof {
        assert(moves@.take(i as int) =~= moves@);
    }
    m
}

impl Board {
    /// The score of the node reached by playing `node` on `board`, searched
    /// `depth` more levels with alpha-beta pruning within (a, b); see `search`.
    pub fn alphabeta(board: Board, node: Move, depth: isize, a: isize, b: isize, maximizing_player: bool) -> (score: isize)
        requires
            board.wf(),
            node.on_board(),
            0 <= depth <= MAX_SEARCH_DEPTH,
        ensures
            score == search(board@, node, depth as int, a as int, b as int, maximizing_player),
            depth == 0 ==> score == max_value(candidate_moves(play(board@, node))),
            -99 * (depth + 1) <= score <= 99 * (depth + 1),
    {
        Board::score_node(&board, &node, depth, a, b, maximizing_player)
    }

    fn score_node(board: &Board, node: &Move, depth: isize, a: isize, b: isize, maximizing: bool) -> (score: isize)
        requires
            board.wf(),
            node.on_board(),
            0 <= depth <= MAX_SEARCH_DEPTH,
        ensures
            score == search(board@, *node, depth as int, a as int, b as int, maximizing),
            -99 * (depth + 1) <= score <= 99 * (depth + 1),
        decreases depth,
    {
        let node_board = board.apply_coords(
            node.from.row as usize,
            node.from.column as usize,
            node.to.row as usize,
            node.to.column as usize,
        );
        let children = Board::find_valid_moves(&node_board);
        let ghost q = node_board@;
        proof {
            lemma_candidates_sound(q);
            assert forall|i: int| 0 <= i < children@.len() implies -99 <= #[trigger] children@[i].value <= 99 by {
                assert(sound_move(q, children@[i]));
            }
        }
        let max_val = max_move_value(&children);
        if depth == 0 || children.len() == 0 {
            return max_val;
        }
        let sorted = sort_moves(&children);
        proof {
            lemma_sort_keeps(q, children@);
        }
        let ghost start: int = if maximizing { isize::MIN as int } else { isize::MAX as int };
        let ghost whole = scan(q, sorted@, 0, depth - 1, a as int, b as int, maximizing, start);
        assert(search(board@, *node, depth as int, a as int, b as int, maximizing) == max_val + whole);
        let mut alpha = a;
        let mut beta = b;
        let mut value: isize = if maximizing { isize::MIN } else { isize::MAX };
        let mut i: usize = 0;
        while i < sorted.len()
            invariant
                node_board.wf(),
                q == node_board@,
                sorted@ == sort_by_value(candidate_moves(q)),
                all_sound(q, sorted@),
                i <= sorted@.len(),
                1 <= depth <= MAX_SEARCH_DEPTH,
                -99 <= max_val <= 99,
                start == (if maximizing { isize::MIN as int } else { isize::MAX as int }),
                search(board@, *node, depth as int, a as int, b as int, maximizing) == max_val + whole,
                whole == scan(q, sorted@, i as int, depth - 1, alpha as int, beta as int, maximizing, value as int),
                i == 0 ==> value as int == start,
                i > 0 ==> -99 * depth <= value <= 99 * depth,
            decreases sorted@.len() - i,
        {
            let child = sorted[i];
            assert(sound_move(q, sorted@[i as int]));
            let v = Board::score_node(&node_board, &child, depth - 1, alpha, beta, !maximizing);
            proof {
                assert(isize::MIN < -99 * depth && 99 * depth < isize::MAX);
            }
            if maximizing {
                if v > value {
                    value = v;
                }
                if value > alpha {
                    alpha = value;
                }
                if beta <= alpha {
                    return value + max_val;
                }
            } else {
                if v < value {
                    value = v;
                }
                if value < beta {
                    beta = value;
                }
                if beta <= alpha {
                    return value + max_val;
                }
            }
            i = i + 1;
        }
        value + max_val
    }
}

} // verus!
