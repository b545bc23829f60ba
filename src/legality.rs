//! King safety: a move that leaves the mover's king capturable is not legal.
use vstd::prelude::*;
use crate::board::{Board, Position, applied};
use crate::movegen::{Move, candidate_moves, sound_move, lemma_candidates_sound};
use crate::piece::{Team, Rank, Piece};

verus! {

/// The position after move `m`.
pub open spec fn play(p: Position, m: Move) -> Position {
    applied(p, m.from.row as int, m.from.column as int, m.to.row as int, m.to.column as int)
}

/// Whether `reply` records taking a king, and a piece of side `t` stands where it lands.
pub open spec fn takes_king_of(q: Position, reply: Move, t: Team) -> bool {
    &&& reply.captured == Some(Rank::King)
    &&& match q.at(reply.to.row as int, reply.to.column as int) {
        Some(x) => x.team == t,
        None => false,
    }
}

/// The filter's test: after `m`, some reply of the opponent takes the mover's king.
pub open spec fn exposes_own_king(p: Position, m: Move) -> bool {
    let q = play(p, m);
    exists|i: int| 0 <= i < candidate_moves(q).len() && takes_king_of(q, #[trigger] candidate_moves(q)[i], p.turn)
}

/// Whether a king of side `t` stands on the destination of some candidate move in `q`.
pub open spec fn king_capturable(q: Position, t: Team) -> bool {
    exists|i: int|
        0 <= i < candidate_moves(q).len() && q.at(
            (#[trigger] candidate_moves(q)[i]).to.row as int,
            candidate_moves(q)[i].to.column as int,
        ) == Some(Piece { team: t, rank: Rank::King })
}

/// The moves of `s` that do not expose the mover's king, in their order.
pub open spec fn legal_filter(p: Position, s: Seq<Move>) -> Seq<Move>
    decreases s.len(),
{
    if s.len() == 0 {
        s
    } else {
        let rest = legal_filter(p, s.drop_last());
        if exposes_own_king(p, s.last()) {
            rest
        } else {
            rest.push(s.last())
        }
    }
}

/// The legal moves of the side to move.
pub open spec fn legal_moves(p: Position) -> Seq<Move> {
    legal_filter(p, candidate_moves(p))
}

/// The king-safety filter rejects exactly the moves after which the mover's
/// king can be taken on the immediate reply.
pub proof fn lemma_exposure_rejected(p: Position, m: Move)
    ensures
        exposes_own_king(p, m) == king_capturable(play(p, m), p.turn),
{
    let q = play(p, m);
    let c = candidate_moves(q);
    lemma_candidates_sound(q);
    if king_capturable(q, p.turn) {
        let i = choose|i: int|
            0 <= i < c.len() && q.at((#[trigger] c[i]).to.row as int, c[i].to.column as int) == Some(
                Piece { team: p.turn, rank: Rank::King },
            );
        assert(sound_move(q, c[i]));
        assert(takes_king_of(q, c[i], p.turn));
    }
    if exposes_own_king(p, m) {
        let i = choose|i: int| 0 <= i < c.len() && takes_king_of(q, #[trigger] c[i], p.turn);
        assert(sound_move(q, c[i]));
        assert(q.at(c[i].to.row as int, c[i].to.column as int) == Some(Piece { team: p.turn, rank: Rank::King }));
    }
}

proof fn lemma_legal_filter_sound(p: Position, s: Seq<Move>)
    requires
        forall|i: int| 0 <= i < s.len() ==> (#[trigger] s[i]).on_board(),
    ensures
        forall|i: int| 0 <= i < legal_filter(p, s).len() ==> (#[trigger] legal_filter(p, s)[i]).on_board(),
    decreases s.len(),
{
    if s.len() > 0 {
        let init = s.drop_last();
        assert forall|i: int| 0 <= i < init.len() implies (#[trigger] init[i]).on_board() by {
            assert(init[i] == s[i]);
        }
        lemma_legal_filter_sound(p, init);
        let rest = legal_filter(p, init);
        assert(s.last() == s[s.len() - 1]);
        if !exposes_own_king(p, s.last()) {
            assert forall|i: int| 0 <= i < rest.push(s.last()).len() implies (#[trigger] rest.push(
                s.last(),
            )[i]).on_board() by {
                if i < rest.len() {
                    assert(rest.push(s.last())[i] == rest[i]);
                }
            }
        }
    }
}

/// The legal moves of the side to move are all on the board.
pub proof fn lemma_legal_on_board(p: Position)
    ensures
        forall|i: int| 0 <= i < legal_moves(p).len() ==> (#[trigger] legal_moves(p)[i]).on_board(),
{
    lemma_candidates_sound(p);
    assert forall|i: int| 0 <= i < candidate_moves(p).len() implies (#[trigger] candidate_moves(p)[i]).on_board() by {
        assert(sound_move(p, candidate_moves(p)[i]));
    }
    lemma_legal_filter_sound(p, candidate_moves(p));
}

impl Board {
    /// Whether playing `m` lets the opponent take the mover's king on the
    /// next reply.
    pub fn is_own_king_checked(b: &Board, m: &Move) -> (r: bool)
        requires
            b.wf(),
            m.on_board(),
        ensures
            r == exposes_own_king(b@, *m),
    {
        let future_board = b.apply_coords(
            m.from.row as usize,
            m.from.column as usize,
            m.to.row as usize,
            m.to.column as usize,
        );
        let next_moves = Board::find_valid_moves(&future_board);
        let ghost q = future_board@;
        proof {
            lemma_candidates_sound(q);
        }
        let mut i: usize = 0;
        while i < next_moves.len()
            invariant
                future_board.wf(),
                q == future_board@,
                q == play(b@, *m),
                next_moves@ == candidate_moves(q),
                i <= next_moves@.len(),
                forall|j: int| 0 <= j < next_moves@.len() ==> sound_move(q, #[trigger] next_moves@[j]),
                forall|j: int| 0 <= j < i ==> !takes_king_of(q, #[trigger] next_moves@[j], b.next_to_move),
            decreases next_moves@.len() - i,
        {
            let reply = next_moves[i];
            assert(sound_move(q, next_moves@[i as int]));
            if reply.captured == Some(Rank::King) {
                match future_board.squares[reply.to.row as usize][reply.to.column as usize].piece {
                    Some(x) => {
                        if x.team == b.next_to_move {
                            return true;
                        }
                    },
                    None => {},
                }
            }
            i = i + 1;
        }
        false
    }

    /// The legal moves of the side to move: the candidate moves that do not
    /// expose the mover's king, in generation order.
    pub fn find_legal_moves(b: &Board) -> (moves: Vec<Move>)
        requires
            b.wf(),
        ensures
            moves@ == legal_moves(b@),
            forall|i: int| 0 <= i < moves@.len() ==> (#[trigger] moves@[i]).on_board(),
    {
        let candidates = Board::find_valid_moves(b);
        let ghost p = b@;
        proof {
            lemma_candidates_sound(p);
        }
        let mut moves: Vec<Move> = Vec::new();
        let mut i: usize = 0;
        while i < candidates.len()
            invariant
                b.wf(),
                p == b@,
                candidates@ == candidate_moves(p),
                i <= candidates@.len(),
                forall|j: int| 0 <= j < candidates@.len() ==> sound_move(p, #[trigger] candidates@[j]),
                moves@ == legal_filter(p, candidates@.take(i as int)),
            decreases candidates@.len() - i,
        {
            let m = candidates[i];
            assert(sound_move(p, candidates@[i as int]));
            if !Board::is_own_king_checked(b, &m) {
                moves.push(m);
            }
            proof {
                assert(candidates@.take(i + 1).drop_last() =~= candidates@.take(i as int));
            }
            i = i + 1;
        }
        proof {
            assert(candidates@.take(i as int) =~= candidates@);
            lemma_legal_on_board(p);
            assert(moves@ == legal_moves(p));
            assert forall|i: int| 0 <= i < moves@.len() implies (#[trigger] moves@[i]).on_board() by {
                assert(legal_moves(p)[i].on_board());
            }
        }
        moves
    }
}

} // verus!
