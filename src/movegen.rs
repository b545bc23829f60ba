//! Candidate moves: per-piece directional stepping over a position.
use vstd::prelude::*;
use crate::board::{Board, Position, Square};
use crate::coords::{Location, in_bounds, square_loc, move_text};
use crate::piece::{Team, Rank, Piece, valuation_of};

verus! {

/// A compass direction on the board, or the knight's jump. North is towards
/// Black's side (higher rows), east towards the h-file (higher columns).
#[derive(Copy, Clone, Debug, PartialEq, Eq, Structural)]
pub enum Direction {
    N,
    S,
    E,
    W,
    NW,
    NE,
    SW,
    SE,
    KNIGHT,
}

/// A move: origin, destination, the kind it takes (if any) and its value.
/// A generated move's value is the signed worth of what it takes, 0 if nothing.
#[derive(Copy, Clone, Debug, PartialEq, Eq, Structural)]
pub struct Move {
    pub from: Location,
    pub to: Location,
    pub captured: Option<Rank>,
    pub value: isize,
}

/// A move to an empty square.
pub open spec fn quiet_move(fr: int, fc: int, tr: int, tc: int) -> Move {
    Move { from: square_loc(fr, fc), to: square_loc(tr, tc), captured: None, value: 0 }
}

/// A move of side `mover` that takes a `victim` on (tr, tc).
pub open spec fn capture_move(fr: int, fc: int, tr: int, tc: int, victim: Rank, mover: Team) -> Move {
    Move {
        from: square_loc(fr, fc),
        to: square_loc(tr, tc),
        captured: Some(victim),
        value: valuation_of(victim, mover) as isize,
    }
}

/// The square `k` steps from (r, c) in direction `dir`; the knight's
/// "direction" has no ray and leads off the board.
pub open spec fn ray_step(dir: Direction, r: int, c: int, k: int) -> (int, int) {
    match dir {
        Direction::N => (r + k, c),
        Direction::S => (r - k, c),
        Direction::E => (r, c + k),
        Direction::W => (r, c - k),
        Direction::NE => (r + k, c + k),
        Direction::NW => (r + k, c - k),
        Direction::SE => (r - k, c + k),
        Direction::SW => (r - k, c - k),
        Direction::KNIGHT => (-1, -1),
    }
}

/// Moves along a ray from (fr, fc), from step `k` up to step `reach`: each
/// empty square is a move, the first enemy piece is a capture and ends the
/// ray, an own piece or the edge ends it with no move.
pub open spec fn slide_moves(p: Position, fr: int, fc: int, dir: Direction, k: int, reach: int) -> Seq<Move>
    decreases reach + 1 - k,
{
    if k > reach {
        Seq::empty()
    } else {
        let t = ray_step(dir, fr, fc, k);
        if !in_bounds(t.0, t.1) {
            Seq::empty()
        } else {
            match p.at(t.0, t.1) {
                Some(q) => if q.team == p.turn {
                    Seq::empty()
                } else {
                    seq![capture_move(fr, fc, t.0, t.1, q.rank, p.turn)]
                },
                None => seq![quiet_move(fr, fc, t.0, t.1)] + slide_moves(p, fr, fc, dir, k + 1, reach),
            }
        }
    }
}

/// A pawn's step `k` in direction `dir`: the first step may be straight or
/// diagonal, later ones only straight; any other step leads off the board.
pub open spec fn pawn_step(dir: Direction, r: int, c: int, k: int) -> (int, int) {
    if k == 1 {
        match dir {
            Direction::E | Direction::W | Direction::KNIGHT => (-1, -1),
            _ => ray_step(dir, r, c, 1),
        }
    } else {
        match dir {
            Direction::N | Direction::S => ray_step(dir, r, c, k),
            _ => (-1, -1),
        }
    }
}

pub open spec fn is_forward(dir: Direction) -> bool {
    dir == Direction::N || dir == Direction::S
}

/// A pawn's moves in direction `dir` from step `k` up to `reach`: straight
/// ahead only onto empty squares, diagonally only onto an enemy piece.
pub open spec fn pawn_moves(p: Position, fr: int, fc: int, dir: Direction, k: int, reach: int) -> Seq<Move>
    decreases reach + 1 - k,
{
    if k > reach {
        Seq::empty()
    } else {
        let t = pawn_step(dir, fr, fc, k);
        if !in_bounds(t.0, t.1) {
            Seq::empty()
        } else {
            match p.at(t.0, t.1) {
                Some(q) => if q.team != p.turn && !is_forward(dir) {
                    seq![capture_move(fr, fc, t.0, t.1, q.rank, p.turn)]
                } else {
                    Seq::empty()
                },
                None => if is_forward(dir) {
                    seq![quiet_move(fr, fc, t.0, t.1)] + pawn_moves(p, fr, fc, dir, k + 1, reach)
                } else {
                    pawn_moves(p, fr, fc, dir, k + 1, reach)
                },
            }
        }
    }
}

/// How far a pawn of side `t` on row `r` may advance: two squares from its
/// starting row, else one.
pub open spec fn pawn_reach(t: Team, r: int) -> int {
    match t {
        Team::White => if r == 1 { 2 } else { 1 },
        Team::Black => if r == 6 { 2 } else { 1 },
    }
}

/// The i-th of the knight's eight jumps, as (rows, columns).
pub open spec fn knight_offset(i: int) -> (int, int) {
    if i == 0 { (1, 2) }
    else if i == 1 { (1, -2) }
    else if i == 2 { (2, 1) }
    else if i == 3 { (2, -1) }
    else if i == 4 { (-1, 2) }
    else if i == 5 { (-1, -2) }
    else if i == 6 { (-2, 1) }
    else { (-2, -1) }
}

/// A knight's moves from jump `i` on: jumps off the board or onto an own
/// piece are skipped.
pub open spec fn knight_moves(p: Position, fr: int, fc: int, i: int) -> Seq<Move>
    decreases 8 - i,
{
    if i >= 8 {
        Seq::empty()
    } else {
        let tr = fr + knight_offset(i).0;
        let tc = fc + knight_offset(i).1;
        let rest = knight_moves(p, fr, fc, i + 1);
        if !in_bounds(tr, tc) {
            rest
        } else {
            match p.at(tr, tc) {
                Some(q) => if q.team == p.turn {
                    rest
                } else {
                    seq![capture_move(fr, fc, tr, tc, q.rank, p.turn)] + rest
                },
                None => seq![quiet_move(fr, fc, tr, tc)] + rest,
            }
        }
    }
}

/// The moves of the piece on (fr, fc) in direction `dir`.
pub open spec fn ray_moves(p: Position, dir: Direction, fr: int, fc: int) -> Seq<Move> {
    match p.at(fr, fc) {
        None => Seq::empty(),
        Some(pc) => match pc.rank {
            Rank::Knight => knight_moves(p, fr, fc, 0),
            Rank::Pawn => pawn_moves(p, fr, fc, dir, 1, pawn_reach(pc.team, fr)),
            Rank::King => slide_moves(p, fr, fc, dir, 1, 1),
            _ => slide_moves(p, fr, fc, dir, 1, 8),
        },
    }
}

/// The directions in which a piece moves, in the order they are explored.
pub open spec fn piece_directions(pc: Piece) -> Seq<Direction> {
    match pc.rank {
        Rank::Pawn => match pc.team {
            Team::White => seq![Direction::N, Direction::NW, Direction::NE],
            Team::Black => seq![Direction::S, Direction::SE, Direction::SW],
        },
        Rank::Knight => seq![Direction::KNIGHT],
        Rank::Rook => seq![Direction::N, Direction::S, Direction::E, Direction::W],
        Rank::Bishop => seq![Direction::NW, Direction::NE, Direction::SE, Direction::SW],
        _ => seq![
            Direction::N,
            Direction::S,
            Direction::E,
            Direction::W,
            Direction::NW,
            Direction::NE,
            Direction::SE,
            Direction::SW,
        ],
    }
}

/// The moves from (fr, fc) in each of `dirs`, one direction after the other.
pub open spec fn gather(p: Position, fr: int, fc: int, dirs: Seq<Direction>) -> Seq<Move>
    decreases dirs.len(),
{
    if dirs.len() == 0 {
        Seq::empty()
    } else {
        gather(p, fr, fc, dirs.drop_last()) + ray_moves(p, dirs.last(), fr, fc)
    }
}

/// The candidate moves of the piece on (r, c); none for an empty square or a
/// piece of the side not to move.
pub open spec fn square_moves(p: Position, r: int, c: int) -> Seq<Move> {
    match p.at(r, c) {
        Some(pc) => if pc.team == p.turn {
            gather(p, r, c, piece_directions(pc))
        } else {
            Seq::empty()
        },
        None => Seq::empty(),
    }
}

/// The candidate moves from the first `n` squares of row `r`, a-file first.
pub open spec fn row_moves(p: Position, r: int, n: int) -> Seq<Move>
    decreases n,
{
    if n <= 0 {
        Seq::empty()
    } else {
        row_moves(p, r, n - 1) + square_moves(p, r, n - 1)
    }
}

/// The candidate moves from the top `n` rows, row 8 first.
pub open spec fn rows_moves(p: Position, n: int) -> Seq<Move>
    decreases n,
{
    if n <= 0 {
        Seq::empty()
    } else {
        rows_moves(p, n - 1) + row_moves(p, 8 - n, 8)
    }
}

/// Every candidate move of the side to move, before the king-safety filter.
pub open spec fn candidate_moves(p: Position) -> Seq<Move> {
    rows_moves(p, 8)
}

/// A move as the generator makes it in position `q`: both ends are squares of
/// the board, it records the kind standing on its destination (nothing for an
/// empty square), and its value is that kind's signed worth for the side to
/// move, 0 when it takes nothing.
pub open spec fn sound_move(q: Position, m: Move) -> bool {
    &&& m.from.on_board()
    &&& m.to.on_board()
    &&& m.captured == match q.at(m.to.row as int, m.to.column as int) {
        Some(x) => Some(x.rank),
        None => None,
    }
    &&& m.value == match m.captured {
        Some(r) => valuation_of(r, q.turn),
        None => 0,
    }
}

pub open spec fn all_sound(q: Position, s: Seq<Move>) -> bool {
    forall|i: int| 0 <= i < s.len() ==> sound_move(q, #[trigger] s[i])
}

proof fn lemma_concat_sound(q: Position, a: Seq<Move>, b: Seq<Move>)
    requires
        all_sound(q, a),
        all_sound(q, b),
    ensures
        all_sound(q, a + b),
{
    assert forall|i: int| 0 <= i < (a + b).len() implies sound_move(q, #[trigger] (a + b)[i]) by {
        if i < a.len() {
            assert((a + b)[i] == a[i]);
        } else {
            assert((a + b)[i] == b[i - a.len()]);
        }
    }
}

proof fn lemma_slide_sound(p: Position, fr: int, fc: int, dir: Direction, k: int, reach: int)
    requires
        in_bounds(fr, fc),
    ensures
        all_sound(p, slide_moves(p, fr, fc, dir, k, reach)),
    decreases reach + 1 - k,
{
    if k <= reach {
        let t = ray_step(dir, fr, fc, k);
        if in_bounds(t.0, t.1) && p.at(t.0, t.1) is None {
            lemma_slide_sound(p, fr, fc, dir, k + 1, reach);
            lemma_concat_sound(p, seq![quiet_move(fr, fc, t.0, t.1)], slide_moves(p, fr, fc, dir, k + 1, reach));
        }
    }
}

proof fn lemma_pawn_sound(p: Position, fr: int, fc: int, dir: Direction, k: int, reach: int)
    requires
        in_bounds(fr, fc),
    ensures
        all_sound(p, pawn_moves(p, fr, fc, dir, k, reach)),
    decreases reach + 1 - k,
{
    if k <= reach {
        let t = pawn_step(dir, fr, fc, k);
        if in_bounds(t.0, t.1) && p.at(t.0, t.1) is None {
            lemma_pawn_sound(p, fr, fc, dir, k + 1, reach);
            if is_forward(dir) {
                lemma_concat_sound(p, seq![quiet_move(fr, fc, t.0, t.1)], pawn_moves(p, fr, fc, dir, k + 1, reach));
            }
        }
    }
}

proof fn lemma_knight_sound(p: Position, fr: int, fc: int, i: int)
    requires
        in_bounds(fr, fc),
    ensures
        all_sound(p, knight_moves(p, fr, fc, i)),
    decreases 8 - i,
{
    if i < 8 {
        let tr = fr + knight_offset(i).0;
        let tc = fc + knight_offset(i).1;
        let rest = knight_moves(p, fr, fc, i + 1);
        lemma_knight_sound(p, fr, fc, i + 1);
        if in_bounds(tr, tc) {
            match p.at(tr, tc) {
                Some(q) => if q.team != p.turn {
                    lemma_concat_sound(p, seq![capture_move(fr, fc, tr, tc, q.rank, p.turn)], rest);
                },
                None => lemma_concat_sound(p, seq![quiet_move(fr, fc, tr, tc)], rest),
            }
        }
    }
}

proof fn lemma_gather_sound(p: Position, fr: int, fc: int, dirs: Seq<Direction>)
    requires
        in_bounds(fr, fc),
    ensures
        all_sound(p, gather(p, fr, fc, dirs)),
    decreases dirs.len(),
{
    if dirs.len() > 0 {
        lemma_gather_sound(p, fr, fc, dirs.drop_last());
        let dir = dirs.last();
        match p.at(fr, fc) {
            None => {},
            Some(pc) => match pc.rank {
                Rank::Knight => lemma_knight_sound(p, fr, fc, 0),
                Rank::Pawn => lemma_pawn_sound(p, fr, fc, dir, 1, pawn_reach(pc.team, fr)),
                Rank::King => lemma_slide_sound(p, fr, fc, dir, 1, 1),
                _ => lemma_slide_sound(p, fr, fc, dir, 1, 8),
            },
        }
        lemma_concat_sound(p, gather(p, fr, fc, dirs.drop_last()), ray_moves(p, dir, fr, fc));
    }
}

proof fn lemma_row_sound(p: Position, r: int, n: int)
    requires
        0 <= r < 8,
        n <= 8,
    ensures
        all_sound(p, row_moves(p, r, n)),
    decreases n,
{
    if n > 0 {
        lemma_row_sound(p, r, n - 1);
        if let Some(pc) = p.at(r, n - 1) {
            lemma_gather_sound(p, r, n - 1, piece_directions(pc));
        }
        lemma_concat_sound(p, row_moves(p, r, n - 1), square_moves(p, r, n - 1));
    }
}

proof fn lemma_rows_sound(p: Position, n: int)
    requires
        n <= 8,
    ensures
        all_sound(p, rows_moves(p, n)),
    decreases n,
{
    if n > 0 {
        lemma_rows_sound(p, n - 1);
        lemma_row_sound(p, 8 - n, 8);
        lemma_concat_sound(p, rows_moves(p, n - 1), row_moves(p, 8 - n, 8));
    }
}

/// Every candidate move stays on the board, records exactly the kind that
/// stands on its destination, and is valued at that kind's signed worth.
pub proof fn lemma_candidates_sound(p: Position)
    ensures
        all_sound(p, candidate_moves(p)),
{
    lemma_rows_sound(p, 8);
}

impl Move {
    /// Both ends on the board.
    pub open spec fn on_board(self) -> bool {
        self.from.on_board() && self.to.on_board()
    }

    /// A move between two locations that are on the board.
    pub fn new(from: Location, to: Location, captured: Option<Rank>, value: isize) -> (m: Option<Move>)
        ensures
            m == (if from.valid_location && to.valid_location {
                Some(Move { from, to, captured, value })
            } else {
                None
            }),
    {
        if from.valid_location && to.valid_location {
            Some(Move { from, to, captured, value })
        } else {
            None
        }
    }

    /// The move's text, e.g. "e2e4"; a coordinate off the board reads '9'.
    pub fn to_algebraic(&self) -> (s: String)
        ensures
            s@ == move_text(
                self.from.column as int,
                self.from.row as int,
                self.to.column as int,
                self.to.row as int,
            ),
    {
        Location::coords_to_str(
            coordinate_index(self.from.column),
            coordinate_index(self.from.row),
            coordinate_index(self.to.column),
            coordinate_index(self.to.row),
        )
    }
}

fn coordinate_index(v: isize) -> (i: usize)
    ensures
        (0 <= v <= 7 ==> i == v),
        (v < 0 || v > 7 ==> i == 8),
{
    if v < 0 || v > 7 {
        8
    } else {
        v as usize
    }
}

/// The location `delta` steps from (row, column) in direction `dir`.
fn step(dir: Direction, row: isize, column: isize, delta: isize) -> (l: Location)
    requires
        0 <= row <= 7,
        0 <= column <= 7,
        0 <= delta <= 8,
    ensures
        l == (Location {
            row: ray_step(dir, row as int, column as int, delta as int).0 as isize,
            column: ray_step(dir, row as int, column as int, delta as int).1 as isize,
            valid_location: in_bounds(
                ray_step(dir, row as int, column as int, delta as int).0,
                ray_step(dir, row as int, column as int, delta as int).1,
            ),
        }),
{
    match dir {
        Direction::N => Location::new(row + delta, column),
        Direction::S => Location::new(row - delta, column),
        Direction::E => Location::new(row, column + delta),
        Direction::W => Location::new(row, column - delta),
        Direction::NE => Location::new(row + delta, column + delta),
        Direction::NW => Location::new(row + delta, column - delta),
        Direction::SE => Location::new(row - delta, column + delta),
        Direction::SW => Location::new(row - delta, column - delta),
        Direction::KNIGHT => Location::new(-1, -1),
    }
}

fn knight_jump(i: usize) -> (d: (isize, isize))
    requires
        i < 8,
    ensures
        d.0 == knight_offset(i as int).0,
        d.1 == knight_offset(i as int).1,
{
    match i {
        0 => (1, 2),
        1 => (1, -2),
        2 => (2, 1),
        3 => (2, -1),
        4 => (-1, 2),
        5 => (-1, -2),
        6 => (-2, 1),
        _ => (-2, -1),
    }
}

impl Board {
    /// Moves along the ray from `from` in direction `dir`, at most `reach` steps.
    fn slide(&self, dir: Direction, from: Location, reach: isize) -> (moves: Vec<Move>)
        requires
            self.wf(),
            from.on_board(),
            1 <= reach <= 8,
        ensures
            moves@ == slide_moves(self@, from.row as int, from.column as int, dir, 1, reach as int),
    {
        let ghost p = self@;
        let ghost fr = from.row as int;
        let ghost fc = from.column as int;
        let mut moves: Vec<Move> = Vec::new();
        let mut delta: isize = 1;
        while delta <= reach
            invariant
                self.wf(),
                p == self@,
                fr == from.row,
                fc == from.column,
                from.on_board(),
                1 <= delta <= reach + 1,
                reach <= 8,
                moves@ + slide_moves(p, fr, fc, dir, delta as int, reach as int) == slide_moves(
                    p,
                    fr,
                    fc,
                    dir,
                    1,
                    reach as int,
                ),
            decreases reach + 1 - delta,
        {
            let to = step(dir, from.row, from.column, delta);
            if !to.valid_location {
                proof {
                    assert(moves@ =~= moves@ + slide_moves(p, fr, fc, dir, delta as int, reach as int));
                }
                return moves;
            }
            match self.squares[to.row as usize][to.column as usize].piece {
                Some(q) => {
                    if q.team == self.next_to_move {
                        proof {
                            assert(moves@ =~= moves@ + slide_moves(p, fr, fc, dir, delta as int, reach as int));
                        }
                        return moves;
                    }
                    let v = q.rank.valuation(self.next_to_move);
                    let ghost before = moves@;
                    moves.push(Move { from, to, captured: Some(q.rank), value: v });
                    proof {
                        assert(moves@ =~= before + slide_moves(p, fr, fc, dir, delta as int, reach as int));
                    }
                    return moves;
                },
                None => {
                    let ghost before = moves@;
                    moves.push(Move { from, to, captured: None, value: 0 });
                    proof {
                        assert(moves@ + slide_moves(p, fr, fc, dir, delta + 1, reach as int) =~= before
                            + slide_moves(p, fr, fc, dir, delta as int, reach as int));
                    }
                    delta = delta + 1;
                },
            }
        }
        proof {
            assert(moves@ =~= moves@ + slide_moves(p, fr, fc, dir, delta as int, reach as int));
        }
        moves
    }

    /// A pawn's moves from `from` in direction `dir`, at most `reach` steps.
    fn pawn_advance(&self, dir: Direction, from: Location, reach: isize) -> (moves: Vec<Move>)
        requires
            self.wf(),
            from.on_board(),
            1 <= reach <= 2,
        ensures
            moves@ == pawn_moves(self@, from.row as int, from.column as int, dir, 1, reach as int),
    {
        let ghost p = self@;
        let ghost fr = from.row as int;
        let ghost fc = from.column as int;
        let mut moves: Vec<Move> = Vec::new();
        let mut delta: isize = 1;
        while delta <= reach
            invariant
                self.wf(),
                p == self@,
                fr == from.row,
                fc == from.column,
                from.on_board(),
                1 <= delta <= reach + 1,
                reach <= 2,
                moves@ + pawn_moves(p, fr, fc, dir, delta as int, reach as int) == pawn_moves(
                    p,
                    fr,
                    fc,
                    dir,
                    1,
                    reach as int,
                ),
            decreases reach + 1 - delta,
        {
            let to = if delta == 1 {
                match dir {
                    Direction::E | Direction::W | Direction::KNIGHT => Location::new(-1, -1),
                    _ => step(dir, from.row, from.column, 1),
                }
            } else {
                match dir {
                    Direction::N | Direction::S => step(dir, from.row, from.column, delta),
                    _ => Location::new(-1, -1),
                }
            };
            if !to.valid_location {
                proof {
                    assert(moves@ =~= moves@ + pawn_moves(p, fr, fc, dir, delta as int, reach as int));
                }
                return moves;
            }
            let forward = match dir {
                Direction::N | Direction::S => true,
                _ => false,
            };
            match self.squares[to.row as usize][to.column as usize].piece {
                Some(q) => {
                    if q.team == self.next_to_move || forward {
                        proof {
                            assert(moves@ =~= moves@ + pawn_moves(p, fr, fc, dir, delta as int, reach as int));
                        }
                        return moves;
                    }
                    let v = q.rank.valuation(self.next_to_move);
                    let ghost before = moves@;
                    moves.push(Move { from, to, captured: Some(q.rank), value: v });
                    proof {
                        assert(moves@ =~= before + pawn_moves(p, fr, fc, dir, delta as int, reach as int));
                    }
                    return moves;
                },
                None => {
                    let ghost before = moves@;
                    if forward {
                        moves.push(Move { from, to, captured: None, value: 0 });
                    }
                    proof {
                        assert(moves@ + pawn_moves(p, fr, fc, dir, delta + 1, reach as int) =~= before
                            + pawn_moves(p, fr, fc, dir, delta as int, reach as int));
                    }
                    delta = delta + 1;
                },
            }
        }
        proof {
            assert(moves@ =~= moves@ + pawn_moves(p, fr, fc, dir, delta as int, reach as int));
        }
        moves
    }

    /// A knight's moves from `from`.
    fn knight_jumps(&self, from: Location) -> (moves: Vec<Move>)
        requires
            self.wf(),
            from.on_board(),
        ensures
            moves@ == knight_moves(self@, from.row as int, from.column as int, 0),
    {
        let ghost p = self@;
        let ghost fr = from.row as int;
        let ghost fc = from.column as int;
        let mut moves: Vec<Move> = Vec::new();
        let mut i: usize = 0;
        while i < 8
            invariant
                self.wf(),
                p == self@,
                fr == from.row,
                fc == from.column,
                from.on_board(),
                i <= 8,
                moves@ + knight_moves(p, fr, fc, i as int) == knight_moves(p, fr, fc, 0),
            decreases 8 - i,
        {
            let (dr, dc) = knight_jump(i);
            let to = Location::new(from.row + dr, from.column + dc);
            let ghost before = moves@;
            if to.valid_location {
                match self.squares[to.row as usize][to.column as usize].piece {
                    Some(q) => {
                        if q.team != self.next_to_move {
                            let v = q.rank.valuation(self.next_to_move);
                            moves.push(Move { from, to, captured: Some(q.rank), value: v });
                        }
                    },
                    None => {
                        moves.push(Move { from, to, captured: None, value: 0 });
                    },
                }
            }
            proof {
                assert(moves@ + knight_moves(p, fr, fc, i + 1) =~= before + knight_moves(p, fr, fc, i as int));
            }
            i = i + 1;
        }
        proof {
            assert(moves@ =~= moves@ + knight_moves(p, fr, fc, i as int));
        }
        moves
    }

    /// The moves of the piece on `from` in direction `dir`.
    fn moves_toward(&self, dir: Direction, from: Location) -> (moves: Vec<Move>)
        requires
            self.wf(),
            from.on_board(),
        ensures
            moves@ == ray_moves(self@, dir, from.row as int, from.column as int),
    {
        match self.squares[from.row as usize][from.column as usize].piece {
            None => Vec::new(),
            Some(pc) => match pc.rank {
                Rank::Knight => self.knight_jumps(from),
                Rank::Pawn => {
                    let reach: isize = match pc.team {
                        Team::White => if from.row == 1 { 2 } else { 1 },
                        Team::Black => if from.row == 6 { 2 } else { 1 },
                    };
                    self.pawn_advance(dir, from, reach)
                },
                Rank::King => self.slide(dir, from, 1),
                _ => self.slide(dir, from, 8),
            },
        }
    }

    /// Every move of the piece standing on `from` in direction `dir`, each
    /// wrapped in `Some`.
    pub fn navigate(&self, dir: Direction, from: Location) -> (moves: Vec<Option<Move>>)
        requires
            self.wf(),
            from.on_board(),
            self@.at(from.row as int, from.column as int) is Some,
        ensures
            moves@ == ray_moves(self@, dir, from.row as int, from.column as int).map_values(
                |m: Move| Some(m),
            ),
    {
        let found = self.moves_toward(dir, from);
        let mut moves: Vec<Option<Move>> = Vec::new();
        let mut i: usize = 0;
        while i < found.len()
            invariant
                i <= found@.len(),
                moves@ == found@.take(i as int).map_values(|m: Move| Some(m)),
            decreases found@.len() - i,
        {
            moves.push(Some(found[i]));
            proof {
                assert(found@.take(i + 1).drop_last() =~= found@.take(i as int));
                assert(moves@ =~= found@.take(i + 1).map_values(|m: Move| Some(m)));
            }
            i = i + 1;
        }
        proof {
            assert(found@.take(i as int) =~= found@);
        }
        moves
    }

    /// The candidate moves of the piece on `sqr`, one of this board's squares;
    /// none when it is empty or holds a piece of the side not to move.
    pub fn generate_all_possible_moves_for_piece(b: &Board, sqr: &Square) -> (moves: Vec<Move>)
        requires
            b.wf(),
            sqr.location.on_board(),
            b.squares@[sqr.location.row as int]@[sqr.location.column as int] == *sqr,
        ensures
            moves@ == square_moves(b@, sqr.location.row as int, sqr.location.column as int),
    {
        let from = sqr.location;
        let ghost p = b@;
        let ghost fr = from.row as int;
        let ghost fc = from.column as int;
        match sqr.piece {
            Some(pc) => {
                if pc.team != b.next_to_move {
                    return Vec::new();
                }
                let dirs = directions(pc);
                let mut moves: Vec<Move> = Vec::new();
                let mut i: usize = 0;
                while i < dirs.len()
                    invariant
                        b.wf(),
                        p == b@,
                        fr == from.row,
                        fc == from.column,
                        from.on_board(),
                        dirs@ == piece_directions(pc),
                        i <= dirs@.len(),
                        moves@ == gather(p, fr, fc, dirs@.take(i as int)),
                    decreases dirs@.len() - i,
                {
                    let mut more = b.moves_toward(dirs[i], from);
                    moves.append(&mut more);
                    proof {
                        assert(dirs@.take(i + 1).drop_last() =~= dirs@.take(i as int));
                    }
                    i = i + 1;
                }
                proof {
                    assert(dirs@.take(i as int) =~= dirs@);
                }
                moves
            },
            None => Vec::new(),
        }
    }

    /// Every candidate move of the side to move, row 8 first and the a-file
    /// first within a row; the king-safety filter is not applied.
    pub fn find_valid_moves(b: &Board) -> (moves: Vec<Move>)
        requires
            b.wf(),
        ensures
            moves@ == candidate_moves(b@),
    {
        let ghost p = b@;
        let mut all_moves: Vec<Move> = Vec::new();
        let mut i: usize = 0;
        while i < 8
            invariant
                b.wf(),
                p == b@,
                i <= 8,
                all_moves@ == rows_moves(p, i as int),
            decreases 8 - i,
        {
            let row = 7 - i;
            let mut column: usize = 0;
            while column < 8
                invariant
                    b.wf(),
                    p == b@,
                    i < 8,
                    row == 7 - i,
                    column <= 8,
                    all_moves@ == rows_moves(p, i as int) + row_moves(p, row as int, column as int),
                decreases 8 - column,
            {
                let curr_square = &b.squares[row][column];
                let ghost before = all_moves@;
                match curr_square.piece {
                    Some(piece) => {
                        if piece.team == b.next_to_move {
                            let mut result = Board::generate_all_possible_moves_for_piece(b, curr_square);
                            all_moves.append(&mut result);
                        }
                    },
                    None => {},
                }
                proof {
                    assert(all_moves@ =~= rows_moves(p, i as int) + row_moves(p, row as int, column + 1));
                }
                column = column + 1;
            }
            i = i + 1;
        }
        all_moves
    }
}

/// The directions in which `pc` moves.
fn directions(pc: Piece) -> (dirs: Vec<Direction>)
    ensures
        dirs@ == piece_directions(pc),
{
    let dirs = match pc.rank {
        Rank::Pawn => match pc.team {
            Team::White => vec![Direction::N, Direction::NW, Direction::NE],
            Team::Black => vec![Direction::S, Direction::SE, Direction::SW],
        },
        Rank::Knight => vec![Direction::KNIGHT],
        Rank::Rook => vec![Direction::N, Direction::S, Direction::E, Direction::W],
        Rank::Bishop => vec![Direction::NW, Direction::NE, Direction::SE, Direction::SW],
        _ => vec![
            Direction::N,
            Direction::S,
            Direction::E,
            Direction::W,
            Direction::NW,
            Direction::NE,
            Direction::SE,
            Direction::SW,
        ],
    };
    proof {
        assert(dirs@ =~= piece_directions(pc));
    }
    dirs
}

} // verus!
