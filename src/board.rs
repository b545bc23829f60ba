//! The position: an 8x8 grid of squares and the side to move; applying a move.
use vstd::prelude::*;
use crate::coords::{Location, MoveParseError, in_bounds, square_loc, is_move_text, char_index};
use crate::piece::{Team, Rank, Piece};

verus! {

/// What a position holds: whose turn it is and the content of each square,
/// indexed by row (0 is White's back rank) and then by column (0 is the a-file).
pub struct Position {
    pub turn: Team,
    pub cells: Seq<Seq<Option<Piece>>>,
}

impl Position {
    /// Eight rows of eight cells.
    pub open spec fn wf(self) -> bool {
        &&& self.cells.len() == 8
        &&& forall|r: int| 0 <= r < 8 ==> #[trigger] self.cells[r].len() == 8
    }

    pub open spec fn at(self, r: int, c: int) -> Option<Piece> {
        self.cells[r][c]
    }

    /// The same position with square (r, c) holding `v`.
    pub open spec fn with_cell(self, r: int, c: int, v: Option<Piece>) -> Position {
        Position { turn: self.turn, cells: self.cells.update(r, self.cells[r].update(c, v)) }
    }
}

/// The back-rank kind standing on column `c` at the start of a game.
pub open spec fn back_rank(c: int) -> Rank {
    if c == 0 || c == 7 {
        Rank::Rook
    } else if c == 1 || c == 6 {
        Rank::Knight
    } else if c == 2 || c == 5 {
        Rank::Bishop
    } else if c == 3 {
        Rank::Queen
    } else {
        Rank::King
    }
}

/// What stands on (r, c) at the start of a game.
pub open spec fn initial_piece(r: int, c: int) -> Option<Piece> {
    if r == 0 {
        Some(Piece { team: Team::White, rank: back_rank(c) })
    } else if r == 1 {
        Some(Piece { team: Team::White, rank: Rank::Pawn })
    } else if r == 6 {
        Some(Piece { team: Team::Black, rank: Rank::Pawn })
    } else if r == 7 {
        Some(Piece { team: Team::Black, rank: back_rank(c) })
    } else {
        None
    }
}

pub open spec fn initial_position() -> Position {
    Position {
        turn: Team::White,
        cells: Seq::new(8, |r: int| Seq::new(8, |c: int| initial_piece(r, c))),
    }
}

/// The row on which a pawn of side `t` is promoted.
pub open spec fn last_row(t: Team) -> int {
    match t {
        Team::White => 7,
        Team::Black => 0,
    }
}

/// The piece that lands on `to_row`: a pawn reaching its last row becomes a queen.
pub open spec fn promoted(pc: Piece, to_row: int) -> Piece {
    if pc.rank == Rank::Pawn && to_row == last_row(pc.team) {
        Piece { team: pc.team, rank: Rank::Queen }
    } else {
        pc
    }
}

/// `pc` leaves (r0, c0) and stands on (r1, c1), replacing whatever stood there.
pub open spec fn shift(p: Position, r0: int, c0: int, r1: int, c1: int, pc: Piece) -> Position {
    p.with_cell(r1, c1, Some(pc)).with_cell(r0, c0, None)
}

/// A king moving two columns: a castle.
pub open spec fn is_castle(pc: Piece, from_column: int, to_column: int) -> bool {
    pc.rank == Rank::King && (from_column - to_column == 2 || to_column - from_column == 2)
}

/// The corner column of the rook that goes with a castle to `to_column`.
pub open spec fn rook_corner(to_column: int) -> int {
    if to_column == 2 { 0 } else { 7 }
}

/// The column where that rook lands, beside the king.
pub open spec fn rook_landing(to_column: int) -> int {
    if to_column == 2 { 3 } else { 5 }
}

/// Moves the piece standing in the corner of `from_row` beside the king that
/// has castled to (to_row, to_column). Nothing moves if the corner is empty.
pub open spec fn castle_rook(q: Position, from_row: int, to_row: int, to_column: int) -> Position {
    if to_column == 2 || to_column == 6 {
        match q.at(from_row, rook_corner(to_column)) {
            Some(rook) => shift(q, from_row, rook_corner(to_column), to_row, rook_landing(to_column), rook),
            None => q,
        }
    } else {
        q
    }
}

/// The squares after the move from (fr, fc) to (tr, tc), before the turn passes.
pub open spec fn placed(p: Position, fr: int, fc: int, tr: int, tc: int) -> Position {
    match p.at(fr, fc) {
        None => p,
        Some(pc) => {
            let moved = shift(p, fr, fc, tr, tc, promoted(pc, tr));
            if is_castle(pc, fc, tc) {
                castle_rook(moved, fr, tr, tc)
            } else {
                moved
            }
        },
    }
}

/// The position after the move from (fr, fc) to (tr, tc): the piece is
/// relocated (promoted, or castling with its rook) and the turn passes.
/// An empty origin moves nothing but still passes the turn.
pub open spec fn applied(p: Position, fr: int, fc: int, tr: int, tc: int) -> Position {
    Position { turn: p.turn.opponent(), cells: placed(p, fr, fc, tr, tc).cells }
}

/// The position after the move that the text `s` names.
pub open spec fn applied_text(p: Position, s: Seq<char>) -> Position {
    applied(p, char_index(s[1]), char_index(s[0]), char_index(s[3]), char_index(s[2]))
}

/// 1 for a cell that holds a piece, else 0.
pub open spec fn occupied(v: Option<Piece>) -> int {
    if v is Some { 1 } else { 0 }
}

/// The number of pieces in a row of cells.
pub open spec fn row_count(row: Seq<Option<Piece>>) -> int
    decreases row.len(),
{
    if row.len() == 0 {
        0
    } else {
        row_count(row.drop_last()) + occupied(row.last())
    }
}

/// The number of pieces in rows of cells.
pub open spec fn grid_count(cells: Seq<Seq<Option<Piece>>>) -> int
    decreases cells.len(),
{
    if cells.len() == 0 {
        0
    } else {
        grid_count(cells.drop_last()) + row_count(cells.last())
    }
}

/// The number of pieces on the board.
pub open spec fn piece_count(p: Position) -> int {
    grid_count(p.cells)
}

/// Whether the move from (fr, fc) to (tr, tc) takes a piece: something moves,
/// onto a square that something occupies.
pub open spec fn takes_piece(p: Position, fr: int, fc: int, tr: int, tc: int) -> bool {
    p.at(fr, fc) is Some && p.at(tr, tc) is Some
}

/// Whether the move is a castle whose rook lands on an occupied square.
pub open spec fn castle_overwrites(p: Position, fr: int, fc: int, tr: int, tc: int) -> bool {
    match p.at(fr, fc) {
        Some(pc) => {
            let moved = shift(p, fr, fc, tr, tc, promoted(pc, tr));
            &&& is_castle(pc, fc, tc)
            &&& (tc == 2 || tc == 6)
            &&& moved.at(fr, rook_corner(tc)) is Some
            &&& moved.at(tr, rook_landing(tc)) is Some
        },
        None => false,
    }
}

proof fn lemma_row_update(row: Seq<Option<Piece>>, c: int, v: Option<Piece>)
    requires
        0 <= c < row.len(),
    ensures
        row_count(row.update(c, v)) == row_count(row) - occupied(row[c]) + occupied(v),
    decreases row.len(),
{
    let u = row.update(c, v);
    if c == row.len() - 1 {
        assert(u.drop_last() =~= row.drop_last());
    } else {
        assert(u.drop_last() =~= row.drop_last().update(c, v));
        lemma_row_update(row.drop_last(), c, v);
    }
}

proof fn lemma_grid_update(cells: Seq<Seq<Option<Piece>>>, r: int, row: Seq<Option<Piece>>)
    requires
        0 <= r < cells.len(),
    ensures
        grid_count(cells.update(r, row)) == grid_count(cells) - row_count(cells[r]) + row_count(row),
    decreases cells.len(),
{
    let u = cells.update(r, row);
    if r == cells.len() - 1 {
        assert(u.drop_last() =~= cells.drop_last());
    } else {
        assert(u.drop_last() =~= cells.drop_last().update(r, row));
        lemma_grid_update(cells.drop_last(), r, row);
    }
}

proof fn lemma_with_cell_count(p: Position, r: int, c: int, v: Option<Piece>)
    requires
        p.wf(),
        in_bounds(r, c),
    ensures
        p.with_cell(r, c, v).wf(),
        piece_count(p.with_cell(r, c, v)) == piece_count(p) - occupied(p.at(r, c)) + occupied(v),
{
    lemma_row_update(p.cells[r], c, v);
    lemma_grid_update(p.cells, r, p.cells[r].update(c, v));
}

proof fn lemma_shift_count(p: Position, r0: int, c0: int, r1: int, c1: int, pc: Piece)
    requires
        p.wf(),
        in_bounds(r0, c0),
        in_bounds(r1, c1),
        p.at(r0, c0) is Some,
    ensures
        shift(p, r0, c0, r1, c1, pc).wf(),
        piece_count(shift(p, r0, c0, r1, c1, pc)) == piece_count(p) - occupied(p.at(r1, c1)),
{
    let q = p.with_cell(r1, c1, Some(pc));
    lemma_with_cell_count(p, r1, c1, Some(pc));
    lemma_with_cell_count(q, r0, c0, None);
    assert(q.at(r0, c0) is Some);
}

/// Material never grows: a move that takes a piece removes exactly one, any
/// other move keeps the count; castles whose rook lands on an occupied
/// square are left out.
pub proof fn lemma_material_count(p: Position, fr: int, fc: int, tr: int, tc: int)
    requires
        p.wf(),
        in_bounds(fr, fc),
        in_bounds(tr, tc),
        !castle_overwrites(p, fr, fc, tr, tc),
    ensures
        piece_count(applied(p, fr, fc, tr, tc)) == piece_count(p) - (if takes_piece(p, fr, fc, tr, tc) {
            1int
        } else {
            0int
        }),
{
    if let Some(pc) = p.at(fr, fc) {
        let moved = shift(p, fr, fc, tr, tc, promoted(pc, tr));
        lemma_shift_count(p, fr, fc, tr, tc, promoted(pc, tr));
        if is_castle(pc, fc, tc) && (tc == 2 || tc == 6) {
            if let Some(rook) = moved.at(fr, rook_corner(tc)) {
                lemma_shift_count(moved, fr, rook_corner(tc), tr, rook_landing(tc), rook);
            }
        }
    }
}

/// One cell of the board.
#[derive(Copy, Clone, Debug, PartialEq, Eq, Structural)]
pub struct Square {
    pub location: Location,
    pub piece: Option<Piece>,
}

impl Square {
    pub fn new(piece: Option<Piece>, row: usize, column: usize) -> (s: Square)
        requires
            row <= 7,
            column <= 7,
        ensures
            s == (Square { location: square_loc(row as int, column as int), piece }),
    {
        Square { location: Location::new(row as isize, column as isize), piece }
    }
}

/// A position: the side to move and 8 rows of 8 squares.
#[derive(Clone, Debug)]
pub struct Board {
    pub next_to_move: Team,
    pub squares: Vec<Vec<Square>>,
}

impl View for Board {
    type V = Position;

    open spec fn view(&self) -> Position {
        Position {
            turn: self.next_to_move,
            cells: Seq::new(8, |r: int| Seq::new(8, |c: int| self.squares@[r]@[c].piece)),
        }
    }
}

fn home_piece(x: usize, y: usize) -> (p: Option<Piece>)
    ensures
        p == initial_piece(x as int, y as int),
{
    let back = if y == 0 || y == 7 {
        Rank::Rook
    } else if y == 1 || y == 6 {
        Rank::Knight
    } else if y == 2 || y == 5 {
        Rank::Bishop
    } else if y == 3 {
        Rank::Queen
    } else {
        Rank::King
    };
    match x {
        0 => Some(Piece::new(Team::White, back)),
        1 => Some(Piece::new(Team::White, Rank::Pawn)),
        6 => Some(Piece::new(Team::Black, Rank::Pawn)),
        7 => Some(Piece::new(Team::Black, back)),
        _ => None,
    }
}

impl Board {
    /// Eight rows of eight squares, each square knowing its own location.
    pub open spec fn wf(&self) -> bool {
        &&& self.squares@.len() == 8
        &&& forall|r: int| 0 <= r < 8 ==> #[trigger] self.squares@[r]@.len() == 8
        &&& forall|r: int, c: int|
            0 <= r < 8 && 0 <= c < 8 ==> #[trigger] self.squares@[r]@[c].location == square_loc(r, c)
    }

    /// The standard starting position, White to move.
    pub fn new() -> (b: Board)
        ensures
            b.wf(),
            b@ == initial_position(),
    {
        let mut squares: Vec<Vec<Square>> = Vec::new();
        let mut x: usize = 0;
        while x < 8
            invariant
                x <= 8,
                squares@.len() == x,
                forall|r: int| 0 <= r < x ==> #[trigger] squares@[r]@.len() == 8,
                forall|r: int, c: int|
                    0 <= r < x && 0 <= c < 8 ==> #[trigger] squares@[r]@[c] == (Square {
                        location: square_loc(r, c),
                        piece: initial_piece(r, c),
                    }),
            decreases 8 - x,
        {
            let mut row: Vec<Square> = Vec::new();
            let mut y: usize = 0;
            while y < 8
                invariant
                    x < 8,
                    y <= 8,
                    row@.len() == y,
                    forall|c: int|
                        0 <= c < y ==> #[trigger] row@[c] == (Square {
                            location: square_loc(x as int, c),
                            piece: initial_piece(x as int, c),
                        }),
                decreases 8 - y,
            {
                row.push(Square::new(home_piece(x, y), x, y));
                y = y + 1;
            }
            squares.push(row);
            x = x + 1;
        }
        let b = Board { next_to_move: Team::White, squares };
        proof {
            assert(b@.cells =~~= initial_position().cells);
        }
        b
    }

    /// What stands on (row, column).
    pub fn piece_at(&self, row: usize, column: usize) -> (p: Option<Piece>)
        requires
            self.wf(),
            row < 8,
            column < 8,
        ensures
            p == self@.at(row as int, column as int),
    {
        self.squares[row][column].piece
    }

    /// A copy of the board, square by square.
    pub fn copy(&self) -> (b: Board)
        requires
            self.wf(),
        ensures
            b.wf(),
            b@ == self@,
    {
        let mut squares: Vec<Vec<Square>> = Vec::new();
        let mut x: usize = 0;
        while x < 8
            invariant
                self.wf(),
                x <= 8,
                squares@.len() == x,
                forall|r: int| 0 <= r < x ==> #[trigger] squares@[r]@ == self.squares@[r]@,
            decreases 8 - x,
        {
            let mut row: Vec<Square> = Vec::new();
            let mut y: usize = 0;
            while y < 8
                invariant
                    self.wf(),
                    x < 8,
                    y <= 8,
                    row@.len() == y,
                    forall|c: int| 0 <= c < y ==> #[trigger] row@[c] == self.squares@[x as int]@[c],
                decreases 8 - y,
            {
                row.push(self.squares[x][y]);
                y = y + 1;
            }
            proof {
                assert(row@ =~= self.squares@[x as int]@);
            }
            squares.push(row);
            x = x + 1;
        }
        let b = Board { next_to_move: self.next_to_move, squares };
        proof {
            assert(b@.cells =~~= self@.cells);
        }
        b
    }

    /// Puts `p` on (row, column), leaving every other square as it was.
    pub fn set_piece(&mut self, row: usize, column: usize, p: Option<Piece>)
        requires
            old(self).wf(),
            row < 8,
            column < 8,
        ensures
            final(self).wf(),
            final(self)@ == old(self)@.with_cell(row as int, column as int, p),
    {
        self.squares[row][column].piece = p;
        proof {
            assert(self@.cells =~~= old(self)@.with_cell(row as int, column as int, p).cells);
        }
    }
    /// The board after the move from (from_row, from_column) to (to_row, to_column).
    pub fn apply_coords(&self, from_row: usize, from_column: usize, to_row: usize, to_column: usize) -> (b: Board)
        requires
            self.wf(),
            from_row < 8,
            from_column < 8,
            to_row < 8,
            to_column < 8,
        ensures
            b.wf(),
            b@ == applied(self@, from_row as int, from_column as int, to_row as int, to_column as int),
    {
        let mut nb = self.copy();
        match self.squares[from_row][from_column].piece {
            Some(pc) => {
                let last: usize = match pc.team {
                    Team::White => 7,
                    Team::Black => 0,
                };
                let moved = if pc.rank == Rank::Pawn && to_row == last {
                    Piece::new(pc.team, Rank::Queen)
                } else {
                    pc
                };
                nb.set_piece(to_row, to_column, Some(moved));
                nb.set_piece(from_row, from_column, None);
                if pc.rank == Rank::King && (from_column == to_column + 2 || to_column == from_column + 2)
                    && (to_column == 2 || to_column == 6) {
                    let corner: usize = if to_column == 2 { 0 } else { 7 };
                    let landing: usize = if to_column == 2 { 3 } else { 5 };
                    match nb.squares[from_row][corner].piece {
                        Some(rook) => {
                            nb.set_piece(to_row, landing, Some(rook));
                            nb.set_piece(from_row, corner, None);
                        },
                        None => {},
                    }
                }
            },
            None => {},
        }
        nb.next_to_move = self.next_to_move.other();
        proof {
            assert(nb@.cells =~~= placed(self@, from_row as int, from_column as int, to_row as int, to_column as int).cells);
        }
        nb
    }

    /// The board after the move that `next_move` names ("e2e4"); the board
    /// itself is left as it is. A text that is not four characters, origin
    /// file and rank then destination file and rank, is refused.
    pub fn move_piece(b: &Board, next_move: String) -> (r: Result<Board, MoveParseError>)
        requires
            b.wf(),
        ensures
            match r {
                Ok(nb) => {
                    &&& is_move_text(next_move@)
                    &&& nb.wf()
                    &&& nb@ == applied_text(b@, next_move@)
                },
                Err(e) => {
                    &&& !is_move_text(next_move@)
                    &&& (e == MoveParseError::WrongLength <==> next_move@.len() != 4)
                },
            },
    {
        match Location::str_to_coords(next_move) {
            Ok((from_column, from_row, to_column, to_row)) => {
                Ok(b.apply_coords(from_row, from_column, to_row, to_column))
            },
            Err(e) => Err(e),
        }
    }
}

} // verus!
