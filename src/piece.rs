//! Sides, piece kinds and their material worth.
use vstd::prelude::*;

verus! {

/// One of the two sides of the game.
#[derive(Copy, Clone, Debug, PartialEq, Eq, Structural)]
pub enum Team {
    White,
    Black,
}

impl Team {
    /// The side that is not `self`.
    pub open spec fn opponent(self) -> Team {
        match self {
            Team::White => Team::Black,
            Team::Black => Team::White,
        }
    }

    pub fn other(&self) -> (t: Team)
        ensures
            t == self.opponent(),
    {
        match self {
            Team::White => Team::Black,
            Team::Black => Team::White,
        }
    }
}

/// The kind of a piece.
#[derive(Copy, Clone, Debug, PartialEq, Eq, Structural)]
pub enum Rank {
    King,
    Queen,
    Rook,
    Knight,
    Bishop,
    Pawn,
}

/// Material worth of a kind of piece, regardless of side.
pub open spec fn worth(r: Rank) -> int {
    match r {
        Rank::King => 99,
        Rank::Queen => 9,
        Rank::Rook => 5,
        Rank::Knight => 3,
        Rank::Bishop => 3,
        Rank::Pawn => 1,
    }
}

/// Signed worth: positive for White, negative for Black.
pub open spec fn valuation_of(r: Rank, t: Team) -> int {
    match t {
        Team::White => worth(r),
        Team::Black => -worth(r),
    }
}

impl Rank {
    pub fn valuation(&self, t: Team) -> (v: isize)
        ensures
            v == valuation_of(*self, t),
            -99 <= v <= 99,
    {
        let w: isize = match self {
            Rank::King => 99,
            Rank::Queen => 9,
            Rank::Rook => 5,
            Rank::Knight => 3,
            Rank::Bishop => 3,
            Rank::Pawn => 1,
        };
        match t {
            Team::White => w,
            Team::Black => -w,
        }
    }
}

/// A piece: a side and a kind.
#[derive(Copy, Clone, Debug, PartialEq, Eq, Structural)]
pub struct Piece {
    pub team: Team,
    pub rank: Rank,
}

impl Piece {
    pub fn new(team: Team, rank: Rank) -> (p: Piece)
        ensures
            p == (Piece { team, rank }),
    {
        Piece { team, rank }
    }
}

} // verus!
