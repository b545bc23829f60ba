//! Board coordinates and the four-character move notation ("e2e4").
use vstd::prelude::*;
use vstd::string::*;

verus! {

/// Relies on `String::push`: the character is appended at the end.
pub assume_specification[ String::push ](s: &mut String, ch: char)
    ensures
        final(s)@ == old(s)@.push(ch),
;

/// Whether (row, column) names one of the 64 squares.
pub open spec fn in_bounds(r: int, c: int) -> bool {
    0 <= r <= 7 && 0 <= c <= 7
}

/// The location of the square at (row, column), which is on the board.
pub open spec fn square_loc(r: int, c: int) -> Location {
    Location { row: r as isize, column: c as isize, valid_location: true }
}

/// A row and a column, with a flag that tells whether they lie on the board.
/// The flag is true exactly for the 64 squares.
#[derive(Copy, Clone, Debug, PartialEq, Eq, Structural)]
pub struct Location {
    pub row: isize,
    pub column: isize,
    pub valid_location: bool,
}

/// Why a move text was refused.
#[derive(Copy, Clone, Debug, PartialEq, Eq, Structural)]
pub enum MoveParseError {
    /// The text does not have exactly four characters.
    WrongLength,
    /// A file is not one of a-h, or a rank is not one of 1-8.
    BadSquare,
}

/// The file letter of a column: 'a' to 'h', and '9' off the board.
pub open spec fn file_char(i: int) -> char {
    if i == 0 { 'a' }
    else if i == 1 { 'b' }
    else if i == 2 { 'c' }
    else if i == 3 { 'd' }
    else if i == 4 { 'e' }
    else if i == 5 { 'f' }
    else if i == 6 { 'g' }
    else if i == 7 { 'h' }
    else { '9' }
}

/// The rank digit of a row: '1' to '8', and '9' off the board.
pub open spec fn rank_char(i: int) -> char {
    if i == 0 { '1' }
    else if i == 1 { '2' }
    else if i == 2 { '3' }
    else if i == 3 { '4' }
    else if i == 4 { '5' }
    else if i == 5 { '6' }
    else if i == 6 { '7' }
    else if i == 7 { '8' }
    else { '9' }
}

/// The index that a file letter or a rank digit stands for; 99 for any other character.
pub open spec fn char_index(c: char) -> int {
    if c == 'a' || c == '1' { 0 }
    else if c == 'b' || c == '2' { 1 }
    else if c == 'c' || c == '3' { 2 }
    else if c == 'd' || c == '4' { 3 }
    else if c == 'e' || c == '5' { 4 }
    else if c == 'f' || c == '6' { 5 }
    else if c == 'g' || c == '7' { 6 }
    else if c == 'h' || c == '8' { 7 }
    else { 99 }
}

pub open spec fn is_file_char(c: char) -> bool {
    c == 'a' || c == 'b' || c == 'c' || c == 'd' || c == 'e' || c == 'f' || c == 'g' || c == 'h'
}

pub open spec fn is_rank_char(c: char) -> bool {
    c == '1' || c == '2' || c == '3' || c == '4' || c == '5' || c == '6' || c == '7' || c == '8'
}

/// A well-formed move text: origin file, origin rank, destination file, destination rank.
pub open spec fn is_move_text(s: Seq<char>) -> bool {
    &&& s.len() == 4
    &&& is_file_char(s[0])
    &&& is_rank_char(s[1])
    &&& is_file_char(s[2])
    &&& is_rank_char(s[3])
}

/// The text of the move from (from_row, from_column) to (to_row, to_column).
pub open spec fn move_text(from_column: int, from_row: int, to_column: int, to_row: int) -> Seq<char> {
    seq![file_char(from_column), rank_char(from_row), file_char(to_column), rank_char(to_row)]
}

impl Location {
    /// On the board, with the flag set.
    pub open spec fn on_board(self) -> bool {
        self.valid_location && in_bounds(self.row as int, self.column as int)
    }

    pub fn new(row: isize, column: isize) -> (l: Location)
        ensures
            l == (Location { row, column, valid_location: in_bounds(row as int, column as int) }),
    {
        if (row >= 0) && (row <= 7) && (column >= 0) && (column <= 7) {
            Location { row, column, valid_location: true }
        } else {
            Location { row, column, valid_location: false }
        }
    }

    pub fn algebraic_to_index(c: &char) -> (i: usize)
        ensures
            i == char_index(*c),
    {
        match c {
            'a' | '1' => 0,
            'b' | '2' => 1,
            'c' | '3' => 2,
            'd' | '4' => 3,
            'e' | '5' => 4,
            'f' | '6' => 5,
            'g' | '7' => 6,
            'h' | '8' => 7,
            _ => 99,
        }
    }

    pub fn index_to_column(c: usize) -> (ch: char)
        ensures
            ch == file_char(c as int),
    {
        match c {
            0 => 'a',
            1 => 'b',
            2 => 'c',
            3 => 'd',
            4 => 'e',
            5 => 'f',
            6 => 'g',
            7 => 'h',
            _ => '9',
        }
    }

    pub fn index_to_row(r: usize) -> (ch: char)
        ensures
            ch == rank_char(r as int),
    {
        match r {
            0 => '1',
            1 => '2',
            2 => '3',
            3 => '4',
            4 => '5',
            5 => '6',
            6 => '7',
            7 => '8',
            _ => '9',
        }
    }

    pub fn coords_to_str(from_column: usize, from_row: usize, to_column: usize, to_row: usize) -> (s: String)
        ensures
            s@ == move_text(from_column as int, from_row as int, to_column as int, to_row as int),
    {
        let mut result = String::new();
        result.push(Location::index_to_column(from_column));
        result.push(Location::index_to_row(from_row));
        result.push(Location::index_to_column(to_column));
        result.push(Location::index_to_row(to_row));
        proof {
            assert(result@ =~= move_text(from_column as int, from_row as int, to_column as int, to_row as int));
        }
        result
    }

    /// Reads a move text into (from_column, from_row, to_column, to_row).
    pub fn str_to_coords(algebraic: String) -> (r: Result<(usize, usize, usize, usize), MoveParseError>)
        ensures
            match r {
                Ok((fc, fr, tc, tr)) => {
                    &&& is_move_text(algebraic@)
                    &&& fc == char_index(algebraic@[0])
                    &&& fr == char_index(algebraic@[1])
                    &&& tc == char_index(algebraic@[2])
                    &&& tr == char_index(algebraic@[3])
                },
                Err(e) => {
                    &&& !is_move_text(algebraic@)
                    &&& (e == MoveParseError::WrongLength <==> algebraic@.len() != 4)
                },
            },
    {
        let text = algebraic.as_str();
        if text.unicode_len() != 4 {
            return Err(MoveParseError::WrongLength);
        }
        let c0 = text.get_char(0);
        let c1 = text.get_char(1);
        let c2 = text.get_char(2);
        let c3 = text.get_char(3);
        if !(is_file(c0) && is_rank(c1) && is_file(c2) && is_rank(c3)) {
            return Err(MoveParseError::BadSquare);
        }
        Ok((
            Location::algebraic_to_index(&c0),
            Location::algebraic_to_index(&c1),
            Location::algebraic_to_index(&c2),
            Location::algebraic_to_index(&c3),
        ))
    }
}

fn is_file(c: char) -> (b: bool)
    ensures
        b == is_file_char(c),
{
    c == 'a' || c == 'b' || c == 'c' || c == 'd' || c == 'e' || c == 'f' || c == 'g' || c == 'h'
}

fn is_rank(c: char) -> (b: bool)
    ensures
        b == is_rank_char(c),
{
    c == '1' || c == '2' || c == '3' || c == '4' || c == '5' || c == '6' || c == '7' || c == '8'
}

} // verus!
