use vstd::array::ArrayAdditionalExecFns;
use vstd::prelude::*;

verus! {

/// One of the two sides of the game.
#[derive(Debug, PartialEq, Eq, Clone, Copy, Structural)]
pub enum Team {
    Black,
    White,
}

impl Team {
    /// The opposing team, as a specification value.
    pub open spec fn spec_other(self) -> Team {
        match self {
            Team::Black => Team::White,
            Team::White => Team::Black,
        }
    }

    /// The opposing team.
    #[verifier::when_used_as_spec(spec_other)]
    pub fn other(self) -> (r: Team)
        ensures
            r == self.spec_other(),
    {
        match self {
            Team::Black => Team::White,
            Team::White => Team::Black,
        }
    }
}

/// A cell's occupant: empty, or a piece kind owned by a team.
#[derive(Debug, PartialEq, Eq, Clone, Copy, Structural)]
pub enum Piece {
    Empty,
    Pawn(Team),
    Rook(Team),
    Knight(Team),
    Bishop(Team),
    King(Team),
    Queen(Team),
}

impl Piece {
    /// The owning team, as a specification value: `None` for an empty cell.
    pub open spec fn spec_team(self) -> Option<Team> {
        match self {
            Piece::Empty => None,
            Piece::Pawn(t) => Some(t),
            Piece::Rook(t) => Some(t),
            Piece::Knight(t) => Some(t),
            Piece::Bishop(t) => Some(t),
            Piece::King(t) => Some(t),
            Piece::Queen(t) => Some(t),
        }
    }

    /// The owning team: `None` for an empty cell.
    #[verifier::when_used_as_spec(spec_team)]
    pub fn team(self) -> (r: Option<Team>)
        ensures
            r == self.spec_team(),
    {
        match self {
            Piece::Empty => None,
            Piece::Pawn(t) => Some(t),
            Piece::Rook(t) => Some(t),
            Piece::Knight(t) => Some(t),
            Piece::Bishop(t) => Some(t),
            Piece::King(t) => Some(t),
            Piece::Queen(t) => Some(t),
        }
    }

    /// The single-character display glyph of the piece kind.
    pub open spec fn glyph(self) -> char {
        match self {
            Piece::Empty => ' ',
            Piece::Pawn(_) => 'P',
            Piece::Rook(_) => 'R',
            Piece::Knight(_) => 'C',
            Piece::Bishop(_) => 'B',
            Piece::King(_) => 'K',
            Piece::Queen(_) => 'Q',
        }
    }

    /// A one-character string holding the piece's display glyph.
    pub fn to_string(self) -> (r: &'static str)
        ensures
            r@ == seq![self.glyph()],
    {
        match self {
            Piece::Empty => {
                let s = " ";
                proof {
                    reveal_strlit(" ");
                    assert(s@ =~= seq![self.glyph()]);
                }
                s
            },
            Piece::Pawn(_) => {
                let s = "P";
                proof {
                    reveal_strlit("P");
                    assert(s@ =~= seq![self.glyph()]);
                }
                s
            },
            Piece::Rook(_) => {
                let s = "R";
                proof {
                    reveal_strlit("R");
                    assert(s@ =~= seq![self.glyph()]);
                }
                s
            },
            Piece::Knight(_) => {
                let s = "C";
                proof {
                    reveal_strlit("C");
                    assert(s@ =~= seq![self.glyph()]);
                }
                s
            },
            Piece::Bishop(_) => {
                let s = "B";
                proof {
                    reveal_strlit("B");
                    assert(s@ =~= seq![self.glyph()]);
                }
                s
            },
            Piece::King(_) => {
                let s = "K";
                proof {
                    reveal_strlit("K");
                    assert(s@ =~= seq![self.glyph()]);
                }
                s
            },
            Piece::Queen(_) => {
                let s = "Q";
                proof {
                    reveal_strlit("Q");
                    assert(s@ =~= seq![self.glyph()]);
                }
                s
            },
        }
    }
}

/// A square, as zero-based `(column, row)` coordinates.
#[derive(Debug, PartialEq, Eq, Clone, Copy, Structural)]
pub struct Position(pub usize, pub usize);

/// A resolved move: the vacated square, then the square now occupied.
#[derive(Debug, PartialEq, Eq, Clone, Copy, Structural)]
pub struct Move(pub Position, pub Position);

/// Why no single move explains the difference between two boards.
#[derive(Debug, PartialEq, Eq, Clone, Copy, Structural)]
pub enum MoveError {
    NoMove,
    MakingMove,
    Indecipherable,
}

/// An 8-by-8 grid of cells, indexed `[row][column]`.
pub type Board = [[Piece; 8]; 8];

/// Whether `p` names a square of the 8-by-8 grid.
pub open spec fn valid_pos(p: Position) -> bool {
    p.0 < 8 && p.1 < 8
}

/// The occupant of square `p` of board `b`.
pub open spec fn piece_at(b: Board, p: Position) -> Piece {
    b@[p.1 as int]@[p.0 as int]
}

/// The same piece handed to the opposing team; an empty cell stays empty.
pub open spec fn flipped_piece(p: Piece) -> Piece {
    match p {
        Piece::Empty => Piece::Empty,
        Piece::Pawn(t) => Piece::Pawn(t.spec_other()),
        Piece::Rook(t) => Piece::Rook(t.spec_other()),
        Piece::Knight(t) => Piece::Knight(t.spec_other()),
        Piece::Bishop(t) => Piece::Bishop(t.spec_other()),
        Piece::King(t) => Piece::King(t.spec_other()),
        Piece::Queen(t) => Piece::Queen(t.spec_other()),
    }
}

/// Whether `fb` is `b` with every piece's owning team swapped.
pub open spec fn is_flipped(b: Board, fb: Board) -> bool {
    forall|y: int, x: int|
        0 <= y < 8 && 0 <= x < 8 ==> fb@[y]@[x] == flipped_piece(b@[y]@[x])
}

/// The same piece owned by the opposing team.
pub fn flip_piece(p: Piece) -> (r: Piece)
    ensures
        r == flipped_piece(p),
{
    match p {
        Piece::Empty => Piece::Empty,
        Piece::Pawn(t) => Piece::Pawn(t.other()),
        Piece::Rook(t) => Piece::Rook(t.other()),
        Piece::Knight(t) => Piece::Knight(t.other()),
        Piece::Bishop(t) => Piece::Bishop(t.other()),
        Piece::King(t) => Piece::King(t.other()),
        Piece::Queen(t) => Piece::Queen(t.other()),
    }
}

/// A copy of `board` in which every piece changes owner and empty cells stay.
pub fn flip_board(board: Board) -> (r: Board)
    ensures
        is_flipped(board, r),
{
    let mut out = board;
    let mut y: usize = 0;
    while y < 8
        invariant
            y <= 8,
            forall|yy: int, xx: int|
                0 <= yy < y && 0 <= xx < 8 ==> out@[yy]@[xx] == flipped_piece(board@[yy]@[xx]),
            forall|yy: int| y <= yy < 8 ==> out@[yy] == board@[yy],
        decreases 8 - y,
    {
        let mut row = out[y];
        let mut x: usize = 0;
        while x < 8
            invariant
                x <= 8,
                y < 8,
                forall|xx: int| 0 <= xx < x ==> row@[xx] == flipped_piece(board@[y as int]@[xx]),
                forall|xx: int| x <= xx < 8 ==> row@[xx] == board@[y as int]@[xx],
            decreases 8 - x,
        {
            let p = flip_piece(row[x]);
            row.set(x, p);
            x = x + 1;
        }
        out.set(y, row);
        y = y + 1;
    }
    out
}

} // verus!
