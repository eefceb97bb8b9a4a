use chess::{decipher_move, flip_board, flip_piece, Move, MoveError, Piece, Position, Team};

fn piece(c: char) -> Piece {
    match c {
        'K' => Piece::King(Team::Black),
        'Q' => Piece::Queen(Team::Black),
        'N' => Piece::Knight(Team::Black),
        'B' => Piece::Bishop(Team::Black),
        'R' => Piece::Rook(Team::Black),
        'P' => Piece::Pawn(Team::Black),
        'k' => Piece::King(Team::White),
        'q' => Piece::Queen(Team::White),
        'n' => Piece::Knight(Team::White),
        'b' => Piece::Bishop(Team::White),
        'r' => Piece::Rook(Team::White),
        'p' => Piece::Pawn(Team::White),
        '.' => Piece::Empty,
        _ => panic!("unknown piece character"),
    }
}

fn board(rows: [&str; 8]) -> [[Piece; 8]; 8] {
    let mut out = [[Piece::Empty; 8]; 8];
    for (y, row) in rows.iter().enumerate() {
        assert_eq!(row.len(), 8);
        for (x, c) in row.chars().enumerate() {
            out[y][x] = piece(c);
        }
    }
    out
}

fn check_move(
    to_move: Team,
    old: [&str; 8],
    new: [&str; 8],
    expected: Result<Move, MoveError>,
) {
    let old_board = board(old);
    let new_board = board(new);
    assert_eq!(decipher_move(old_board, new_board, to_move), expected);
    assert_eq!(
        decipher_move(flip_board(old_board), flip_board(new_board), to_move.other()),
        expected
    );
}

#[test]
fn identity_is_no_move_for_both_teams() {
    let b = board([
        "RNBQKBNR", "PPPPPPPP", "........", "........", "........", "........", "pppppppp",
        "rnbqkbnr",
    ]);
    assert_eq!(decipher_move(b, b, Team::Black), Err(MoveError::NoMove));
    assert_eq!(decipher_move(b, b, Team::White), Err(MoveError::NoMove));
    let empty = board([
        "........", "........", "........", "........", "........", "........", "........",
        "........",
    ]);
    assert_eq!(decipher_move(empty, empty, Team::Black), Err(MoveError::NoMove));
}

#[test]
fn nonstandard_back_rank_knight_advance() {
    check_move(
        Team::Black,
        [
            "NRBQKBRN", "........", "........", "........", "........", "........", "........",
            "nrbqkbrn",
        ],
        [
            ".RBQKBRN", "........", "........", "........", "........", "........", "N.......",
            "nrbqkbrn",
        ],
        Ok(Move(Position(0, 0), Position(0, 6))),
    );
}

#[test]
fn garbage_many_mover_changes() {
    check_move(
        Team::Black,
        [
            "R.......", "..N.....", "....B...", "........", "........", "........", "........",
            "........",
        ],
        [
            ".R......", "..Q.....", "........", "..B.....", "........", "........", "........",
            "........",
        ],
        Err(MoveError::Indecipherable),
    );
}

#[test]
fn backward_relocation() {
    check_move(
        Team::Black,
        [
            "........", "........", "........", "........", "........", "........", "R.......",
            "rnbqkbnr",
        ],
        [
            "R.......", "........", "........", "........", "........", "........", "........",
            "rnbqkbnr",
        ],
        Ok(Move(Position(0, 6), Position(0, 0))),
    );
}

#[test]
fn phantom_capture_elsewhere() {
    check_move(
        Team::Black,
        [
            "R.......", "........", "........", "........", "........", ".....p..", "........",
            "........",
        ],
        [
            "........", "........", "........", "........", "........", "........", "R.......",
            "........",
        ],
        Err(MoveError::Indecipherable),
    );
}

#[test]
fn lone_change_keeps_identity() {
    check_move(
        Team::Black,
        [
            "........", "........", "........", "........", "........", "........", "P.......",
            "........",
        ],
        [
            "........", "........", "........", "........", "........", "........", "Q.......",
            "........",
        ],
        Err(MoveError::Indecipherable),
    );
}

#[test]
fn one_vanishing_piece_each_side() {
    check_move(
        Team::Black,
        [
            "R.......", "........", "........", "........", "........", "........", ".....r..",
            "........",
        ],
        [
            "........", "........", "........", "........", "........", "........", "........",
            "........",
        ],
        Err(MoveError::Indecipherable),
    );
}

#[test]
fn two_opponent_changes() {
    check_move(
        Team::Black,
        [
            "R.......", "........", "........", "........", "........", "..p...p.", "........",
            "........",
        ],
        [
            "........", "........", "........", "........", "........", "..p...p.", "R.......",
            "........",
        ],
        Ok(Move(Position(0, 0), Position(0, 6))),
    );
    check_move(
        Team::Black,
        [
            "R.......", "........", "........", "........", "........", "..p...p.", "........",
            "........",
        ],
        [
            "........", "........", "........", "........", "........", "........", "R.......",
            "........",
        ],
        Err(MoveError::Indecipherable),
    );
}

#[test]
fn swap_of_two_own_pieces() {
    check_move(
        Team::Black,
        [
            "RN......", "........", "........", "........", "........", "........", "........",
            "........",
        ],
        [
            "NR......", "........", "........", "........", "........", "........", "........",
            "........",
        ],
        Err(MoveError::Indecipherable),
    );
}

#[test]
fn leftover_piece_on_vacated_square() {
    check_move(
        Team::Black,
        [
            "R.......", "........", "........", "........", "........", "........", "........",
            "........",
        ],
        [
            "N.......", "........", "........", "........", "........", "........", "R.......",
            "........",
        ],
        Err(MoveError::Indecipherable),
    );
}

#[test]
fn opponent_cannot_move_for_mover() {
    let old = board([
        "........", "........", "........", "........", "........", "........", "r.......",
        "........",
    ]);
    let new = board([
        "r.......", "........", "........", "........", "........", "........", "........",
        "........",
    ]);
    assert_eq!(decipher_move(old, new, Team::Black), Err(MoveError::Indecipherable));
    assert_eq!(decipher_move(old, new, Team::White), Ok(Move(Position(0, 6), Position(0, 0))));
}

#[test]
fn piece_glyphs() {
    assert_eq!(Piece::Empty.to_string(), " ");
    assert_eq!(Piece::Pawn(Team::Black).to_string(), "P");
    assert_eq!(Piece::Rook(Team::White).to_string(), "R");
    assert_eq!(Piece::Knight(Team::Black).to_string(), "C");
    assert_eq!(Piece::Bishop(Team::White).to_string(), "B");
    assert_eq!(Piece::King(Team::Black).to_string(), "K");
    assert_eq!(Piece::Queen(Team::White).to_string(), "Q");
}

#[test]
fn piece_owners() {
    assert_eq!(Piece::Empty.team(), None);
    assert_eq!(Piece::Pawn(Team::White).team(), Some(Team::White));
    assert_eq!(Piece::Queen(Team::Black).team(), Some(Team::Black));
}

#[test]
fn other_team_swaps() {
    assert_eq!(Team::Black.other(), Team::White);
    assert_eq!(Team::White.other(), Team::Black);
}

#[test]
fn flipping_twice_restores_the_board() {
    let b = board([
        "RNBQKBNR", "PPPPPPPP", "........", "...q....", "........", "........", "pppppppp",
        "rnbqkbnr",
    ]);
    assert_eq!(flip_board(flip_board(b)), b);
    assert_eq!(flip_piece(Piece::Pawn(Team::Black)), Piece::Pawn(Team::White));
    assert_eq!(flip_piece(Piece::Empty), Piece::Empty);
}
