use vstd::prelude::*;

use crate::board::{Board, Move, MoveError, Piece, Position, Team};

verus! {

/// A changed cell: the occupant before, the occupant after, and the square.
pub type Change = (Piece, Piece, Position);

/// Whether the transition of one square from `before` to `after` is a change
/// that involves a piece of team `t`, either before or after it.
pub open spec fn involves(before: Piece, after: Piece, t: Team) -> bool {
    before != after && (before.spec_team() == Some(t) || after.spec_team() == Some(t))
}

/// The record that scanning square number `i` (row-major order) yields.
pub open spec fn cell_at(prev: Board, next: Board, i: int) -> Change {
    (
        prev@[i / 8]@[i % 8],
        next@[i / 8]@[i % 8],
        Position((i % 8) as usize, (i / 8) as usize),
    )
}

/// The changed cells among the first `n` squares in scan order that involve
/// team `t`.
pub open spec fn side_changes_upto(prev: Board, next: Board, t: Team, n: int) -> Seq<Change>
    decreases n,
{
    if n <= 0 {
        Seq::empty()
    } else {
        let rest = side_changes_upto(prev, next, t, n - 1);
        let c = cell_at(prev, next, n - 1);
        if involves(c.0, c.1, t) {
            rest.push(c)
        } else {
            rest
        }
    }
}

/// All changed cells that involve team `t`, in scan order.
pub open spec fn side_changes(prev: Board, next: Board, t: Team) -> Seq<Change> {
    side_changes_upto(prev, next, t, 64)
}

/// The verdict for a move of `moved` out of `from` and onto `to`, overwriting
/// `removed` there, given at most one changed square `opp` of the opposing
/// side: the mover must own the moved piece and must not land on its own
/// piece, and an opposing changed square is only coherent as a capture, that
/// is, when an opposing piece vanished and it is exactly the piece that stood
/// on the destination.
pub open spec fn resolve_oriented(
    moved: Piece,
    removed: Piece,
    from: Position,
    to: Position,
    opp: Option<Change>,
    t: Team,
) -> Result<Move, MoveError> {
    if moved.spec_team() != Some(t) {
        Err(MoveError::Indecipherable)
    } else if removed.spec_team() == Some(t) {
        Err(MoveError::Indecipherable)
    } else {
        match opp {
            Some(c) => {
                if c.0 == removed && removed.spec_team() == Some(t.spec_other()) {
                    Ok(Move(from, to))
                } else {
                    Err(MoveError::Indecipherable)
                }
            },
            None => Ok(Move(from, to)),
        }
    }
}

/// The verdict once the mover's two changed squares `a` and `b` and at most
/// one changed square `opp` of the opposing side have been singled out. The
/// two mover squares must read as one piece vacating one of them, which is now
/// empty, and appearing on the other.
pub open spec fn resolve_two(a: Change, b: Change, opp: Option<Change>, t: Team) -> Result<
    Move,
    MoveError,
> {
    if a.0 == b.1 && a.1 == Piece::Empty {
        resolve_oriented(b.1, b.0, a.2, b.2, opp, t)
    } else if b.0 == a.1 && b.1 == Piece::Empty {
        resolve_oriented(a.1, a.0, b.2, a.2, opp, t)
    } else {
        Err(MoveError::Indecipherable)
    }
}

/// What `decipher_move` returns: the diff of the two boards is split into the
/// changed squares involving the side to move and those involving its
/// opponent, and classified by the sizes of the two groups.
pub open spec fn spec_decipher(prev: Board, next: Board, t: Team) -> Result<Move, MoveError> {
    let m = side_changes(prev, next, t);
    let o = side_changes(prev, next, t.spec_other());
    if m.len() == 0 && o.len() == 0 {
        Err(MoveError::NoMove)
    } else if m.len() == 1 && o.len() == 0 {
        if m[0].0.spec_team() == Some(t) && m[0].1 == Piece::Empty {
            Err(MoveError::MakingMove)
        } else {
            Err(MoveError::Indecipherable)
        }
    } else if m.len() == 2 && o.len() <= 1 {
        resolve_two(m[0], m[1], if o.len() == 1 { Some(o[0]) } else { None }, t)
    } else {
        Err(MoveError::Indecipherable)
    }
}

/// Whether `p` is a piece owned by team `t`.
fn is_team(p: Piece, t: Team) -> (b: bool)
    ensures
        b == (p.spec_team() == Some(t)),
{
    match p.team() {
        Some(u) => u == t,
        None => false,
    }
}

/// Infers which single move turned `previous` into `next`, with `to_move` to
/// play, or classifies why no single move can explain the difference:
/// `NoMove` when the boards are identical, `MakingMove` when the mover's piece
/// has been lifted but not yet placed, and `Indecipherable` for every diff
/// that fits no single-move or single-capture pattern.
pub fn decipher_move(previous: Board, next: Board, to_move: Team) -> (r: Result<Move, MoveError>)
    ensures
        r == spec_decipher(previous, next, to_move),
{
    let opponent = to_move.other();
    let mut moving: Vec<(Piece, Piece, Position)> = Vec::new();
    let mut opposite: Vec<(Piece, Piece, Position)> = Vec::new();
    let mut i: usize = 0;
    while i < 64
        invariant
            i <= 64,
            opponent == to_move.spec_other(),
            moving@ == side_changes_upto(previous, next, to_move, i as int),
            opposite@ == side_changes_upto(previous, next, opponent, i as int),
        decreases 64 - i,
    {
        let y = i / 8;
        let x = i % 8;
        let before = previous[y][x];
        let after = next[y][x];
        let changed = before != after;
        if changed && (is_team(before, to_move) || is_team(after, to_move)) {
            moving.push((before, after, Position(x, y)));
        }
        if changed && (is_team(before, opponent) || is_team(after, opponent)) {
            opposite.push((before, after, Position(x, y)));
        }
        proof {
            assert(cell_at(previous, next, i as int) == (before, after, Position(x, y)));
        }
        i = i + 1;
    }
    if moving.len() == 0 && opposite.len() == 0 {
        return Err(MoveError::NoMove);
    }
    if moving.len() == 1 && opposite.len() == 0 {
        let lone = moving[0];
        if is_team(lone.0, to_move) && lone.1 == Piece::Empty {
            return Err(MoveError::MakingMove);
        } else {
            return Err(MoveError::Indecipherable);
        }
    }
    if moving.len() != 2 || opposite.len() > 1 {
        return Err(MoveError::Indecipherable);
    }
    let a = moving[0];
    let b = moving[1];
    let (moved, removed, from, to) = if a.0 == b.1 && a.1 == Piece::Empty {
        (b.1, b.0, a.2, b.2)
    } else if b.0 == a.1 && b.1 == Piece::Empty {
        (a.1, a.0, b.2, a.2)
    } else {
        return Err(MoveError::Indecipherable);
    };
    if !is_team(moved, to_move) {
        return Err(MoveError::Indecipherable);
    }
    if is_team(removed, to_move) {
        return Err(MoveError::Indecipherable);
    }
    if opposite.len() == 1 {
        let c = opposite[0];
        if !(c.0 == removed && is_team(removed, opponent)) {
            return Err(MoveError::Indecipherable);
        }
    }
    Ok(Move(from, to))
}

} // verus!
