//! General properties of move inference, each proved once and for all: they
//! hold of every pair of boards, not only of the fixtures the tests exercise.

use vstd::prelude::*;

use crate::board::{
    flipped_piece, is_flipped, piece_at, valid_pos, Board, Move, MoveError, Piece, Position, Team,
};
use crate::decipher::{
    cell_at, involves, resolve_two, side_changes, side_changes_upto, spec_decipher, Change,
};

verus! {

/// The number square `p` gets in row-major scan order.
spec fn scan_index(p: Position) -> int {
    p.1 as int * 8 + p.0 as int
}

/// The square that scan number `i` names.
spec fn pos_of(i: int) -> Position {
    Position((i % 8) as usize, (i / 8) as usize)
}

proof fn lemma_cell_at_scan(prev: Board, next: Board, i: int)
    requires
        0 <= i < 64,
    ensures
        valid_pos(pos_of(i)),
        scan_index(pos_of(i)) == i,
        cell_at(prev, next, i) == (piece_at(prev, pos_of(i)), piece_at(next, pos_of(i)), pos_of(
            i,
        )),
{
    assert(0 <= i / 8 < 8 && 0 <= i % 8 < 8 && (i / 8) * 8 + i % 8 == i) by (nonlinear_arith)
        requires
            0 <= i < 64,
    ;
}

proof fn lemma_cell_at_pos(prev: Board, next: Board, p: Position)
    requires
        valid_pos(p),
    ensures
        0 <= scan_index(p) < 64,
        pos_of(scan_index(p)) == p,
        cell_at(prev, next, scan_index(p)) == (piece_at(prev, p), piece_at(next, p), p),
{
    let i = scan_index(p);
    assert(0 <= i < 64 && i / 8 == p.1 as int && i % 8 == p.0 as int) by (nonlinear_arith)
        requires
            i == p.1 as int * 8 + p.0 as int && p.0 < 8 && p.1 < 8,
    ;
}

proof fn lemma_changes_none(prev: Board, next: Board, t: Team, n: int)
    requires
        0 <= n <= 64,
        forall|k: int| #![trigger cell_at(prev, next, k)]
            0 <= k < n ==> !involves(cell_at(prev, next, k).0, cell_at(prev, next, k).1, t),
    ensures
        side_changes_upto(prev, next, t, n) == Seq::<Change>::empty(),
    decreases n,
{
    if n > 0 {
        lemma_changes_none(prev, next, t, n - 1);
    }
}

proof fn lemma_changes_single(prev: Board, next: Board, t: Team, i: int, n: int)
    requires
        0 <= i < 64,
        0 <= n <= 64,
        involves(cell_at(prev, next, i).0, cell_at(prev, next, i).1, t),
        forall|k: int| #![trigger cell_at(prev, next, k)]
            0 <= k < 64 && k != i ==> !involves(
                cell_at(prev, next, k).0,
                cell_at(prev, next, k).1,
                t,
            ),
    ensures
        side_changes_upto(prev, next, t, n) == if n <= i {
            Seq::<Change>::empty()
        } else {
            Seq::<Change>::empty().push(cell_at(prev, next, i))
        },
    decreases n,
{
    if n > 0 {
        lemma_changes_single(prev, next, t, i, n - 1);
    }
}

proof fn lemma_changes_pair(prev: Board, next: Board, t: Team, i: int, j: int, n: int)
    requires
        0 <= i < j < 64,
        0 <= n <= 64,
        involves(cell_at(prev, next, i).0, cell_at(prev, next, i).1, t),
        involves(cell_at(prev, next, j).0, cell_at(prev, next, j).1, t),
        forall|k: int| #![trigger cell_at(prev, next, k)]
            0 <= k < 64 && k != i && k != j ==> !involves(
                cell_at(prev, next, k).0,
                cell_at(prev, next, k).1,
                t,
            ),
    ensures
        side_changes_upto(prev, next, t, n) == if n <= i {
            Seq::<Change>::empty()
        } else if n <= j {
            Seq::<Change>::empty().push(cell_at(prev, next, i))
        } else {
            Seq::<Change>::empty().push(cell_at(prev, next, i)).push(cell_at(prev, next, j))
        },
    decreases n,
{
    if n > 0 {
        lemma_changes_pair(prev, next, t, i, j, n - 1);
    }
}

proof fn lemma_changes_witness(prev: Board, next: Board, t: Team, i: int, n: int)
    requires
        0 <= i < n <= 64,
        involves(cell_at(prev, next, i).0, cell_at(prev, next, i).1, t),
    ensures
        side_changes_upto(prev, next, t, n).len() >= 1,
    decreases n,
{
    if i < n - 1 {
        lemma_changes_witness(prev, next, t, i, n - 1);
    }
}

proof fn lemma_other_involution(t: Team)
    ensures
        t.spec_other().spec_other() == t,
        t.spec_other() != t,
{
}

/// The change record `c` with both occupants handed to the opposing team.
spec fn flipped_change(c: Change) -> Change {
    (flipped_piece(c.0), flipped_piece(c.1), c.2)
}

proof fn lemma_flip_team(p: Piece)
    ensures
        flipped_piece(p).spec_team() == match p.spec_team() {
            Some(u) => Some(u.spec_other()),
            None => None::<Team>,
        },
        flipped_piece(flipped_piece(p)) == p,
{
}

proof fn lemma_flip_eq(x: Piece, y: Piece)
    ensures
        (flipped_piece(x) == flipped_piece(y)) == (x == y),
        (flipped_piece(x) == Piece::Empty) == (x == Piece::Empty),
{
    lemma_flip_team(x);
    lemma_flip_team(y);
}

proof fn lemma_flip_owner(p: Piece, t: Team)
    ensures
        (flipped_piece(p).spec_team() == Some(t.spec_other())) == (p.spec_team() == Some(t)),
{
    lemma_flip_team(p);
    lemma_other_involution(t);
    match p.spec_team() {
        Some(u) => lemma_other_involution(u),
        None => {},
    }
}

proof fn lemma_involves_flipped(a: Piece, b: Piece, t: Team)
    ensures
        involves(flipped_piece(a), flipped_piece(b), t.spec_other()) == involves(a, b, t),
{
    lemma_flip_eq(a, b);
    lemma_flip_owner(a, t);
    lemma_flip_owner(b, t);
}

proof fn lemma_changes_flipped(
    prev: Board,
    next: Board,
    fprev: Board,
    fnext: Board,
    t: Team,
    n: int,
)
    requires
        is_flipped(prev, fprev),
        is_flipped(next, fnext),
        0 <= n <= 64,
    ensures
        side_changes_upto(fprev, fnext, t.spec_other(), n).len() == side_changes_upto(
            prev,
            next,
            t,
            n,
        ).len(),
        forall|k: int|
            0 <= k < side_changes_upto(prev, next, t, n).len() ==> #[trigger] side_changes_upto(
                fprev,
                fnext,
                t.spec_other(),
                n,
            )[k] == flipped_change(side_changes_upto(prev, next, t, n)[k]),
    decreases n,
{
    if n > 0 {
        lemma_changes_flipped(prev, next, fprev, fnext, t, n - 1);
        let i = n - 1;
        lemma_cell_at_scan(prev, next, i);
        lemma_cell_at_scan(fprev, fnext, i);
        let c = cell_at(prev, next, i);
        let fc = cell_at(fprev, fnext, i);
        assert(fc == flipped_change(c)) by {
            assert(0 <= i / 8 < 8 && 0 <= i % 8 < 8) by (nonlinear_arith)
                requires
                    0 <= i < 64,
            ;
        }
        lemma_involves_flipped(c.0, c.1, t);
    }
}

proof fn lemma_resolve_flipped(a: Change, b: Change, opp: Option<Change>, t: Team)
    ensures
        resolve_two(
            flipped_change(a),
            flipped_change(b),
            match opp {
                Some(c) => Some(flipped_change(c)),
                None => None::<Change>,
            },
            t.spec_other(),
        ) == resolve_two(a, b, opp, t),
{
    lemma_other_involution(t);
    lemma_flip_eq(a.0, b.1);
    lemma_flip_eq(b.0, a.1);
    lemma_flip_eq(a.1, a.1);
    lemma_flip_eq(b.1, b.1);
    lemma_flip_owner(a.0, t);
    lemma_flip_owner(a.1, t);
    lemma_flip_owner(b.0, t);
    lemma_flip_owner(b.1, t);
    lemma_flip_owner(a.0, t.spec_other());
    lemma_flip_owner(a.1, t.spec_other());
    lemma_flip_owner(b.0, t.spec_other());
    lemma_flip_owner(b.1, t.spec_other());
    match opp {
        Some(c) => {
            lemma_flip_eq(c.0, a.0);
            lemma_flip_eq(c.0, a.1);
            lemma_flip_eq(c.0, b.0);
            lemma_flip_eq(c.0, b.1);
        },
        None => {},
    }
}

/// Team symmetry: hand every piece on both boards to the opposing team and
/// let the other side move, and the verdict is unchanged.
pub proof fn lemma_team_symmetry(prev: Board, next: Board, fprev: Board, fnext: Board, t: Team)
    requires
        is_flipped(prev, fprev),
        is_flipped(next, fnext),
    ensures
        spec_decipher(fprev, fnext, t.spec_other()) == spec_decipher(prev, next, t),
{
    lemma_other_involution(t);
    lemma_changes_flipped(prev, next, fprev, fnext, t, 64);
    lemma_changes_flipped(prev, next, fprev, fnext, t.spec_other(), 64);
    let m = side_changes(prev, next, t);
    let o = side_changes(prev, next, t.spec_other());
    let fm = side_changes(fprev, fnext, t.spec_other());
    let fo = side_changes(fprev, fnext, t);
    assert(fm.len() == m.len());
    assert(fo.len() == o.len());
    if m.len() == 1 && o.len() == 0 {
        assert(fm[0] == flipped_change(m[0]));
        lemma_flip_owner(m[0].0, t);
        lemma_flip_eq(m[0].1, m[0].1);
    }
    if m.len() == 2 && o.len() <= 1 {
        assert(fm[0] == flipped_change(m[0]));
        assert(fm[1] == flipped_change(m[1]));
        if o.len() == 1 {
            assert(fo[0] == flipped_change(o[0]));
            lemma_resolve_flipped(m[0], m[1], Some(o[0]), t);
        } else {
            lemma_resolve_flipped(m[0], m[1], None, t);
        }
    }
}

/// Identity: comparing any board with itself yields `NoMove`, whichever side
/// is to move.
pub proof fn lemma_identity(b: Board, t: Team)
    ensures
        spec_decipher(b, b, t) == Err::<Move, MoveError>(MoveError::NoMove),
{
    lemma_changes_none(b, b, t, 64);
    lemma_changes_none(b, b, t.spec_other(), 64);
}

/// `NoMove` comes exactly when the two boards agree on every square.
pub proof fn lemma_no_move_iff(prev: Board, next: Board, t: Team)
    ensures
        spec_decipher(prev, next, t) == Err::<Move, MoveError>(MoveError::NoMove) <==> (forall|
            p: Position,
        |
            valid_pos(p) ==> piece_at(next, p) == piece_at(prev, p)),
{
    if forall|p: Position| valid_pos(p) ==> piece_at(next, p) == piece_at(prev, p) {
        assert forall|k: int| #![trigger cell_at(prev, next, k)]
            0 <= k < 64 implies !involves(
            cell_at(prev, next, k).0,
            cell_at(prev, next, k).1,
            t,
        ) && !involves(cell_at(prev, next, k).0, cell_at(prev, next, k).1, t.spec_other()) by {
            lemma_cell_at_scan(prev, next, k);
            assert(valid_pos(pos_of(k)));
            assert(piece_at(next, pos_of(k)) == piece_at(prev, pos_of(k)));
        }
        lemma_changes_none(prev, next, t, 64);
        lemma_changes_none(prev, next, t.spec_other(), 64);
    }
    if spec_decipher(prev, next, t) == Err::<Move, MoveError>(MoveError::NoMove) {
        assert forall|p: Position| valid_pos(p) implies piece_at(next, p) == piece_at(
            prev,
            p,
        ) by {
            if piece_at(next, p) != piece_at(prev, p) {
                lemma_cell_at_pos(prev, next, p);
                let i = scan_index(p);
                let c = cell_at(prev, next, i);
                let u: Team = match c.0.spec_team() {
                    Some(w) => w,
                    None => match c.1.spec_team() {
                        Some(w) => w,
                        None => t,
                    },
                };
                assert(c.0.spec_team() == Some(u) || c.1.spec_team() == Some(u));
                assert(involves(c.0, c.1, u));
                lemma_other_involution(t);
                if u == t {
                    lemma_changes_witness(prev, next, t, i, 64);
                } else {
                    assert(u == t.spec_other());
                    lemma_changes_witness(prev, next, t.spec_other(), i, 64);
                }
            }
        }
    }
}

/// Over-determined diffs: three or more changed squares on the mover's side,
/// or two or more on the opponent's, never look like a single move.
pub proof fn lemma_over_determined(prev: Board, next: Board, t: Team)
    requires
        side_changes(prev, next, t).len() >= 3 || side_changes(
            prev,
            next,
            t.spec_other(),
        ).len() >= 2,
    ensures
        spec_decipher(prev, next, t) == Err::<Move, MoveError>(MoveError::Indecipherable),
{
}

/// Lift without landing: the mover's piece disappears from one square, the
/// square becomes empty, and nothing else changes; the move is in progress.
pub proof fn lemma_lift_without_landing(prev: Board, next: Board, t: Team, from: Position)
    requires
        valid_pos(from),
        piece_at(prev, from).spec_team() == Some(t),
        piece_at(next, from) == Piece::Empty,
        forall|p: Position| #![trigger piece_at(next, p)]
            valid_pos(p) && p != from ==> piece_at(next, p) == piece_at(prev, p),
    ensures
        spec_decipher(prev, next, t) == Err::<Move, MoveError>(MoveError::MakingMove),
{
    lemma_cell_at_pos(prev, next, from);
    let i = scan_index(from);
    assert forall|k: int| #![trigger cell_at(prev, next, k)]
        0 <= k < 64 && k != i implies cell_at(prev, next, k).0 == cell_at(prev, next, k).1 by {
        lemma_cell_at_scan(prev, next, k);
        assert(piece_at(next, pos_of(k)) == piece_at(prev, pos_of(k)));
    }
    lemma_other_involution(t);
    lemma_changes_single(prev, next, t, i, 64);
    lemma_changes_none(prev, next, t.spec_other(), 64);
}

/// Single relocation: one piece of the side to move leaves `from` for the
/// previously empty square `to`, and nothing else changes; the move is
/// recovered, wherever the two squares lie.
pub proof fn lemma_single_relocation(prev: Board, next: Board, t: Team, from: Position, to: Position)
    requires
        valid_pos(from),
        valid_pos(to),
        from != to,
        piece_at(prev, from).spec_team() == Some(t),
        piece_at(prev, to) == Piece::Empty,
        piece_at(next, from) == Piece::Empty,
        piece_at(next, to) == piece_at(prev, from),
        forall|p: Position| #![trigger piece_at(next, p)]
            valid_pos(p) && p != from && p != to ==> piece_at(next, p) == piece_at(prev, p),
    ensures
        spec_decipher(prev, next, t) == Ok::<Move, MoveError>(Move(from, to)),
{
    lemma_cell_at_pos(prev, next, from);
    lemma_cell_at_pos(prev, next, to);
    let fi = scan_index(from);
    let ti = scan_index(to);
    assert(fi != ti);
    assert forall|k: int| #![trigger cell_at(prev, next, k)]
        0 <= k < 64 && k != fi && k != ti implies cell_at(prev, next, k).0 == cell_at(
        prev,
        next,
        k,
    ).1 by {
        lemma_cell_at_scan(prev, next, k);
        assert(piece_at(next, pos_of(k)) == piece_at(prev, pos_of(k)));
    }
    lemma_other_involution(t);
    lemma_changes_none(prev, next, t.spec_other(), 64);
    if fi < ti {
        lemma_changes_pair(prev, next, t, fi, ti, 64);
    } else {
        lemma_changes_pair(prev, next, t, ti, fi, 64);
    }
}

/// Capture consistency, the coherent case: the mover's piece relocates onto a
/// square held by an opposing piece, which vanishes, and nothing else
/// changes; the move is recovered.
pub proof fn lemma_capture(prev: Board, next: Board, t: Team, from: Position, to: Position)
    requires
        valid_pos(from),
        valid_pos(to),
        from != to,
        piece_at(prev, from).spec_team() == Some(t),
        piece_at(prev, to).spec_team() == Some(t.spec_other()),
        piece_at(next, from) == Piece::Empty,
        piece_at(next, to) == piece_at(prev, from),
        forall|p: Position| #![trigger piece_at(next, p)]
            valid_pos(p) && p != from && p != to ==> piece_at(next, p) == piece_at(prev, p),
    ensures
        spec_decipher(prev, next, t) == Ok::<Move, MoveError>(Move(from, to)),
{
    lemma_cell_at_pos(prev, next, from);
    lemma_cell_at_pos(prev, next, to);
    let fi = scan_index(from);
    let ti = scan_index(to);
    assert(fi != ti);
    lemma_other_involution(t);
    assert(piece_at(prev, to) != piece_at(prev, from));
    assert forall|k: int| #![trigger cell_at(prev, next, k)]
        0 <= k < 64 && k != fi && k != ti implies cell_at(prev, next, k).0 == cell_at(
        prev,
        next,
        k,
    ).1 by {
        lemma_cell_at_scan(prev, next, k);
        assert(piece_at(next, pos_of(k)) == piece_at(prev, pos_of(k)));
    }
    if fi < ti {
        lemma_changes_pair(prev, next, t, fi, ti, 64);
    } else {
        lemma_changes_pair(prev, next, t, ti, fi, 64);
    }
    lemma_changes_single(prev, next, t.spec_other(), ti, 64);
}

/// Capture consistency, the mismatched case: a plain relocation onto an empty
/// square cannot be paired with an opposing piece vanishing elsewhere, for
/// the vanished piece is not what stood on the destination.
pub proof fn lemma_capture_mismatch(
    prev: Board,
    next: Board,
    t: Team,
    from: Position,
    to: Position,
    gone: Position,
)
    requires
        valid_pos(from),
        valid_pos(to),
        valid_pos(gone),
        from != to,
        from != gone,
        to != gone,
        piece_at(prev, from).spec_team() == Some(t),
        piece_at(prev, to) == Piece::Empty,
        piece_at(prev, gone).spec_team() == Some(t.spec_other()),
        piece_at(next, from) == Piece::Empty,
        piece_at(next, to) == piece_at(prev, from),
        piece_at(next, gone) == Piece::Empty,
        forall|p: Position| #![trigger piece_at(next, p)]
            valid_pos(p) && p != from && p != to && p != gone ==> piece_at(next, p) == piece_at(
                prev,
                p,
            ),
    ensures
        spec_decipher(prev, next, t) == Err::<Move, MoveError>(MoveError::Indecipherable),
{
    lemma_cell_at_pos(prev, next, from);
    lemma_cell_at_pos(prev, next, to);
    lemma_cell_at_pos(prev, next, gone);
    let fi = scan_index(from);
    let ti = scan_index(to);
    let gi = scan_index(gone);
    assert(fi != ti && fi != gi && ti != gi);
    lemma_other_involution(t);
    assert forall|k: int| #![trigger cell_at(prev, next, k)]
        0 <= k < 64 && k != fi && k != ti && k != gi implies cell_at(prev, next, k).0 == cell_at(
        prev,
        next,
        k,
    ).1 by {
        lemma_cell_at_scan(prev, next, k);
        assert(piece_at(next, pos_of(k)) == piece_at(prev, pos_of(k)));
    }
    if fi < ti {
        lemma_changes_pair(prev, next, t, fi, ti, 64);
    } else {
        lemma_changes_pair(prev, next, t, ti, fi, 64);
    }
    lemma_changes_single(prev, next, t.spec_other(), gi, 64);
}

} // verus!

