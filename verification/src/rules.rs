//! The mathematical model of a position and of the single legality-checked
//! transition `step`. Everything here is specification-level; the
//! executable state machine in `board` is proved against it.

use vstd::prelude::*;

use crate::geom::{
    cell_index, dir_allowed, opposite, pos_valid, shift_spec, Cell, CellPos, Color, MoveDir, Piece,
    PieceMove,
};
use crate::zobrist::zobrist;

verus! {

/// A position: the 64-square grid in row-major order, the forced-jump
/// origins, the side to move and the Zobrist fingerprint.
#[verifier::ext_equal]
pub ghost struct BoardView {
    pub grid: Seq<Cell>,
    pub must_jump: Seq<CellPos>,
    pub turn: Color,
    pub hash: u64,
}

/// The occupant of square `p`.
pub open spec fn at(g: Seq<Cell>, p: CellPos) -> Option<Piece>
    recommends
        pos_valid(p),
        g.len() == 64,
{
    g[cell_index(p)].piece
}

/// An empty square of the grid.
pub open spec fn empty_cell() -> Cell {
    Cell { piece: None }
}

/// True when the piece standing at `cp` can capture in direction `d`:
/// the direction is one the piece moves in, the adjacent square holds an
/// opposing piece, and the square beyond it is on the board and empty.
pub open spec fn can_jump_dir(g: Seq<Cell>, cp: CellPos, d: MoveDir) -> bool
    recommends
        pos_valid(cp),
        g.len() == 64,
{
    &&& at(g, cp) matches Some(pc)
    &&& dir_allowed(pc, d)
    &&& shift_spec(cp, d) matches Some(np)
    &&& at(g, np) matches Some(npc)
    &&& npc.color == opposite(pc.color)
    &&& shift_spec(np, d) matches Some(nnp)
    &&& at(g, nnp) is None
}

/// True when the piece standing at `cp` can capture in some direction.
pub open spec fn can_jump_at(g: Seq<Cell>, cp: CellPos) -> bool
    recommends
        pos_valid(cp),
        g.len() == 64,
{
    ||| can_jump_dir(g, cp, MoveDir::TopRight)
    ||| can_jump_dir(g, cp, MoveDir::TopLeft)
    ||| can_jump_dir(g, cp, MoveDir::DownLeft)
    ||| can_jump_dir(g, cp, MoveDir::DownRight)
}

/// True when `mv` is accepted by the rules in position `m`: the origin
/// holds a piece of the side to move, the forced-jump constraint is
/// respected, the direction is allowed for the piece, the step stays on
/// the board, and the destination square decides between a simple move
/// (only when nothing is forced) and a capture with an empty landing
/// square beyond an opposing piece.
pub open spec fn legal(m: BoardView, mv: PieceMove) -> bool
    recommends
        m.grid.len() == 64,
{
    &&& pos_valid(mv.pos)
    &&& at(m.grid, mv.pos) matches Some(pc)
    &&& pc.color == m.turn
    &&& (m.must_jump.len() != 0 ==> m.must_jump.contains(mv.pos))
    &&& dir_allowed(pc, mv.dir)
    &&& shift_spec(mv.pos, mv.dir) matches Some(np)
    &&& match at(m.grid, np) {
        Some(npc) => {
            &&& npc.color != m.turn
            &&& shift_spec(np, mv.dir) matches Some(nnp)
            &&& at(m.grid, nnp) is None
        },
        None => m.must_jump.len() == 0,
    }
}

/// True when `mv` is a capture in position `m`.
pub open spec fn is_capture(m: BoardView, mv: PieceMove) -> bool
    recommends
        legal(m, mv),
{
    at(m.grid, shift_spec(mv.pos, mv.dir).unwrap()) is Some
}

/// One square after the promotion sweep: a pawn standing on the far row
/// of its color is crowned, everything else is unchanged.
pub open spec fn promote_cell(c: Cell, row: int) -> Cell {
    match c.piece {
        Some(pc) => if (pc.color == Color::White && row == 7) || (pc.color == Color::Black && row
            == 0) {
            Cell { piece: Some(Piece { king: true, color: pc.color }) }
        } else {
            c
        },
        None => c,
    }
}

/// The grid after the promotion sweep.
pub open spec fn promote(g: Seq<Cell>) -> Seq<Cell>
    recommends
        g.len() == 64,
{
    Seq::new(64, |i: int| promote_cell(g[i], i / 8))
}

/// True when the square with row-major index `i` holds a piece of side
/// `t` that can capture; with `kings_only`, a crowned one.
pub open spec fn jumper_at(g: Seq<Cell>, t: Color, kings_only: bool, i: int) -> bool
    recommends
        g.len() == 64,
        0 <= i < 64,
{
    &&& g[i].piece matches Some(pc)
    &&& pc.color == t
    &&& (kings_only ==> pc.king)
    &&& can_jump_at(g, crate::geom::pos_of_index(i))
}

/// True when some crowned piece of side `t` can capture.
pub open spec fn exists_king_jumper(g: Seq<Cell>, t: Color) -> bool {
    exists|i: int| 0 <= i < 64 && #[trigger] jumper_at(g, t, true, i)
}

/// The origins among the first `n` squares, in scan order, whose piece of
/// side `t` can capture (crowned ones only, with `kings_only`).
pub open spec fn jump_origins(g: Seq<Cell>, t: Color, kings_only: bool, n: nat) -> Seq<CellPos>
    decreases n,
{
    if n == 0 {
        Seq::empty()
    } else {
        let rest = jump_origins(g, t, kings_only, (n - 1) as nat);
        if jumper_at(g, t, kings_only, n - 1) {
            rest.push(crate::geom::pos_of_index(n - 1))
        } else {
            rest
        }
    }
}

/// The forced-jump origins of a position whose grid is `g` and whose side
/// to move is `t`: if any king can capture, exactly the king capture
/// origins; otherwise exactly the capture origins, king-priority rule.
pub open spec fn forced_origins(g: Seq<Cell>, t: Color) -> Seq<CellPos>
    recommends
        g.len() == 64,
{
    if exists_king_jumper(g, t) {
        jump_origins(g, t, true, 64)
    } else {
        jump_origins(g, t, false, 64)
    }
}

/// The position after the legal move `mv`: the piece is relocated (a
/// capture also removes the jumped piece); if the capture can continue
/// from the landing square the same side stays to move with exactly that
/// square forced and the fingerprint left as it was; otherwise the turn
/// passes, the forced set is rebuilt and the fingerprint recomputed. The
/// promotion sweep runs last in either case.
pub open spec fn step(m: BoardView, mv: PieceMove) -> BoardView
    recommends
        m.grid.len() == 64,
        legal(m, mv),
{
    let pc = at(m.grid, mv.pos).unwrap();
    let np = shift_spec(mv.pos, mv.dir).unwrap();
    if at(m.grid, np) is Some {
        let nnp = shift_spec(np, mv.dir).unwrap();
        let jumped = m.grid.update(cell_index(mv.pos), empty_cell()).update(
            cell_index(np),
            empty_cell(),
        ).update(cell_index(nnp), Cell { piece: Some(pc) });
        if can_jump_at(jumped, nnp) {
            BoardView {
                grid: promote(jumped),
                must_jump: seq![nnp],
                turn: m.turn,
                hash: m.hash,
            }
        } else {
            let done = promote(jumped);
            let t2 = opposite(m.turn);
            BoardView {
                grid: done,
                must_jump: forced_origins(done, t2),
                turn: t2,
                hash: zobrist(done, t2),
            }
        }
    } else {
        let moved = m.grid.update(cell_index(mv.pos), empty_cell()).update(
            cell_index(np),
            Cell { piece: Some(pc) },
        );
        let done = promote(moved);
        let t2 = opposite(m.turn);
        BoardView {
            grid: done,
            must_jump: forced_origins(done, t2),
            turn: t2,
            hash: zobrist(done, t2),
        }
    }
}

/// How many pieces stand among the first `n` squares of the grid.
pub open spec fn piece_count(g: Seq<Cell>, n: nat) -> nat
    decreases n,
{
    if n == 0 {
        0
    } else {
        piece_count(g, (n - 1) as nat) + (if g[n - 1].piece is Some {
            1nat
        } else {
            0nat
        })
    }
}

/// The positions among the first `n` squares, in scan order, holding a
/// piece of side `c`.
pub open spec fn positions_of(g: Seq<Cell>, c: Color, n: nat) -> Seq<CellPos>
    decreases n,
{
    if n == 0 {
        Seq::empty()
    } else {
        let rest = positions_of(g, c, (n - 1) as nat);
        if g[n - 1].piece matches Some(pc) && pc.color == c {
            rest.push(crate::geom::pos_of_index(n - 1))
        } else {
            rest
        }
    }
}

/// True when some move is legal in `m`.
pub open spec fn has_legal_move(m: BoardView) -> bool {
    exists|mv: PieceMove| #[trigger] legal(m, mv)
}

/// The two index maps between squares and scan indices invert each other.
pub proof fn lemma_index_maps()
    ensures
        forall|p: CellPos| pos_valid(p) ==> #[trigger] crate::geom::pos_of_index(cell_index(p)) == p,
        forall|p: CellPos| pos_valid(p) ==> 0 <= #[trigger] cell_index(p) < 64,
        forall|i: int|
            0 <= i < 64 ==> #[trigger] cell_index(crate::geom::pos_of_index(i)) == i && pos_valid(
                crate::geom::pos_of_index(i),
            ),
{
}

/// One occupied square counts one.
pub open spec fn cell_weight(c: Cell) -> nat {
    if c.piece is Some {
        1nat
    } else {
        0nat
    }
}

/// Replacing one square changes the count by the difference of weights.
pub proof fn lemma_piece_count_update(g: Seq<Cell>, n: nat, i: int, c: Cell)
    requires
        0 <= i < n <= g.len(),
    ensures
        piece_count(g.update(i, c), n) + cell_weight(g[i]) == piece_count(g, n) + cell_weight(c),
    decreases n,
{
    if n > 0 {
        if i == n - 1 {
            lemma_piece_count_congruence(g.update(i, c), g, (n - 1) as nat);
        } else {
            lemma_piece_count_update(g, (n - 1) as nat, i, c);
        }
    }
}

/// Counting only reads the squares below `n`.
pub proof fn lemma_piece_count_congruence(g1: Seq<Cell>, g2: Seq<Cell>, n: nat)
    requires
        forall|k: int| 0 <= k < n ==> cell_weight(#[trigger] g1[k]) == cell_weight(g2[k]),
    ensures
        piece_count(g1, n) == piece_count(g2, n),
    decreases n,
{
    if n > 0 {
        lemma_piece_count_congruence(g1, g2, (n - 1) as nat);
    }
}

/// Crowning changes no square's occupancy, so it keeps the count.
pub proof fn lemma_promote_count(g: Seq<Cell>, n: nat)
    requires
        n <= 64,
        g.len() == 64,
    ensures
        piece_count(promote(g), n) == piece_count(g, n),
{
    assert forall|k: int| 0 <= k < n implies cell_weight(#[trigger] promote(g)[k]) == cell_weight(
        g[k],
    ) by {
        assert(promote(g)[k] == promote_cell(g[k], k / 8));
    }
    lemma_piece_count_congruence(promote(g), g, n);
}

/// A legal capture leaves one piece fewer on the board.
pub proof fn lemma_step_capture_decreases(m: BoardView, mv: PieceMove)
    requires
        m.grid.len() == 64,
        legal(m, mv),
        is_capture(m, mv),
    ensures
        piece_count(step(m, mv).grid, 64) + 1 == piece_count(m.grid, 64),
{
    lemma_index_maps();
    let pc = at(m.grid, mv.pos).unwrap();
    let np = shift_spec(mv.pos, mv.dir).unwrap();
    let nnp = shift_spec(np, mv.dir).unwrap();
    let g1 = m.grid.update(cell_index(mv.pos), empty_cell());
    let g2 = g1.update(cell_index(np), empty_cell());
    let g3 = g2.update(cell_index(nnp), Cell { piece: Some(pc) });
    lemma_piece_count_update(m.grid, 64, cell_index(mv.pos), empty_cell());
    lemma_piece_count_update(g1, 64, cell_index(np), empty_cell());
    lemma_piece_count_update(g2, 64, cell_index(nnp), Cell { piece: Some(pc) });
    lemma_promote_count(g3, 64);
    assert(cell_index(mv.pos) != cell_index(np) && cell_index(np) != cell_index(nnp) && cell_index(
        mv.pos,
    ) != cell_index(nnp));
}

/// A move that keeps the turn is a capture whose landing piece can
/// capture again, so it too removes a piece; and a move made under a
/// non-empty forced set is always a capture.
pub proof fn lemma_step_turn_facts(m: BoardView, mv: PieceMove)
    requires
        m.grid.len() == 64,
        legal(m, mv),
    ensures
        step(m, mv).turn == m.turn ==> is_capture(m, mv),
        m.must_jump.len() != 0 ==> is_capture(m, mv),
        !is_capture(m, mv) ==> step(m, mv).turn == opposite(m.turn),
        opposite(m.turn) != m.turn,
{
}

/// What the scan-order origin list holds: exactly the qualifying squares
/// below `n`.
pub proof fn lemma_jump_origins_contains(g: Seq<Cell>, t: Color, kings_only: bool, n: nat, p: CellPos)
    requires
        g.len() == 64,
        n <= 64,
    ensures
        jump_origins(g, t, kings_only, n).contains(p) <==> (pos_valid(p) && cell_index(p) < n
            && jumper_at(g, t, kings_only, cell_index(p))),
    decreases n,
{
    lemma_index_maps();
    if n == 0 {
    } else {
        lemma_jump_origins_contains(g, t, kings_only, (n - 1) as nat, p);
        let rest = jump_origins(g, t, kings_only, (n - 1) as nat);
        let q = crate::geom::pos_of_index(n - 1);
        if jumper_at(g, t, kings_only, n - 1) {
            assert(jump_origins(g, t, kings_only, n) == rest.push(q));
            if pos_valid(p) && cell_index(p) < n && jumper_at(g, t, kings_only, cell_index(p)) {
                if cell_index(p) == n - 1 {
                    assert(rest.push(q)[rest.len() as int] == p);
                    assert(rest.push(q).contains(p));
                } else {
                    assert(rest.contains(p));
                    let w = choose|w: int| 0 <= w < rest.len() && rest[w] == p;
                    assert(rest.push(q)[w] == p);
                }
            }
            if rest.push(q).contains(p) {
                let w = choose|w: int| 0 <= w < rest.push(q).len() && rest.push(q)[w] == p;
                if w < rest.len() {
                    assert(rest[w] == p);
                } else {
                    assert(p == q);
                }
            }
        }
    }
}

/// What the scan-order piece list holds: exactly the squares below `n`
/// occupied by the given side.
pub proof fn lemma_positions_of_contains(g: Seq<Cell>, c: Color, n: nat, p: CellPos)
    requires
        g.len() == 64,
        n <= 64,
    ensures
        positions_of(g, c, n).contains(p) <==> (pos_valid(p) && cell_index(p) < n && (g[cell_index(
            p,
        )].piece matches Some(pc) && pc.color == c)),
    decreases n,
{
    lemma_index_maps();
    if n == 0 {
    } else {
        lemma_positions_of_contains(g, c, (n - 1) as nat, p);
        let rest = positions_of(g, c, (n - 1) as nat);
        let q = crate::geom::pos_of_index(n - 1);
        if g[n - 1].piece matches Some(pc) && pc.color == c {
            assert(positions_of(g, c, n) == rest.push(q));
            if pos_valid(p) && cell_index(p) < n && (g[cell_index(p)].piece matches Some(pc2)
                && pc2.color == c) {
                if cell_index(p) == n - 1 {
                    assert(rest.push(q)[rest.len() as int] == p);
                } else {
                    assert(rest.contains(p));
                    let w = choose|w: int| 0 <= w < rest.len() && rest[w] == p;
                    assert(rest.push(q)[w] == p);
                }
            }
            if rest.push(q).contains(p) {
                let w = choose|w: int| 0 <= w < rest.push(q).len() && rest.push(q)[w] == p;
                if w < rest.len() {
                    assert(rest[w] == p);
                } else {
                    assert(p == q);
                }
            }
        }
    }
}

} // verus!
