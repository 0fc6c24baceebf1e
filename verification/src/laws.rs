//! Game-level properties of the rules, stated and proved over the model:
//! hash consistency, soundness of the forced-jump set, the king-priority
//! rule, promotion, and the symmetries of the static evaluator.

use vstd::prelude::*;

use crate::geom::{
    cell_index, opposite, pos_of_index, pos_valid, shift_spec, Cell, CellPos, Color, MoveDir,
    Piece, PieceMove,
};
use crate::rules::{
    at, can_jump_at, can_jump_dir, exists_king_jumper, forced_origins, is_capture, jumper_at,
    legal, lemma_index_maps, lemma_jump_origins_contains, promote, promote_cell, step, BoardView,
};
use crate::zobrist::zobrist;

verus! {

/// Hash consistency: two boards with the same occupancy and the same side
/// to move carry the same fingerprint whenever each carries the
/// fingerprint of its own position, however they were reached. A board
/// inside a capture chain keeps a stale fingerprint and is outside this
/// statement.
pub proof fn lemma_hash_consistency(a: BoardView, b: BoardView)
    requires
        a.grid == b.grid,
        a.turn == b.turn,
        a.hash == zobrist(a.grid, a.turn),
        b.hash == zobrist(b.grid, b.turn),
    ensures
        a.hash == b.hash,
{
}

/// One step keeps a capture possible from the same square: crowning
/// changes no square's occupancy or color, and the piece at `p` itself is
/// only ever strengthened.
pub proof fn lemma_promote_preserves_can_jump(g: Seq<Cell>, p: CellPos)
    requires
        g.len() == 64,
        pos_valid(p),
        can_jump_at(g, p),
    ensures
        can_jump_at(promote(g), p),
{
    lemma_index_maps();
    let gm = promote(g);
    assert forall|q: CellPos| pos_valid(q) implies #[trigger] at(gm, q) == promote_cell(
        g[cell_index(q)],
        q.row as int,
    ).piece by {
        assert(gm[cell_index(q)] == promote_cell(g[cell_index(q)], cell_index(q) / 8));
        assert(cell_index(q) / 8 == q.row as int);
    }
    assert forall|d: MoveDir| can_jump_dir(g, p, d) implies can_jump_dir(gm, p, d) by {
        let pc = at(g, p).unwrap();
        let np = shift_spec(p, d).unwrap();
        let nnp = shift_spec(np, d).unwrap();
        assert(pos_valid(np) && pos_valid(nnp));
        assert(at(gm, np) matches Some(npc2) && npc2.color == at(g, np).unwrap().color);
        assert(at(gm, p) matches Some(pc2) && pc2.color == pc.color && (pc.king ==> pc2.king));
        assert(at(gm, nnp) is None);
    }
}

/// Moving one diagonal step never leaves the board's coordinate range.
pub proof fn lemma_shift_valid(p: CellPos, d: MoveDir)
    requires
        pos_valid(p),
    ensures
        shift_spec(p, d) matches Some(q) ==> pos_valid(q),
{
}

/// Forced-jump soundness: when a move leaves the forced set non-empty,
/// every cell in it holds a piece of the new side to move that can
/// capture; when it leaves it empty, no piece of the new side to move
/// can capture.
pub proof fn lemma_forced_jump_soundness(m: BoardView, mv: PieceMove)
    requires
        m.grid.len() == 64,
        legal(m, mv),
    ensures
        forall|p: CellPos|
            #[trigger] step(m, mv).must_jump.contains(p) ==> pos_valid(p) && can_jump_at(
                step(m, mv).grid,
                p,
            ) && (at(step(m, mv).grid, p) matches Some(pc) && pc.color == step(m, mv).turn),
        step(m, mv).must_jump.len() == 0 ==> forall|p: CellPos|
            pos_valid(p) && (#[trigger] at(step(m, mv).grid, p) matches Some(pc) && pc.color
                == step(m, mv).turn) ==> !can_jump_at(step(m, mv).grid, p),
{
    lemma_index_maps();
    let m2 = step(m, mv);
    let pc = at(m.grid, mv.pos).unwrap();
    let np = shift_spec(mv.pos, mv.dir).unwrap();
    lemma_shift_valid(mv.pos, mv.dir);
    if is_capture(m, mv) {
        let nnp = shift_spec(np, mv.dir).unwrap();
        lemma_shift_valid(np, mv.dir);
        let jumped = m.grid.update(cell_index(mv.pos), crate::rules::empty_cell()).update(
            cell_index(np),
            crate::rules::empty_cell(),
        ).update(cell_index(nnp), Cell { piece: Some(pc) });
        if can_jump_at(jumped, nnp) {
            lemma_promote_preserves_can_jump(jumped, nnp);
            assert forall|p: CellPos| #[trigger] m2.must_jump.contains(p) implies p == nnp by {
                assert(m2.must_jump == seq![nnp]);
                let w = choose|w: int| 0 <= w < m2.must_jump.len() && m2.must_jump[w] == p;
                assert(w == 0);
            }
            assert(at(m2.grid, nnp) matches Some(pc2) && pc2.color == pc.color) by {
                assert(m2.grid[cell_index(nnp)] == promote_cell(
                    jumped[cell_index(nnp)],
                    cell_index(nnp) / 8,
                ));
            }
        } else {
            lemma_forced_origins_sound(promote(jumped), opposite(m.turn));
        }
    } else {
        let moved = m.grid.update(cell_index(mv.pos), crate::rules::empty_cell()).update(
            cell_index(np),
            Cell { piece: Some(pc) },
        );
        lemma_forced_origins_sound(promote(moved), opposite(m.turn));
    }
}

/// What the recomputed forced set means: it holds exactly the capture
/// origins of the side to move, kings alone when a king can capture; and
/// when it is empty, that side has no capture at all.
pub proof fn lemma_forced_origins_sound(g: Seq<Cell>, t: Color)
    requires
        g.len() == 64,
    ensures
        forall|p: CellPos|
            #[trigger] forced_origins(g, t).contains(p) ==> pos_valid(p) && can_jump_at(g, p) && (
            at(g, p) matches Some(pc) && pc.color == t),
        forced_origins(g, t).len() == 0 ==> forall|p: CellPos|
            pos_valid(p) && (#[trigger] at(g, p) matches Some(pc) && pc.color == t)
                ==> !can_jump_at(g, p),
{
    lemma_index_maps();
    assert forall|p: CellPos| #[trigger] forced_origins(g, t).contains(p) implies pos_valid(p)
        && can_jump_at(g, p) && (at(g, p) matches Some(pc) && pc.color == t) by {
        if exists_king_jumper(g, t) {
            lemma_jump_origins_contains(g, t, true, 64, p);
        } else {
            lemma_jump_origins_contains(g, t, false, 64, p);
        }
    }
    if forced_origins(g, t).len() == 0 {
        assert forall|p: CellPos|
            pos_valid(p) && (#[trigger] at(g, p) matches Some(pc) && pc.color == t)
                implies !can_jump_at(g, p) by {
            if can_jump_at(g, p) {
                assert(jumper_at(g, t, false, cell_index(p)));
                if exists_king_jumper(g, t) {
                    let i = choose|i: int| 0 <= i < 64 && #[trigger] jumper_at(g, t, true, i);
                    lemma_jump_origins_contains(g, t, true, 64, pos_of_index(i));
                    assert(forced_origins(g, t).contains(pos_of_index(i)));
                } else {
                    lemma_jump_origins_contains(g, t, false, 64, p);
                    assert(forced_origins(g, t).contains(p));
                }
            }
        }
    }
}

/// King priority: while any king of side `t` can capture, the recomputed
/// forced set holds king squares only. A single capture chain in
/// progress overrides this: its continuation square is forced even when
/// it is a pawn's.
pub proof fn lemma_king_priority(g: Seq<Cell>, t: Color)
    requires
        g.len() == 64,
        exists_king_jumper(g, t),
    ensures
        forall|p: CellPos|
            #[trigger] forced_origins(g, t).contains(p) ==> (at(g, p) matches Some(pc) && pc.king
                && pc.color == t),
{
    lemma_index_maps();
    assert forall|p: CellPos| #[trigger] forced_origins(g, t).contains(p) implies (at(g, p)
        matches Some(pc) && pc.king && pc.color == t) by {
        lemma_jump_origins_contains(g, t, true, 64, p);
    }
}

/// Promotion: after any accepted move, no pawn rests on the far row of
/// its color — a pawn that ends a move there is a king before the call
/// returns.
pub proof fn lemma_promotion(m: BoardView, mv: PieceMove)
    requires
        m.grid.len() == 64,
        legal(m, mv),
    ensures
        forall|p: CellPos|
            pos_valid(p) ==> ((#[trigger] at(step(m, mv).grid, p)) matches Some(pc) ==> ((pc.color
                == Color::White && p.row == 7) ==> pc.king) && ((pc.color == Color::Black && p.row
                == 0) ==> pc.king)),
{
    lemma_index_maps();
    let m2 = step(m, mv);
    assert forall|p: CellPos| pos_valid(p) implies ((#[trigger] at(m2.grid, p)) matches Some(pc)
        ==> ((pc.color == Color::White && p.row == 7) ==> pc.king) && ((pc.color == Color::Black
        && p.row == 0) ==> pc.king)) by {
        let pc0 = at(m.grid, mv.pos).unwrap();
        let np = shift_spec(mv.pos, mv.dir).unwrap();
        if is_capture(m, mv) {
            let nnp = shift_spec(np, mv.dir).unwrap();
            let jumped = m.grid.update(cell_index(mv.pos), crate::rules::empty_cell()).update(
                cell_index(np),
                crate::rules::empty_cell(),
            ).update(cell_index(nnp), Cell { piece: Some(pc0) });
            assert(m2.grid[cell_index(p)] == promote_cell(jumped[cell_index(p)], cell_index(p) / 8));
            assert(cell_index(p) / 8 == p.row as int);
        } else {
            let moved = m.grid.update(cell_index(mv.pos), crate::rules::empty_cell()).update(
                cell_index(np),
                Cell { piece: Some(pc0) },
            );
            assert(m2.grid[cell_index(p)] == promote_cell(moved[cell_index(p)], cell_index(p) / 8));
            assert(cell_index(p) / 8 == p.row as int);
        }
    }
}

/// A board between completed plies is consistent: its forced set is the
/// recomputed one for its side to move, and its fingerprint is the
/// fingerprint of its position.
pub open spec fn consistent(m: BoardView) -> bool {
    &&& m.grid.len() == 64
    &&& m.must_jump == forced_origins(m.grid, m.turn)
    &&& m.hash == zobrist(m.grid, m.turn)
}

/// Every accepted move ends in one of two state classes: a completed ply
/// hands a consistent board to the opponent; a capture that must continue
/// keeps the turn, forces exactly one square and leaves the fingerprint
/// stale — a mid-chain state is not a hashable position.
pub proof fn lemma_step_consistency(m: BoardView, mv: PieceMove)
    requires
        m.grid.len() == 64,
        legal(m, mv),
    ensures
        step(m, mv).grid.len() == 64,
        step(m, mv).turn != m.turn ==> consistent(step(m, mv)),
        step(m, mv).turn == m.turn ==> step(m, mv).must_jump.len() == 1 && step(m, mv).hash
            == m.hash,
{
}

/// The standard starting position forces nothing: no piece of the side to
/// move has a capture available.
pub proof fn lemma_opening_forces_nothing()
    ensures
        forced_origins(crate::board::start_grid(), Color::Black) == Seq::<CellPos>::empty(),
        consistent(
            BoardView {
                grid: crate::board::start_grid(),
                must_jump: Seq::empty(),
                turn: Color::Black,
                hash: zobrist(crate::board::start_grid(), Color::Black),
            },
        ),
{
    lemma_index_maps();
    let g = crate::board::start_grid();
    assert forall|p: CellPos, d: MoveDir| pos_valid(p) implies !can_jump_dir(g, p, d) by {
        if can_jump_dir(g, p, d) {
            let pc = at(g, p).unwrap();
            let np = shift_spec(p, d).unwrap();
            let npc = at(g, np).unwrap();
            assert(g[cell_index(p)] == crate::board::start_cell(cell_index(p)));
            assert(g[cell_index(np)] == crate::board::start_cell(cell_index(np)));
            assert(cell_index(p) / 8 == p.row as int);
            assert(cell_index(np) / 8 == np.row as int);
            // both occupants come from the three home rows of their side,
            // yet a capture needs them on adjacent rows
            assert(pc.color == Color::White ==> p.row < 3 && np.row < 3);
            assert(pc.color == Color::Black ==> p.row > 4 && np.row > 4);
            assert(false);
        }
    }
    let fo = forced_origins(g, Color::Black);
    assert(fo.len() == 0) by {
        if fo.len() > 0 {
            let p = fo[0];
            assert(fo.contains(p));
            if exists_king_jumper(g, Color::Black) {
                lemma_jump_origins_contains(g, Color::Black, true, 64, p);
            } else {
                lemma_jump_origins_contains(g, Color::Black, false, 64, p);
            }
        }
    }
    assert(fo =~= Seq::<CellPos>::empty());
}

/// The vertical reflection of a direction.
pub open spec fn vflip(d: MoveDir) -> MoveDir {
    match d {
        MoveDir::TopLeft => MoveDir::DownLeft,
        MoveDir::TopRight => MoveDir::DownRight,
        MoveDir::DownLeft => MoveDir::TopLeft,
        MoveDir::DownRight => MoveDir::TopRight,
    }
}

/// The square `p` reflected to the other side's half.
pub open spec fn mpos(p: CellPos) -> CellPos
    recommends
        pos_valid(p),
{
    CellPos { row: (7 - p.row) as usize, col: p.col }
}

/// One square with its piece handed to the other side.
pub open spec fn mirror_cell(c: Cell) -> Cell {
    match c.piece {
        None => c,
        Some(pc) => Cell { piece: Some(Piece { king: pc.king, color: opposite(pc.color) }) },
    }
}

/// The scan index of the reflected square.
pub open spec fn mirror_index(i: int) -> int {
    56 - 8 * (i / 8) + i % 8
}

/// The board reflected vertically with every piece's color swapped: the
/// same position seen from the other player's side.
pub open spec fn mirror_grid(g: Seq<Cell>) -> Seq<Cell> {
    Seq::new(64, |i: int| mirror_cell(g[mirror_index(i)]))
}

/// Reading the mirrored board at `p` reads the original at the
/// reflected square, with the piece's color swapped.
pub proof fn lemma_mirror_at(g: Seq<Cell>, p: CellPos)
    requires
        g.len() == 64,
        pos_valid(p),
    ensures
        at(mirror_grid(g), p) == mirror_cell(g[cell_index(mpos(p))]).piece,
        pos_valid(mpos(p)),
{
    assert(mirror_grid(g)[cell_index(p)] == mirror_cell(g[mirror_index(cell_index(p))]));
    assert(mirror_index(cell_index(p)) == cell_index(mpos(p)));
}

/// A step on the mirrored board matches the reflected step on the
/// original.
pub proof fn lemma_mirror_shift(p: CellPos, d: MoveDir)
    requires
        pos_valid(p),
    ensures
        shift_spec(p, d) is None <==> shift_spec(mpos(p), vflip(d)) is None,
        shift_spec(p, d) matches Some(q) ==> pos_valid(q) && shift_spec(mpos(p), vflip(d)) == Some(
            mpos(q),
        ),
{
}

/// A capture in a direction exists on the mirrored board exactly when
/// the reflected capture exists on the original.
pub proof fn lemma_mirror_can_jump_dir(g: Seq<Cell>, p: CellPos, d: MoveDir)
    requires
        g.len() == 64,
        pos_valid(p),
    ensures
        can_jump_dir(mirror_grid(g), p, d) == can_jump_dir(g, mpos(p), vflip(d)),
{
    let gm = mirror_grid(g);
    let q = mpos(p);
    let vd = vflip(d);
    lemma_mirror_at(g, p);
    lemma_mirror_shift(p, d);
    match shift_spec(p, d) {
        Some(np) => {
            lemma_mirror_at(g, np);
            lemma_mirror_shift(np, d);
            match shift_spec(np, d) {
                Some(nnp) => {
                    lemma_mirror_at(g, nnp);
                },
                None => {},
            }
        },
        None => {},
    }
}

/// A capture from `p` exists on the mirrored board exactly when one
/// exists from the reflected square on the original.
pub proof fn lemma_mirror_can_jump(g: Seq<Cell>, p: CellPos)
    requires
        g.len() == 64,
        pos_valid(p),
    ensures
        can_jump_at(mirror_grid(g), p) == can_jump_at(g, mpos(p)),
{
    lemma_mirror_can_jump_dir(g, p, MoveDir::TopLeft);
    lemma_mirror_can_jump_dir(g, p, MoveDir::TopRight);
    lemma_mirror_can_jump_dir(g, p, MoveDir::DownLeft);
    lemma_mirror_can_jump_dir(g, p, MoveDir::DownRight);
}

/// True when the square one step away is on the board and empty; the
/// mirrored reading.
pub proof fn lemma_mirror_open(g: Seq<Cell>, p: CellPos, d: MoveDir)
    requires
        g.len() == 64,
        pos_valid(p),
    ensures
        crate::heuristic::open_square(mirror_grid(g), p, d) == crate::heuristic::open_square(
            g,
            mpos(p),
            vflip(d),
        ),
{
    lemma_mirror_shift(p, d);
    match shift_spec(p, d) {
        Some(np) => {
            lemma_mirror_at(g, np);
        },
        None => {},
    }
}

/// A square of the mirrored board scores what the reflected square
/// scores for the other side to move.
pub proof fn lemma_mirror_cell_score(g: Seq<Cell>, t: Color, i: int)
    requires
        g.len() == 64,
        0 <= i < 64,
    ensures
        crate::heuristic::cell_score(mirror_grid(g), t, i) == crate::heuristic::cell_score(
            g,
            opposite(t),
            mirror_index(i),
        ),
{
    reveal(crate::heuristic::piece_base);
    lemma_index_maps();
    let gm = mirror_grid(g);
    let p = pos_of_index(i);
    let q = mpos(p);
    assert(cell_index(p) == i);
    assert(mirror_index(i) == cell_index(q));
    assert(pos_of_index(mirror_index(i)) == q);
    lemma_mirror_at(g, p);
    assert(gm[i] == mirror_cell(g[cell_index(q)]));
    match g[cell_index(q)].piece {
        None => {},
        Some(pc) => {
            let pcm = Piece { king: pc.king, color: opposite(pc.color) };
            lemma_mirror_can_jump(g, p);
            lemma_mirror_open(g, p, crate::heuristic::fwd_left(pcm.color));
            lemma_mirror_open(g, p, crate::heuristic::fwd_right(pcm.color));
            lemma_mirror_open(g, p, crate::heuristic::back_left(pcm.color));
            lemma_mirror_open(g, p, crate::heuristic::back_right(pcm.color));
            assert(vflip(crate::heuristic::fwd_left(pcm.color)) == crate::heuristic::fwd_left(
                pc.color,
            ));
            assert(vflip(crate::heuristic::fwd_right(pcm.color)) == crate::heuristic::fwd_right(
                pc.color,
            ));
            assert(vflip(crate::heuristic::back_left(pcm.color)) == crate::heuristic::back_left(
                pc.color,
            ));
            assert(vflip(crate::heuristic::back_right(pcm.color)) == crate::heuristic::back_right(
                pc.color,
            ));
            assert(crate::heuristic::pawn_adj(gm, p, pcm.color) == crate::heuristic::pawn_adj(
                g,
                q,
                pc.color,
            ));
            assert(crate::heuristic::piece_base(gm, t, p, pcm) == crate::heuristic::piece_base(
                g,
                opposite(t),
                q,
                pc,
            ));
        },
    }
}

/// The first `k` squares of a mirrored row sum to what the first `k`
/// squares of the reflected row sum to, for the other side to move.
#[verifier::rlimit(100)]
pub proof fn lemma_mirror_row_prefix(g: Seq<Cell>, t: Color, r: int, k: int)
    requires
        g.len() == 64,
        0 <= r < 8,
        0 <= k <= 8,
    ensures
        crate::heuristic::heuristic_sum(mirror_grid(g), t, (8 * r + k) as nat)
            - crate::heuristic::heuristic_sum(mirror_grid(g), t, (8 * r) as nat)
            == crate::heuristic::heuristic_sum(g, opposite(t), (8 * (7 - r) + k) as nat)
            - crate::heuristic::heuristic_sum(g, opposite(t), (8 * (7 - r)) as nat),
    decreases k,
{
    let gm = mirror_grid(g);
    let t2 = opposite(t);
    if k > 0 {
        lemma_mirror_row_prefix(g, t, r, k - 1);
        lemma_mirror_cell_score(g, t, 8 * r + k - 1);
        assert(mirror_index(8 * r + k - 1) == 8 * (7 - r) + k - 1);
        assert(crate::heuristic::heuristic_sum(gm, t, (8 * r + k) as nat)
            == crate::heuristic::heuristic_sum(gm, t, (8 * r + k - 1) as nat)
            + crate::heuristic::cell_score(gm, t, 8 * r + k - 1));
        assert(crate::heuristic::heuristic_sum(g, t2, (8 * (7 - r) + k) as nat)
            == crate::heuristic::heuristic_sum(g, t2, (8 * (7 - r) + k - 1) as nat)
            + crate::heuristic::cell_score(g, t2, 8 * (7 - r) + k - 1));
    }
}

/// The mirrored board's first `m` rows sum to the original's last `m`
/// rows, for the other side to move.
pub proof fn lemma_mirror_rows(g: Seq<Cell>, t: Color, m: int)
    requires
        g.len() == 64,
        0 <= m <= 8,
    ensures
        crate::heuristic::heuristic_sum(mirror_grid(g), t, (8 * m) as nat)
            == crate::heuristic::heuristic_sum(g, opposite(t), 64)
            - crate::heuristic::heuristic_sum(g, opposite(t), (8 * (8 - m)) as nat),
    decreases m,
{
    if m > 0 {
        lemma_mirror_rows(g, t, m - 1);
        lemma_mirror_row_prefix(g, t, m - 1, 8);
    }
}

/// The evaluator only sees the position relative to each side: reflecting
/// the board vertically, swapping the colors and handing the move to the
/// relabeled same player leaves the score unchanged, on every position.
pub proof fn lemma_heuristic_mirror_invariance(g: Seq<Cell>, t: Color)
    requires
        g.len() == 64,
    ensures
        crate::heuristic::heuristic_sum(mirror_grid(g), opposite(t), 64)
            == crate::heuristic::heuristic_sum(g, t, 64),
{
    lemma_mirror_rows(g, opposite(t), 8);
}

/// Flipping only the side to move negates every square's contribution,
/// on positions where no piece of either side has a capture available —
/// the capture bonus is the one term the turn decides.
pub proof fn lemma_turn_flip_negates(g: Seq<Cell>, t: Color, n: nat)
    requires
        g.len() == 64,
        n <= 64,
        forall|p: CellPos| pos_valid(p) ==> !(#[trigger] can_jump_at(g, p)),
    ensures
        crate::heuristic::heuristic_sum(g, opposite(t), n) == -crate::heuristic::heuristic_sum(
            g,
            t,
            n,
        ),
    decreases n,
{
    reveal(crate::heuristic::piece_base);
    lemma_index_maps();
    if n > 0 {
        lemma_turn_flip_negates(g, t, (n - 1) as nat);
        let i = n - 1;
        let p = pos_of_index(i as int);
        assert(pos_valid(p));
        assert(!can_jump_at(g, p));
        assert(crate::heuristic::cell_score(g, opposite(t), i as int)
            == -crate::heuristic::cell_score(g, t, i as int));
    }
}

/// Heuristic antisymmetry: reflecting the board vertically with the
/// colors swapped while the turn label stays — the other player is then
/// to move — negates the score, on positions where neither side has a
/// capture available. With a capture on the board, the side-to-move
/// capture bonus breaks the exact negation.
pub proof fn lemma_heuristic_antisymmetry(g: Seq<Cell>, t: Color)
    requires
        g.len() == 64,
        forall|p: CellPos| pos_valid(p) ==> !(#[trigger] can_jump_at(g, p)),
    ensures
        crate::heuristic::heuristic_sum(mirror_grid(g), t, 64)
            == -crate::heuristic::heuristic_sum(g, t, 64),
{
    lemma_mirror_rows(g, t, 8);
    lemma_turn_flip_negates(g, t, 64);
}

} // verus!
