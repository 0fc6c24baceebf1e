//! The static evaluator: a hand-tuned score over a position snapshot,
//! always from the perspective of the side to move; and the move orderer
//! that ranks candidate origins by a one-ply lookahead of that score.

use vstd::multiset::Multiset;
use vstd::prelude::*;

use crate::board::Board;
use crate::geom::{
    pos_of_index, pos_valid, shift_spec, Cell, CellPos, Color, MoveDir, Piece, PieceMove,
};
use crate::rules::{at, can_jump_at, legal, step, BoardView};
use crate::LOST;

verus! {

/// The row bonus of a pawn, indexed by its color-relative row: home row
/// guarded, near-promotion rows rewarded most.
pub open spec fn pawn_row_val(rr: int) -> int {
    if rr == 0 {
        7
    } else if rr == 1 {
        0
    } else if rr == 2 {
        1
    } else if rr == 3 {
        2
    } else if rr == 4 {
        3
    } else if rr == 5 {
        4
    } else if rr == 6 {
        5
    } else {
        9
    }
}

/// The row bonus of a king, indexed by its color-relative row: the middle
/// rows are worth most.
pub open spec fn king_row_val(rr: int) -> int {
    if rr == 0 || rr == 7 {
        1
    } else if rr == 3 || rr == 4 {
        3
    } else {
        2
    }
}

/// The centre bonus: the 6-by-6 sub-board, and inside it the 4-by-4 one.
pub open spec fn center_val(r: int, c: int) -> int {
    if 1 <= c <= 6 && 1 <= r <= 6 {
        3 + (if 2 <= c <= 5 && 2 <= r <= 5 {
            1int
        } else {
            0int
        })
    } else {
        0
    }
}

/// The forward-left direction of a color: towards its far row.
pub open spec fn fwd_left(c: Color) -> MoveDir {
    if c == Color::White {
        MoveDir::TopLeft
    } else {
        MoveDir::DownLeft
    }
}

/// The forward-right direction of a color.
pub open spec fn fwd_right(c: Color) -> MoveDir {
    if c == Color::White {
        MoveDir::TopRight
    } else {
        MoveDir::DownRight
    }
}

/// The backward-left direction of a color: towards its home row.
pub open spec fn back_left(c: Color) -> MoveDir {
    if c == Color::White {
        MoveDir::DownLeft
    } else {
        MoveDir::TopLeft
    }
}

/// The backward-right direction of a color.
pub open spec fn back_right(c: Color) -> MoveDir {
    if c == Color::White {
        MoveDir::DownRight
    } else {
        MoveDir::TopRight
    }
}

/// True when the square one step from `p` in direction `d` is on the
/// board and empty.
pub open spec fn open_square(g: Seq<Cell>, p: CellPos, d: MoveDir) -> bool {
    shift_spec(p, d) matches Some(q) && at(g, q) is None
}

/// A pawn's neighbourhood adjustment: a penalty of one for each open
/// forward landing square missing a friendly neighbour, and of two for
/// each open backward square leaving it exposed to a capture.
pub open spec fn pawn_adj(g: Seq<Cell>, p: CellPos, col: Color) -> int {
    (if open_square(g, p, fwd_left(col)) {
        -1int
    } else {
        0int
    }) + (if open_square(g, p, fwd_right(col)) {
        -1int
    } else {
        0int
    }) + (if open_square(g, p, back_left(col)) {
        -2int
    } else {
        0int
    }) + (if open_square(g, p, back_right(col)) {
        -2int
    } else {
        0int
    })
}

/// The unsigned worth of the piece `pc` standing at `p`: material, centre
/// bonus, a bonus when the side to move can capture with it, and the
/// king or pawn positional terms.
#[verifier::opaque]
pub open spec fn piece_base(g: Seq<Cell>, t: Color, p: CellPos, pc: Piece) -> int {
    let rr = if pc.color == Color::White {
        p.row as int
    } else {
        7 - p.row
    };
    5 + center_val(p.row as int, p.col as int) + (if pc.color == t && can_jump_at(g, p) {
        3int
    } else {
        0int
    }) + (if pc.king {
        10 + king_row_val(rr)
    } else {
        pawn_row_val(rr) + pawn_adj(g, p, pc.color)
    })
}

/// The signed contribution of square `i`: the piece's worth, negated for
/// the side not to move; an empty square contributes nothing.
pub open spec fn cell_score(g: Seq<Cell>, t: Color, i: int) -> int {
    match g[i].piece {
        None => 0,
        Some(pc) => if pc.color == t {
            piece_base(g, t, pos_of_index(i), pc)
        } else {
            -piece_base(g, t, pos_of_index(i), pc)
        },
    }
}

/// The sum of the contributions of the first `n` squares.
pub open spec fn heuristic_sum(g: Seq<Cell>, t: Color, n: nat) -> int
    decreases n,
{
    if n == 0 {
        0
    } else {
        heuristic_sum(g, t, (n - 1) as nat) + cell_score(g, t, n - 1)
    }
}

/// The static score of a position, from the perspective of its side to
/// move.
pub open spec fn heuristic_spec(m: BoardView) -> int {
    heuristic_sum(m.grid, m.turn, 64)
}

/// Every square contributes at most 25 either way.
pub proof fn lemma_cell_score_bound(g: Seq<Cell>, t: Color, i: int)
    ensures
        -25 <= cell_score(g, t, i) <= 25,
{
    reveal(piece_base);
}

/// The whole board's score stays within 25 per square.
pub proof fn lemma_heuristic_sum_bound(g: Seq<Cell>, t: Color, n: nat)
    ensures
        -25 * n <= heuristic_sum(g, t, n) <= 25 * n,
    decreases n,
{
    if n > 0 {
        lemma_heuristic_sum_bound(g, t, (n - 1) as nat);
        lemma_cell_score_bound(g, t, n - 1);
    }
}

/// True when the square one step from `p` in direction `d` is on the
/// board and empty.
fn open_square_exec(board: &Board, p: CellPos, d: MoveDir) -> (r: bool)
    requires
        board.wf(),
        pos_valid(p),
    ensures
        r == open_square(board@.grid, p, d),
{
    match p.shift(d) {
        Some(q) => board.get(q).is_none(),
        None => false,
    }
}

/// The unsigned worth of the piece `pc` standing at `p`.
#[verifier::rlimit(50)]
fn score_piece(board: &Board, p: CellPos, pc: Piece) -> (b: i64)
    requires
        board.wf(),
        pos_valid(p),
        at(board@.grid, p) == Some(pc),
    ensures
        b == piece_base(board@.grid, board@.turn, p, pc),
        -6 <= b <= 25,
{
    proof {
        reveal(piece_base);
    }
    let mut b: i64 = 5;
    if p.col >= 1 && p.col <= 6 && p.row >= 1 && p.row <= 6 {
        b = b + 3;
        if p.col >= 2 && p.col <= 5 && p.row >= 2 && p.row <= 5 {
            b = b + 1;
        }
    }
    if pc.color == board.turn {
        if board.can_jump(p) {
            b = b + 3;
        }
    }
    let rr: usize = if pc.color == Color::White {
        p.row
    } else {
        7 - p.row
    };
    if pc.king {
        b = b + 10;
        let kv: i64 = if rr == 0 || rr == 7 {
            1
        } else if rr == 3 || rr == 4 {
            3
        } else {
            2
        };
        b = b + kv;
    } else {
        let pv: i64 = if rr == 0 {
            7
        } else if rr == 1 {
            0
        } else if rr == 2 {
            1
        } else if rr == 3 {
            2
        } else if rr == 4 {
            3
        } else if rr == 5 {
            4
        } else if rr == 6 {
            5
        } else {
            9
        };
        b = b + pv;
        let (fl, fr, bl, br) = if pc.color == Color::White {
            (MoveDir::TopLeft, MoveDir::TopRight, MoveDir::DownLeft, MoveDir::DownRight)
        } else {
            (MoveDir::DownLeft, MoveDir::DownRight, MoveDir::TopLeft, MoveDir::TopRight)
        };
        if open_square_exec(board, p, fl) {
            b = b - 1;
        }
        if open_square_exec(board, p, fr) {
            b = b - 1;
        }
        if open_square_exec(board, p, bl) {
            b = b - 2;
        }
        if open_square_exec(board, p, br) {
            b = b - 2;
        }
    }
    b
}

/// The static score of the position, from the perspective of the side to
/// move: positive when that side stands better.
#[verifier::rlimit(50)]
pub fn heuristic(board: &Board) -> (r: i64)
    requires
        board.wf(),
    ensures
        r == heuristic_spec(board@),
        -1600 <= r <= 1600,
{
    let ghost g = board@.grid;
    let ghost t = board@.turn;
    let mut res: i64 = 0;
    let mut i: usize = 0;
    while i < 64
        invariant
            board.wf(),
            g == board@.grid,
            t == board@.turn,
            i <= 64,
            res == heuristic_sum(g, t, i as nat),
            -25 * i <= res <= 25 * i,
        decreases 64 - i,
    {
        let p = CellPos { row: i / 8, col: i % 8 };
        proof {
            assert(pos_of_index(i as int) == p);
            assert(crate::geom::cell_index(p) == i as int);
        }
        match board.get(p) {
            Some(pc) => {
                let b = score_piece(board, p, pc);
                if pc.color == board.turn {
                    proof {
                        assert(cell_score(g, t, i as int) == b);
                    }
                    res = res + b;
                } else {
                    proof {
                        assert(cell_score(g, t, i as int) == -b);
                    }
                    res = res - b;
                }
            },
            None => {
                proof {
                    assert(cell_score(g, t, i as int) == 0);
                }
            },
        }
        proof {
            assert(heuristic_sum(g, t, (i + 1) as nat) == heuristic_sum(g, t, i as nat)
                + cell_score(g, t, i as int));
        }
        i = i + 1;
    }
    proof {
        lemma_heuristic_sum_bound(g, t, 64);
    }
    res
}

/// The larger of two scores.
pub open spec fn max2(a: int, b: int) -> int {
    if a >= b {
        a
    } else {
        b
    }
}

/// The one-ply lookahead score of `pm` from the perspective of the side
/// to move before it: the static score of the resulting position,
/// negated when the turn passed; a move the rules refuse counts as lost.
pub open spec fn scored_move(m: BoardView, pm: PieceMove) -> int {
    if legal(m, pm) {
        let m2 = step(m, pm);
        if m2.turn == m.turn {
            heuristic_spec(m2)
        } else {
            -heuristic_spec(m2)
        }
    } else {
        LOST as int
    }
}

/// The ordering key of an origin: its best one-ply lookahead score over
/// the four directions, at least the lost score.
pub open spec fn move_key(m: BoardView, cp: CellPos) -> int {
    max2(
        max2(
            max2(
                max2(LOST as int, scored_move(m, PieceMove { pos: cp, dir: MoveDir::TopLeft })),
                scored_move(m, PieceMove { pos: cp, dir: MoveDir::TopRight }),
            ),
            scored_move(m, PieceMove { pos: cp, dir: MoveDir::DownLeft }),
        ),
        scored_move(m, PieceMove { pos: cp, dir: MoveDir::DownRight }),
    )
}

/// Tries one direction from `cp` on a disposable copy and folds its
/// score into the running best.
fn fold_dir(board: &Board, cp: CellPos, dir: MoveDir, lbst: i64) -> (r: i64)
    requires
        board.wf(),
        LOST <= lbst <= 1600,
    ensures
        r == max2(lbst as int, scored_move(board@, PieceMove { pos: cp, dir })),
        LOST <= r <= 1600,
{
    let pm = PieceMove { pos: cp, dir };
    let mut trial = board.duplicate();
    if trial.make_move(pm) {
        let h = heuristic(&trial);
        let score: i64 = if trial.turn == board.turn {
            h
        } else {
            -h
        };
        if score > lbst {
            score
        } else {
            lbst
        }
    } else {
        lbst
    }
}

/// The ordering key of an origin, computed by trying each direction on a
/// disposable copy.
fn key_of(board: &Board, cp: CellPos) -> (k: i64)
    requires
        board.wf(),
    ensures
        k == move_key(board@, cp),
        LOST <= k <= 1600,
{
    let mut lbst: i64 = LOST;
    lbst = fold_dir(board, cp, MoveDir::TopLeft, lbst);
    lbst = fold_dir(board, cp, MoveDir::TopRight, lbst);
    lbst = fold_dir(board, cp, MoveDir::DownLeft, lbst);
    lbst = fold_dir(board, cp, MoveDir::DownRight, lbst);
    lbst
}

/// The second components of a keyed sequence.
pub open spec fn seq_snd(s: Seq<(i64, CellPos)>) -> Seq<CellPos> {
    s.map_values(|x: (i64, CellPos)| x.1)
}

/// Ranks the candidate origins by their ordering key, best first: the
/// result holds exactly the given origins, reordered so that keys never
/// increase. Order only biases the search; it never changes which moves
/// are legal.
#[verifier::rlimit(50)]
pub fn sort_by_heuristic(board: Board, poss: Vec<CellPos>) -> (r: Vec<CellPos>)
    requires
        board.wf(),
    ensures
        r@.to_multiset() == poss@.to_multiset(),
        r@.len() == poss@.len(),
        forall|a: int, b: int|
            0 <= a <= b < r@.len() ==> move_key(board@, r@[b]) <= move_key(board@, r@[a]),
{
    broadcast use vstd::seq_lib::group_to_multiset_ensures;

    let ghost m = board@;
    let mut keyed: Vec<(i64, CellPos)> = Vec::new();
    let mut i: usize = 0;
    while i < poss.len()
        invariant
            board.wf(),
            m == board@,
            i <= poss.len(),
            keyed@.len() == i,
            forall|j: int| 0 <= j < i ==> (#[trigger] keyed@[j]).1 == poss@[j],
            forall|j: int| 0 <= j < i ==> (#[trigger] keyed@[j]).0 == move_key(m, poss@[j]),
        decreases poss.len() - i,
    {
        let k = key_of(&board, poss[i]);
        keyed.push((k, poss[i]));
        i = i + 1;
    }
    proof {
        assert(seq_snd(keyed@) =~= poss@);
    }
    let mut out: Vec<CellPos> = Vec::new();
    while keyed.len() > 0
        invariant
            out@.len() + keyed@.len() == poss@.len(),
            forall|j: int|
                0 <= j < keyed@.len() ==> (#[trigger] keyed@[j]).0 == move_key(m, keyed@[j].1),
            out@.to_multiset().add(seq_snd(keyed@).to_multiset()) == poss@.to_multiset(),
            forall|a: int, b: int|
                0 <= a <= b < out@.len() ==> move_key(m, out@[b]) <= move_key(m, out@[a]),
            forall|a: int, j: int|
                0 <= a < out@.len() && 0 <= j < keyed@.len() ==> (#[trigger] keyed@[j]).0
                    <= move_key(m, #[trigger] out@[a]),
        decreases keyed@.len(),
    {
        let mut best: usize = 0;
        let mut bi: usize = 1;
        while bi < keyed.len()
            invariant
                keyed@.len() > 0,
                best < bi <= keyed@.len(),
                forall|j: int| 0 <= j < bi ==> (#[trigger] keyed@[j]).0 <= keyed@[best as int].0,
            decreases keyed@.len() - bi,
        {
            if keyed[bi].0 > keyed[best].0 {
                best = bi;
            }
            bi = bi + 1;
        }
        let ghost keyed0 = keyed@;
        let ghost out0 = out@;
        let pair = keyed.remove(best);
        out.push(pair.1);
        proof {
            let c = pair.1;
            assert(seq_snd(keyed0)[best as int] == c);
            assert(seq_snd(keyed@) =~= seq_snd(keyed0).remove(best as int));
            vstd::seq_lib::to_multiset_remove(seq_snd(keyed0), best as int);
            assert(out@ == out0.push(c));
            vstd::seq_lib::to_multiset_build(out0, c);
            assert(seq_snd(keyed0).contains(c));
            seq_snd(keyed0).to_multiset_ensures();
            assert(out@.to_multiset().add(seq_snd(keyed@).to_multiset()) =~= out0.to_multiset().add(
                seq_snd(keyed0).to_multiset(),
            ));
            assert(forall|j: int|
                0 <= j < keyed@.len() ==> #[trigger] keyed@[j] == (if j < best {
                    keyed0[j]
                } else {
                    keyed0[j + 1]
                }));
        }
    }
    proof {
        assert(seq_snd(keyed@) =~= Seq::<CellPos>::empty());
        assert(seq_snd(keyed@).to_multiset() =~= Multiset::<CellPos>::empty());
        assert(out@.to_multiset() =~= poss@.to_multiset());
    }
    out
}

} // verus!
