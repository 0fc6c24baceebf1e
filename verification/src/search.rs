//! The bounded-depth negamax search with alpha-beta pruning and a
//! per-invocation transposition table, and the root move selector that
//! tries every legal root move and returns the best-scoring one.

use std::collections::HashMap;

use rand::seq::SliceRandom;

use vstd::prelude::*;

use crate::board::Board;
use crate::geom::{CellPos, MoveDir, PieceMove};
use crate::heuristic::{heuristic, heuristic_spec, max2, sort_by_heuristic};
use crate::rules::{
    has_legal_move, legal, lemma_positions_of_contains, lemma_step_capture_decreases,
    lemma_step_turn_facts, piece_count, positions_of, step, BoardView,
};
use crate::{LOST, WIN};

verus! {

broadcast use
    vstd::std_specs::hash::group_hash_axioms,
    vstd::seq_lib::group_to_multiset_ensures;

/// The fixed ply budget of one full evaluation.
pub const SEARCH_DEPTH: i16 = 6;

/// The candidate moves of a position in exploration order: the forced
/// origins when a capture is pending, else all of the mover's pieces,
/// each origin tried in the four directions.
pub open spec fn moves_of(m: BoardView) -> Seq<PieceMove> {
    let origins = if m.must_jump.len() != 0 {
        m.must_jump
    } else {
        positions_of(m.grid, m.turn, 64)
    };
    Seq::new(origins.len() * 4, |j: int| PieceMove { pos: origins[j / 4], dir: dir_at(j % 4) })
}

/// The reference search value of a position at a remaining depth, the
/// policy of the engine without window or cache: the static score once
/// the depth is spent and no capture is pending; otherwise the best over
/// the candidate moves, a lost game when none is accepted. A capture
/// chain continuation recurses at the same depth and perspective; any
/// other child one level shallower with its score negated.
pub open spec fn search_val(m: BoardView, depth: int) -> int
    recommends
        m.grid.len() == 64,
    decreases
        (if depth > 0 {
            depth
        } else {
            0int
        }),
        piece_count(m.grid, 64),
        1int,
        0int,
{
    if depth <= 0 && m.must_jump.len() == 0 {
        heuristic_spec(m)
    } else {
        fold_val(m, depth, moves_of(m), moves_of(m).len() as int)
    }
}

/// The best value over the first `k` candidate moves, starting from the
/// lost score; a move the rules refuse contributes nothing.
pub open spec fn fold_val(m: BoardView, depth: int, mvs: Seq<PieceMove>, k: int) -> int
    decreases
        (if depth > 0 {
            depth
        } else {
            0int
        }),
        piece_count(m.grid, 64),
        0int,
        k,
{
    if k <= 0 || m.grid.len() != 64 || (depth <= 0 && m.must_jump.len() == 0) {
        LOST as int
    } else {
        let prev = fold_val(m, depth, mvs, k - 1);
        let pm = mvs[k - 1];
        if legal(m, pm) {
            let c = step(m, pm);
            proof {
                lemma_step_turn_facts(m, pm);
                if step(m, pm).turn == m.turn || m.must_jump.len() != 0 {
                    lemma_step_capture_decreases(m, pm);
                }
            }
            let v = if c.turn == m.turn {
                search_val(c, depth)
            } else {
                -search_val(
                    c,
                    if depth > 0 {
                        depth - 1
                    } else {
                        depth
                    },
                )
            };
            max2(prev, v)
        } else {
            prev
        }
    }
}

/// True when the cache holds a reusable entry for this very position:
/// the position is not inside a capture chain, the entry names the same
/// state, was searched at the same clamped depth, and for a window at
/// least as wide.
pub open spec fn cache_hit(
    t: Map<u64, (i64, i16, i64, i64, Board)>,
    m: BoardView,
    depth: int,
    alpha: int,
    beta: int,
) -> bool {
    &&& t.contains_key(m.hash)
    &&& m.must_jump.len() != 1
    &&& t[m.hash].1 as int == (if depth > 0 {
        depth
    } else {
        0int
    })
    &&& t[m.hash].2 <= alpha
    &&& t[m.hash].3 >= beta
    &&& t[m.hash].4@ == m
}

/// The fail-hard guarantee of a windowed search result `r` against the
/// true value `v`: at or below the window it is an upper bound on `v`,
/// at or above it a lower bound, and inside it exact.
pub open spec fn window_sound(r: int, v: int, a: int, b: int) -> bool {
    &&& (r <= a ==> v <= r)
    &&& (a < r < b ==> r == v)
    &&& (r >= b ==> v >= r)
}

/// The reference value stays within the game-score range.
pub proof fn lemma_search_val_bounds(m: BoardView, depth: int)
    ensures
        LOST <= search_val(m, depth) <= WIN,
    decreases
        (if depth > 0 {
            depth
        } else {
            0int
        }),
        piece_count(m.grid, 64),
        1int,
        0int,
{
    if depth <= 0 && m.must_jump.len() == 0 {
        crate::heuristic::lemma_heuristic_sum_bound(m.grid, m.turn, 64);
    } else {
        lemma_fold_val_bounds(m, depth, moves_of(m), moves_of(m).len() as int);
    }
}

/// The folded best stays within the game-score range.
pub proof fn lemma_fold_val_bounds(m: BoardView, depth: int, mvs: Seq<PieceMove>, k: int)
    ensures
        LOST <= fold_val(m, depth, mvs, k) <= WIN,
    decreases
        (if depth > 0 {
            depth
        } else {
            0int
        }),
        piece_count(m.grid, 64),
        0int,
        k,
{
    if !(k <= 0 || m.grid.len() != 64 || (depth <= 0 && m.must_jump.len() == 0)) {
        lemma_fold_val_bounds(m, depth, mvs, k - 1);
        let pm = mvs[k - 1];
        if legal(m, pm) {
            let c = step(m, pm);
            lemma_step_turn_facts(m, pm);
            if step(m, pm).turn == m.turn || m.must_jump.len() != 0 {
                lemma_step_capture_decreases(m, pm);
            }
            if c.turn == m.turn {
                lemma_search_val_bounds(c, depth);
            } else {
                lemma_search_val_bounds(
                    c,
                    if depth > 0 {
                        depth - 1
                    } else {
                        depth
                    },
                );
            }
        }
    }
}

/// Folding further candidates never lowers the best.
pub proof fn lemma_fold_val_monotone(m: BoardView, depth: int, mvs: Seq<PieceMove>, j: int, k: int)
    requires
        0 <= j <= k,
    ensures
        fold_val(m, depth, mvs, j) <= fold_val(m, depth, mvs, k),
    decreases k,
{
    if j < k {
        lemma_fold_val_monotone(m, depth, mvs, j, k - 1);
    }
}

/// Once the depth is spent the value no longer reads it: every
/// non-positive remaining depth gives the value at depth zero.
pub proof fn lemma_search_val_nonpos(m: BoardView, depth: int)
    requires
        depth <= 0,
    ensures
        search_val(m, depth) == search_val(m, 0),
    decreases 0int, piece_count(m.grid, 64), 1int, 0int,
{
    if m.must_jump.len() != 0 {
        lemma_fold_val_nonpos(m, depth, moves_of(m), moves_of(m).len() as int);
    }
}

/// The fold at any non-positive depth equals the fold at depth zero.
pub proof fn lemma_fold_val_nonpos(m: BoardView, depth: int, mvs: Seq<PieceMove>, k: int)
    requires
        depth <= 0,
    ensures
        fold_val(m, depth, mvs, k) == fold_val(m, 0, mvs, k),
    decreases 0int, piece_count(m.grid, 64), 0int, k,
{
    if !(k <= 0 || m.grid.len() != 64 || m.must_jump.len() == 0) {
        lemma_fold_val_nonpos(m, depth, mvs, k - 1);
        let pm = mvs[k - 1];
        if legal(m, pm) {
            let c = step(m, pm);
            lemma_step_turn_facts(m, pm);
            lemma_step_capture_decreases(m, pm);
            lemma_search_val_nonpos(c, depth);
            lemma_search_val_nonpos(c, 0);
        }
    }
}

/// A position whose mover has no accepted move scores as lost, whatever
/// the remaining depth, as long as the depth or a pending capture keeps
/// the position from being a static leaf.
pub proof fn lemma_search_val_no_moves(m: BoardView, depth: int)
    requires
        m.grid.len() == 64,
        depth > 0 || m.must_jump.len() != 0,
        forall|mv: PieceMove| !(#[trigger] legal(m, mv)),
    ensures
        search_val(m, depth) == LOST,
{
    lemma_fold_val_no_legal(m, depth, moves_of(m), moves_of(m).len() as int);
}

/// With every candidate refused the fold keeps the lost score.
pub proof fn lemma_fold_val_no_legal(m: BoardView, depth: int, mvs: Seq<PieceMove>, k: int)
    requires
        forall|mv: PieceMove| !(#[trigger] legal(m, mv)),
    ensures
        fold_val(m, depth, mvs, k) == LOST,
    decreases
        (if k > 0 {
            k
        } else {
            0int
        }),
{
    if !(k <= 0 || m.grid.len() != 64 || (depth <= 0 && m.must_jump.len() == 0)) {
        lemma_fold_val_no_legal(m, depth, mvs, k - 1);
    }
}

/// Every cached entry is sound: it names the exact position it was
/// computed for, carries a window and a clamped depth, and its score is
/// window-sound against the reference value of that position at that
/// depth.
pub open spec fn table_ok(t: Map<u64, (i64, i16, i64, i64, Board)>) -> bool {
    forall|h: u64|
        t.contains_key(h) ==> {
            let e = #[trigger] t[h];
            &&& e.4.wf()
            &&& LOST <= e.0 <= WIN
            &&& LOST <= e.2 < e.3 <= WIN
            &&& window_sound(e.0 as int, search_val(e.4@, e.1 as int), e.2 as int, e.3 as int)
        }
}

/// The direction tried `k`-th when a square's moves are enumerated.
pub open spec fn dir_at(k: int) -> MoveDir {
    if k == 0 {
        MoveDir::TopLeft
    } else if k == 1 {
        MoveDir::TopRight
    } else if k == 2 {
        MoveDir::DownLeft
    } else {
        MoveDir::DownRight
    }
}

/// The direction tried `k`-th.
fn dir_from(k: usize) -> (r: MoveDir)
    requires
        k < 4,
    ensures
        r == dir_at(k as int),
{
    if k == 0 {
        MoveDir::TopLeft
    } else if k == 1 {
        MoveDir::TopRight
    } else if k == 2 {
        MoveDir::DownLeft
    } else {
        MoveDir::DownRight
    }
}

/// An owned copy of a position list.
fn copy_positions(v: &Vec<CellPos>) -> (r: Vec<CellPos>)
    ensures
        r@ == v@,
{
    let mut r: Vec<CellPos> = Vec::new();
    let mut i: usize = 0;
    while i < v.len()
        invariant
            i <= v.len(),
            r@.len() == i,
            forall|k: int| 0 <= k < i ==> r@[k] == v@[k],
        decreases v.len() - i,
    {
        r.push(v[i]);
        i = i + 1;
    }
    proof {
        assert(r@ =~= v@);
    }
    r
}

/// Relies on rand's `SliceRandom::shuffle`: it permutes the slice in
/// place, so the same positions come back, only reordered.
#[verifier::external_body]
fn shuffle_positions(v: &mut Vec<CellPos>)
    ensures
        final (v)@.to_multiset() == old(v)@.to_multiset(),
{
    let mut rng = rand::thread_rng();
    v.shuffle(&mut rng);
}

/// The recursive bounded search: a negamax walk that prunes once the
/// running best reaches `beta`, and reuses a cached score only for the
/// very same position, searched at the same clamped depth, for an
/// at-least-as-wide window — so every reuse is sound, and a state inside
/// a capture chain, which carries a stale fingerprint, never borrows a
/// cached identity. The result is window-sound against the reference
/// value `search_val`, hence exact over the full window.
#[verifier::rlimit(100)]
pub fn alpha_beta(
    board: &Board,
    depth: i16,
    alpha: i64,
    beta: i64,
    table: &mut HashMap<u64, (i64, i16, i64, i64, Board)>,
) -> (r: i64)
    requires
        board.wf(),
        LOST <= alpha < beta <= WIN,
        table_ok(old(table)@),
    ensures
        table_ok(final (table)@),
        LOST <= r <= WIN,
        window_sound(r as int, search_val(board@, depth as int), alpha as int, beta as int),
        alpha == LOST && beta == WIN ==> r == search_val(board@, depth as int),
        depth <= 0 && board@.must_jump.len() == 0 && !old(table)@.contains_key(board@.hash) ==> r
            == search_val(board@, depth as int),
        cache_hit(old(table)@, board@, depth as int, alpha as int, beta as int) ==> r == old(
            table,
        )@[board@.hash].0,
        (!cache_hit(old(table)@, board@, depth as int, alpha as int, beta as int) && !(depth <= 0
            && board@.must_jump.len() == 0) && board@.must_jump.len() != 1 && r < beta) ==> {
            let e = final (table)@[board@.hash];
            &&& final (table)@.contains_key(board@.hash)
            &&& e.0 == r
            &&& e.1 as int == (if depth > 0 {
                depth as int
            } else {
                0int
            })
            &&& e.2 == alpha
            &&& e.3 == beta
            &&& e.4@ == board@
        },
    decreases (if depth > 0 {
        depth as int
    } else {
        0int
    }), piece_count(board@.grid, 64),
{
    let ghost m0 = board@;
    let ghost t0 = table@;
    let ghost v0 = search_val(m0, depth as int);
    proof {
        lemma_search_val_bounds(m0, depth as int);
    }
    let cd: i16 = if depth > 0 {
        depth
    } else {
        0
    };
    proof {
        if depth <= 0 {
            lemma_search_val_nonpos(m0, depth as int);
        }
        assert(search_val(m0, cd as int) == v0);
    }
    match table.get(&board.hash) {
        Some(entry) => {
            let (teval, tdepth, talpha, tbeta) = (entry.0, entry.1, entry.2, entry.3);
            if board.must_jump.len() != 1 && tdepth == cd && talpha <= alpha && tbeta >= beta
                && board.same_position(&entry.4) {
                proof {
                    assert(old(table)@.contains_key(board.hash));
                    let t = teval as int;
                    let a = alpha as int;
                    let b = beta as int;
                    let ta = talpha as int;
                    let tb = tbeta as int;
                    assert(window_sound(t, v0, ta, tb));
                    assert(window_sound(t, v0, a, b)) by {
                        if t <= a && ta < t {
                            assert(ta < t < tb);
                        }
                        if a < t < b {
                            assert(ta < t < tb);
                        }
                        if t >= b && t < tb {
                            assert(ta < t < tb);
                        }
                    }
                    if alpha == LOST && beta == WIN {
                        assert(t == v0) by {
                            if t <= a {
                                assert(t == LOST && v0 <= t && v0 >= LOST);
                            }
                            if t >= b {
                                assert(t == WIN && v0 >= t && v0 <= WIN);
                            }
                        }
                    }
                }
                return teval;
            }
        },
        None => {},
    }
    proof {
        assert(!cache_hit(t0, m0, depth as int, alpha as int, beta as int));
    }
    if depth <= 0 && board.must_jump.len() == 0 {
        let h = heuristic(board);
        proof {
            assert(v0 == heuristic_spec(m0));
        }
        return h;
    }
    let to_explore: Vec<CellPos> = if board.must_jump.len() != 0 {
        copy_positions(&board.must_jump)
    } else {
        board.piece_pos(board.turn)
    };
    let ghost mvs = moves_of(m0);
    proof {
        assert(to_explore@ == (if m0.must_jump.len() != 0 {
            m0.must_jump
        } else {
            positions_of(m0.grid, m0.turn, 64)
        }));
        assert(mvs.len() == to_explore@.len() * 4);
        assert(v0 == fold_val(m0, depth as int, mvs, mvs.len() as int));
        assert(max2(alpha as int, fold_val(m0, depth as int, mvs, 0)) == alpha as int);
    }
    let mut alpha_run = alpha;
    let mut i: usize = 0;
    while i < to_explore.len()
        invariant
            board.wf(),
            m0 == board@,
            depth <= 0 ==> m0.must_jump.len() != 0,
            mvs == moves_of(m0),
            to_explore@ == (if m0.must_jump.len() != 0 {
                m0.must_jump
            } else {
                positions_of(m0.grid, m0.turn, 64)
            }),
            mvs.len() == to_explore@.len() * 4,
            v0 == search_val(m0, depth as int),
            v0 == fold_val(m0, depth as int, mvs, mvs.len() as int),
            LOST <= v0 <= WIN,
            LOST <= alpha < beta <= WIN,
            alpha <= alpha_run < beta,
            alpha_run as int == max2(alpha as int, fold_val(m0, depth as int, mvs, 4 * (i as int))),
            table_ok(table@),
            t0 == old(table)@,
            !cache_hit(t0, m0, depth as int, alpha as int, beta as int),
            i <= to_explore@.len(),
        decreases to_explore.len() - i,
    {
        let cp = to_explore[i];
        let mut k: usize = 0;
        while k < 4
            invariant
                board.wf(),
                m0 == board@,
                depth <= 0 ==> m0.must_jump.len() != 0,
                mvs == moves_of(m0),
                to_explore@ == (if m0.must_jump.len() != 0 {
                    m0.must_jump
                } else {
                    positions_of(m0.grid, m0.turn, 64)
                }),
                mvs.len() == to_explore@.len() * 4,
                v0 == search_val(m0, depth as int),
                v0 == fold_val(m0, depth as int, mvs, mvs.len() as int),
                LOST <= v0 <= WIN,
                LOST <= alpha < beta <= WIN,
                alpha <= alpha_run < beta,
                alpha_run as int == max2(
                    alpha as int,
                    fold_val(m0, depth as int, mvs, 4 * (i as int) + (k as int)),
                ),
                table_ok(table@),
                t0 == old(table)@,
                !cache_hit(t0, m0, depth as int, alpha as int, beta as int),
                i < to_explore@.len(),
                cp == to_explore@[i as int],
                k <= 4,
            decreases 4 - k,
        {
            let ghost j = 4 * (i as int) + (k as int);
            let pm = PieceMove { pos: cp, dir: dir_from(k) };
            proof {
                assert(0 <= j < mvs.len());
                assert(j / 4 == i as int && j % 4 == k as int);
                assert(mvs[j] == pm);
            }
            let mut child = board.duplicate();
            if child.make_move(pm) {
                proof {
                    lemma_step_turn_facts(m0, pm);
                    if step(m0, pm).turn == m0.turn || m0.must_jump.len() != 0 {
                        lemma_step_capture_decreases(m0, pm);
                    }
                }
                let ghost c = step(m0, pm);
                let score: i64;
                let ghost w: int;
                let ghost ca: int;
                let ghost cb: int;
                if child.turn == board.turn {
                    let rc = alpha_beta(&child, depth, alpha_run, beta, table);
                    score = rc;
                    proof {
                        w = search_val(c, depth as int);
                        ca = alpha_run as int;
                        cb = beta as int;
                        assert(window_sound(rc as int, w, ca, cb));
                        assert(fold_val(m0, depth as int, mvs, j + 1) == max2(
                            fold_val(m0, depth as int, mvs, j),
                            w,
                        ));
                        assert(score as int <= w || score as int <= alpha_run as int);
                    }
                } else {
                    let ndepth: i16 = if depth > 0 {
                        depth - 1
                    } else {
                        depth
                    };
                    let nb: i64 = -beta;
                    let na: i64 = -alpha_run;
                    let rc = alpha_beta(&child, ndepth, nb, na, table);
                    score = -rc;
                    proof {
                        w = search_val(c, ndepth as int);
                        ca = nb as int;
                        cb = na as int;
                        assert(window_sound(rc as int, w, ca, cb));
                        assert(fold_val(m0, depth as int, mvs, j + 1) == max2(
                            fold_val(m0, depth as int, mvs, j),
                            -w,
                        ));
                        assert(score as int <= -w || score as int <= alpha_run as int);
                    }
                }
                let ghost vc: int = if c.turn == m0.turn {
                    w
                } else {
                    -w
                };
                proof {
                    assert(fold_val(m0, depth as int, mvs, j + 1) == max2(
                        fold_val(m0, depth as int, mvs, j),
                        vc,
                    ));
                    assert(score as int <= vc || score as int <= alpha_run as int);
                    assert(alpha_run < score ==> score as int == vc || score >= beta);
                    assert(score >= beta ==> score as int <= vc);
                }
                if score > alpha_run {
                    alpha_run = score;
                    if alpha_run >= beta {
                        proof {
                            lemma_fold_val_monotone(m0, depth as int, mvs, j + 1, mvs.len() as int);
                            assert(vc <= v0);
                            assert(alpha_run as int <= v0);
                        }
                        return alpha_run;
                    }
                    proof {
                        assert(score as int == vc);
                        assert(alpha_run as int == max2(
                            alpha as int,
                            fold_val(m0, depth as int, mvs, j + 1),
                        ));
                    }
                } else {
                    proof {
                        assert(vc <= alpha_run as int);
                        assert(alpha_run as int == max2(
                            alpha as int,
                            fold_val(m0, depth as int, mvs, j + 1),
                        ));
                    }
                }
            } else {
                proof {
                    assert(fold_val(m0, depth as int, mvs, j + 1) == fold_val(
                        m0,
                        depth as int,
                        mvs,
                        j,
                    ));
                }
            }
            k = k + 1;
        }
        i = i + 1;
    }
    proof {
        assert(4 * (to_explore@.len() as int) == mvs.len() as int);
        assert(alpha_run as int == max2(alpha as int, v0));
    }
    if board.must_jump.len() != 1 {
        let snapshot = board.duplicate();
        proof {
            assert(snapshot@ == m0);
            assert(window_sound(alpha_run as int, search_val(m0, cd as int), alpha as int, beta as int))
                by {
                if depth <= 0 {
                    lemma_search_val_nonpos(m0, depth as int);
                }
            }
        }
        table.insert(board.hash, (alpha_run, cd, alpha, beta, snapshot));
        proof {
            assert forall|h: u64| final (table)@.contains_key(h) implies {
                let e = #[trigger] final (table)@[h];
                &&& e.4.wf()
                &&& LOST <= e.0 <= WIN
                &&& LOST <= e.2 < e.3 <= WIN
                &&& window_sound(e.0 as int, search_val(e.4@, e.1 as int), e.2 as int, e.3 as int)
            } by {
                if h != board.hash {
                    assert(old(table)@.contains_key(h) || table@.contains_key(h));
                }
            }
        }
    }
    alpha_run
}

/// One full evaluation of a position: a fresh private transposition
/// table and a full-window alpha-beta search over the fixed ply budget,
/// which returns exactly the reference search value.
pub fn evaluate(board: Board) -> (r: i64)
    requires
        board.wf(),
    ensures
        r == search_val(board@, SEARCH_DEPTH as int),
        LOST <= r <= WIN,
{
    let mut table: HashMap<u64, (i64, i16, i64, i64, Board)> = HashMap::new();
    alpha_beta(&board, SEARCH_DEPTH, LOST, WIN, &mut table)
}

/// The adjusted score of a root move: the reference value of the
/// resulting position, negated when the turn passed, so that it reads
/// from the mover's perspective.
pub open spec fn root_value(m: BoardView, pm: PieceMove) -> int
    recommends
        m.grid.len() == 64,
        legal(m, pm),
{
    let c = step(m, pm);
    if c.turn == m.turn {
        search_val(c, SEARCH_DEPTH as int)
    } else {
        -search_val(c, SEARCH_DEPTH as int)
    }
}

/// The adjusted score of one root move: the move is applied to a copy and
/// the result searched with a fresh private table; the score is negated
/// when the turn passed, so it reads from the mover's perspective.
/// `None` exactly when the rules refuse the move.
pub fn root_score(board: &Board, mv: PieceMove) -> (r: Option<i64>)
    requires
        board.wf(),
    ensures
        r is Some <==> legal(board@, mv),
        r matches Some(s) ==> LOST <= s <= WIN && s as int == root_value(board@, mv),
{
    let mut child = board.duplicate();
    if child.make_move(mv) {
        let same = child.turn == board.turn;
        let s = evaluate(child);
        Some(
            if same {
                s
            } else {
                -s
            },
        )
    } else {
        None
    }
}

/// The index of the strictly greatest score among the first `n` entries,
/// the earliest of equals.
pub open spec fn best_index(s: Seq<(i64, PieceMove)>, n: int) -> int
    recommends
        0 < n <= s.len(),
    decreases n,
{
    if n <= 1 {
        0
    } else {
        let b = best_index(s, n - 1);
        if s[n - 1].0 > s[b].0 {
            n - 1
        } else {
            b
        }
    }
}

/// The move with the strictly greatest score, ties broken by first-seen
/// order; `None` on an empty list.
pub fn select_best(scored: &Vec<(i64, PieceMove)>) -> (r: Option<PieceMove>)
    ensures
        r is None <==> scored@.len() == 0,
        scored@.len() > 0 ==> r == Some(scored@[best_index(scored@, scored@.len() as int)].1),
{
    if scored.len() == 0 {
        return None;
    }
    let mut best: usize = 0;
    let mut i: usize = 1;
    while i < scored.len()
        invariant
            scored@.len() > 0,
            best < i <= scored@.len(),
            best == best_index(scored@, i as int),
        decreases scored@.len() - i,
    {
        if scored[i].0 > scored[best].0 {
            best = i;
        }
        i = i + 1;
    }
    Some(scored[best].1)
}

/// The engine's move chooser.
pub struct AI {}

impl AI {
    pub fn new() -> (r: Self) {
        AI {}
    }

    /// Chooses a move for the side to move: enumerates the candidate
    /// origins (the forced set when a capture is pending, else all own
    /// pieces), orders them, evaluates every legal move with an
    /// independent search, and returns one attaining the greatest
    /// adjusted score over all legal moves, ties broken by first-seen
    /// order over the shuffled candidates. The board handed in is never
    /// changed. A position without a legal move is a lost game, which
    /// the caller must detect first.
    pub fn compute_move(&mut self, board: &Board) -> (r: PieceMove)
        requires
            board.wf(),
            has_legal_move(board@),
        ensures
            legal(board@, r),
            forall|mv: PieceMove| #[trigger] legal(board@, mv) ==> root_value(board@, mv)
                <= root_value(board@, r),
    {
        let ghost m0 = board@;
        let working = board.duplicate();
        let mut to_explore: Vec<CellPos> = if working.must_jump.len() != 0 {
            copy_positions(&working.must_jump)
        } else {
            working.piece_pos(working.turn)
        };
        proof {
            assert forall|mv: PieceMove| #[trigger] legal(m0, mv) implies to_explore@.contains(
                mv.pos,
            ) by {
                if m0.must_jump.len() == 0 {
                    lemma_positions_of_contains(m0.grid, m0.turn, 64, mv.pos);
                }
            }
        }
        let ghost before = to_explore@;
        shuffle_positions(&mut to_explore);
        proof {
            assert forall|mv: PieceMove| #[trigger] legal(m0, mv) implies to_explore@.contains(
                mv.pos,
            ) by {
                before.to_multiset_ensures();
                to_explore@.to_multiset_ensures();
                assert(before.contains(mv.pos));
                assert(before.to_multiset().count(mv.pos) > 0);
            }
        }
        let ghost shuffled = to_explore@;
        let sorted = sort_by_heuristic(working.duplicate(), to_explore);
        proof {
            assert forall|mv: PieceMove| #[trigger] legal(m0, mv) implies sorted@.contains(
                mv.pos,
            ) by {
                shuffled.to_multiset_ensures();
                sorted@.to_multiset_ensures();
                assert(shuffled.contains(mv.pos));
                assert(shuffled.to_multiset().count(mv.pos) > 0);
            }
        }
        let mut best_score: i64 = 0;
        let mut best_move: Option<PieceMove> = None;
        let mut i: usize = 0;
        while i < sorted.len()
            invariant
                board.wf(),
                working.wf(),
                m0 == board@,
                working@ == m0,
                best_move matches Some(pm0) ==> legal(m0, pm0) && best_score as int
                    == root_value(m0, pm0),
                best_move is None ==> forall|a: int, d: MoveDir|
                    0 <= a < i ==> !legal(m0, PieceMove { pos: sorted@[a], dir: d }),
                forall|a: int, d: MoveDir|
                    0 <= a < i && legal(m0, PieceMove { pos: sorted@[a], dir: d }) ==> (
                    best_move is Some && root_value(m0, PieceMove { pos: sorted@[a], dir: d })
                        <= best_score),
            decreases sorted.len() - i,
        {
            let cp = sorted[i];
            let mut k: usize = 0;
            while k < 4
                invariant
                    board.wf(),
                    working.wf(),
                    m0 == board@,
                    working@ == m0,
                    k <= 4,
                    i < sorted@.len(),
                    cp == sorted@[i as int],
                    best_move matches Some(pm0) ==> legal(m0, pm0) && best_score as int
                        == root_value(m0, pm0),
                    best_move is None ==> forall|a: int, d: MoveDir|
                        0 <= a < i ==> !legal(m0, PieceMove { pos: sorted@[a], dir: d }),
                    best_move is None ==> forall|kk: int|
                        0 <= kk < k ==> !legal(m0, PieceMove { pos: cp, dir: dir_at(kk) }),
                    forall|a: int, d: MoveDir|
                        0 <= a < i && legal(m0, PieceMove { pos: sorted@[a], dir: d }) ==> (
                        best_move is Some && root_value(m0, PieceMove { pos: sorted@[a], dir: d })
                            <= best_score),
                    forall|kk: int|
                        0 <= kk < k && legal(m0, PieceMove { pos: cp, dir: dir_at(kk) }) ==> (
                        best_move is Some && root_value(m0, PieceMove { pos: cp, dir: dir_at(kk) })
                            <= best_score),
                decreases 4 - k,
            {
                let pm = PieceMove { pos: cp, dir: dir_from(k) };
                let mut child = working.duplicate();
                if child.make_move(pm) {
                    let same_side = child.turn == working.turn;
                    proof {
                        assert(child@ == step(m0, pm));
                    }
                    let s = evaluate(child);
                    let score: i64 = if same_side {
                        s
                    } else {
                        -s
                    };
                    proof {
                        assert(score as int == root_value(m0, pm));
                    }
                    match &best_move {
                        None => {
                            best_move = Some(pm);
                            best_score = score;
                        },
                        Some(_) => {
                            if score > best_score {
                                best_move = Some(pm);
                                best_score = score;
                            }
                        },
                    }
                }
                k = k + 1;
            }
            proof {
                if best_move is None {
                    assert forall|d: MoveDir| !legal(m0, PieceMove { pos: cp, dir: d }) by {
                        assert(d == dir_at(0) || d == dir_at(1) || d == dir_at(2) || d == dir_at(
                            3,
                        ));
                    }
                }
                assert forall|d: MoveDir| legal(m0, PieceMove { pos: cp, dir: d }) implies (
                best_move is Some && root_value(m0, PieceMove { pos: cp, dir: d })
                    <= best_score) by {
                    assert(d == dir_at(0) || d == dir_at(1) || d == dir_at(2) || d == dir_at(3));
                }
            }
            i = i + 1;
        }
        proof {
            if best_move is None {
                let mv = choose|mv: PieceMove| #[trigger] legal(m0, mv);
                assert(sorted@.contains(mv.pos));
                let a = choose|a: int| 0 <= a < sorted@.len() && sorted@[a] == mv.pos;
                assert(!legal(m0, PieceMove { pos: sorted@[a], dir: mv.dir }));
                assert(PieceMove { pos: sorted@[a], dir: mv.dir } == mv);
                assert(false);
            }
            assert forall|mv: PieceMove| #[trigger] legal(m0, mv) implies root_value(m0, mv)
                <= best_score by {
                assert(sorted@.contains(mv.pos));
                let a = choose|a: int| 0 <= a < sorted@.len() && sorted@[a] == mv.pos;
                assert(legal(m0, PieceMove { pos: sorted@[a], dir: mv.dir }));
                assert(PieceMove { pos: sorted@[a], dir: mv.dir } == mv);
            }
        }
        best_move.unwrap()
    }
}

} // verus!
