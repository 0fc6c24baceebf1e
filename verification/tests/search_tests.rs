use std::collections::HashMap;

use checkers::search::{alpha_beta, root_score, select_best};
use checkers::{cell, heuristic, sort_by_heuristic, Board, CellPos, Color, MoveDir, PieceMove, AI};
use checkers::{LOST, WIN};

fn rows(lines: [&str; 8]) -> Vec<Vec<u8>> {
    lines.iter().map(|l| l.bytes().collect()).collect()
}

const DIRS: [MoveDir; 4] =
    [MoveDir::TopLeft, MoveDir::TopRight, MoveDir::DownLeft, MoveDir::DownRight];

/// A plain unpruned negamax at the same depth accounting as the engine:
/// the reference oracle for the pruned search.
fn minimax(board: &Board, depth: i16) -> i64 {
    if depth <= 0 && board.must_jump.is_empty() {
        return heuristic(board);
    }
    let origins = if !board.must_jump.is_empty() {
        board.must_jump.clone()
    } else {
        board.piece_pos(board.turn)
    };
    let mut best = LOST;
    for cp in origins {
        for dir in DIRS {
            let mut child = board.duplicate();
            if child.make_move(PieceMove { pos: cp, dir }) {
                let s = if child.turn == board.turn {
                    minimax(&child, depth)
                } else {
                    let nd = if depth > 0 { depth - 1 } else { depth };
                    -minimax(&child, nd)
                };
                if s > best {
                    best = s;
                }
            }
        }
    }
    best
}

fn pruned(board: &Board, depth: i16) -> i64 {
    let mut table: HashMap<u64, (i64, i16, i64, i64, Board)> = HashMap::new();
    alpha_beta(board, depth, LOST, WIN, &mut table)
}

#[test]
fn alpha_beta_equals_minimax_opening() {
    let b = Board::new();
    for depth in 1..=4 {
        assert_eq!(pruned(&b, depth), minimax(&b, depth), "depth {}", depth);
    }
}

#[test]
fn alpha_beta_equals_minimax_midgame() {
    // Cache reuse is restricted to the very same position at the same
    // clamped depth, so the pruned full-window score equals the unpruned
    // reference at every depth.
    let b = Board::from_grid(
        &rows([
            "........",
            "..b...b.",
            "...B....",
            "....w...",
            "...w....",
            "....b...",
            "...w...W",
            "........",
        ]),
        Color::White,
    );
    for depth in 1..=4 {
        assert_eq!(pruned(&b, depth), minimax(&b, depth), "depth {}", depth);
    }
}

#[test]
fn alpha_beta_equals_minimax_capture_chain() {
    let b = Board::from_grid(
        &rows([
            "........",
            "........",
            "...b....",
            "........",
            ".b......",
            "W.......",
            "........",
            "........",
        ]),
        Color::White,
    );
    for depth in 1..=4 {
        assert_eq!(pruned(&b, depth), minimax(&b, depth), "depth {}", depth);
    }
}

#[test]
fn alpha_beta_equals_minimax_two_kings() {
    let b = Board::from_grid(
        &rows([
            "........",
            "..B.....",
            "........",
            "........",
            "........",
            "......W.",
            "........",
            "........",
        ]),
        Color::White,
    );
    for depth in 1..=5 {
        assert_eq!(pruned(&b, depth), minimax(&b, depth), "depth {}", depth);
    }
}

#[test]
fn evaluate_equals_minimax_at_full_depth() {
    // `evaluate` is a full-window six-ply search, specified to return
    // exactly the reference value.
    let b = Board::from_grid(
        &rows([
            "........",
            "........",
            "...b....",
            "........",
            ".b......",
            "W.......",
            "........",
            "........",
        ]),
        Color::White,
    );
    assert_eq!(checkers::evaluate(b.duplicate()), minimax(&b, 6));
}

#[test]
fn heuristic_exact_value_single_pawn() {
    // One white pawn at C2, White to move: material 5, centre 3 + 1,
    // pawn row value 1, no capture bonus, and four open diagonals
    // around it: two forward (-1 each) and two backward (-2 each).
    let b = Board::from_grid(
        &rows([
            "........",
            "........",
            "........",
            "........",
            "........",
            "..w.....",
            "........",
            "........",
        ]),
        Color::White,
    );
    assert_eq!(heuristic(&b), 5 + 3 + 1 + 1 - 1 - 1 - 2 - 2);
}

#[test]
fn heuristic_antisymmetry_mirrored_board() {
    // Mirroring the board vertically with the colors swapped while the
    // turn label stays hands the move to the other player and negates
    // the score (no captures are available on either side here).
    let b = Board::from_grid(
        &rows([
            "........",
            "..b...b.",
            "...B....",
            "........",
            "........",
            "..w...w.",
            ".....W..",
            "........",
        ]),
        Color::White,
    );
    let mirrored = mirror(&b);
    assert_eq!(heuristic(&mirrored), -heuristic(&b));
}

/// Reflects the board vertically and swaps every piece's color, keeping
/// the turn label.
fn mirror(b: &Board) -> Board {
    // `from_grid` reads line `i` as board row `7 - i`, so writing board
    // row `r` into line `r` reflects the board vertically.
    let mut lines: Vec<Vec<u8>> = vec![vec![b'.'; 8]; 8];
    for row in 0..8 {
        for col in 0..8 {
            if let Some(pc) = b.get(cell(row, col)) {
                let code = match (pc.color, pc.king) {
                    (Color::White, false) => b'b',
                    (Color::White, true) => b'B',
                    (Color::Black, false) => b'w',
                    (Color::Black, true) => b'W',
                };
                lines[row][col] = code;
            }
        }
    }
    Board::from_grid(&lines, b.turn)
}

#[test]
fn heuristic_mirror_invariance() {
    // Reflecting, swapping colors and flipping the turn label keeps the
    // same player to move, so the score is unchanged — even with
    // captures on the board.
    let b = Board::from_grid(
        &rows([
            "........",
            "..b...b.",
            "...B....",
            "....w...",
            "...w....",
            "....b...",
            "...w...W",
            "........",
        ]),
        Color::White,
    );
    let mut mirrored = mirror(&b);
    mirrored.turn = Color::Black;
    mirrored.recompute_hash();
    assert_eq!(heuristic(&mirrored), heuristic(&b));
}

#[test]
fn sort_by_heuristic_is_sorted_permutation() {
    let b = Board::new();
    let origins = b.piece_pos(b.turn);
    let sorted = sort_by_heuristic(b.duplicate(), origins.clone());
    assert_eq!(sorted.len(), origins.len());
    for cp in &origins {
        let n_in = origins.iter().filter(|x| **x == *cp).count();
        let n_out = sorted.iter().filter(|x| **x == *cp).count();
        assert_eq!(n_in, n_out);
    }
    let keys: Vec<i64> = sorted.iter().map(|cp| key_of(&b, *cp)).collect();
    for w in keys.windows(2) {
        assert!(w[0] >= w[1]);
    }
}

fn key_of(board: &Board, cp: CellPos) -> i64 {
    let mut best = LOST;
    for dir in DIRS {
        let mut child = board.duplicate();
        if child.make_move(PieceMove { pos: cp, dir }) {
            let h = heuristic(&child);
            let s = if child.turn == board.turn { h } else { -h };
            if s > best {
                best = s;
            }
        }
    }
    best
}

#[test]
fn compute_move_returns_legal_move() {
    let b = Board::from_grid(
        &rows([
            "........",
            "..b.....",
            "........",
            "........",
            "........",
            "......W.",
            "........",
            "........",
        ]),
        Color::White,
    );
    let mut ai = AI::new();
    let mv = ai.compute_move(&b);
    let mut c = b.duplicate();
    assert!(c.make_move(mv));
}

#[test]
fn compute_move_takes_forced_jump() {
    // The only legal origin is the forced king at A2.
    let b = Board::from_grid(
        &rows([
            "........",
            "........",
            "...b....",
            "........",
            ".b......",
            "W.......",
            "........",
            "........",
        ]),
        Color::White,
    );
    assert_eq!(b.must_jump, vec![cell(2, 0)]);
    let mut ai = AI::new();
    let mv = ai.compute_move(&b);
    assert_eq!(mv.pos, cell(2, 0));
    let mut c = b.duplicate();
    assert!(c.make_move(mv));
}

#[test]
fn root_score_reports_legality() {
    let b = Board::from_grid(
        &rows([
            "........",
            "........",
            "...b....",
            "........",
            ".b......",
            "W.......",
            "........",
            "........",
        ]),
        Color::White,
    );
    // The forced capture is the one scorable move; a sidestep is refused.
    assert!(root_score(&b, PieceMove { pos: cell(2, 0), dir: MoveDir::TopRight }).is_some());
    assert!(root_score(&b, PieceMove { pos: cell(2, 0), dir: MoveDir::DownRight }).is_none());
}

#[test]
fn select_best_takes_first_of_equals() {
    let a = PieceMove { pos: cell(2, 0), dir: MoveDir::TopRight };
    let b = PieceMove { pos: cell(2, 2), dir: MoveDir::TopLeft };
    let c = PieceMove { pos: cell(2, 4), dir: MoveDir::TopRight };
    assert!(select_best(&vec![]).is_none());
    assert_eq!(select_best(&vec![(3, a), (7, b), (7, c)]), Some(b));
    assert_eq!(select_best(&vec![(9, a), (7, b), (9, c)]), Some(a));
}

#[test]
fn evaluate_stays_in_score_range() {
    let b = Board::from_grid(
        &rows([
            "........",
            "........",
            "...b....",
            "........",
            ".b......",
            "W.......",
            "........",
            "........",
        ]),
        Color::White,
    );
    let s = checkers::evaluate(b.duplicate());
    assert!(s >= LOST && s <= WIN);
    // The search is deterministic for a fixed position and depth.
    assert_eq!(checkers::evaluate(b.duplicate()), s);
}
