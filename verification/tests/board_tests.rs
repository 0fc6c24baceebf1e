use checkers::{cell, Board, CellPos, Color, MoveDir, Piece, PieceMove};

fn rows(lines: [&str; 8]) -> Vec<Vec<u8>> {
    lines.iter().map(|l| l.bytes().collect()).collect()
}

fn boards_equal(a: &Board, b: &Board) -> bool {
    a.data == b.data && a.must_jump == b.must_jump && a.turn == b.turn && a.hash == b.hash
}

fn count_pieces(b: &Board, color: Color, king: bool) -> usize {
    let mut n = 0;
    for row in 0..8 {
        for col in 0..8 {
            if let Some(pc) = b.get(cell(row, col)) {
                if pc.color == color && pc.king == king {
                    n += 1;
                }
            }
        }
    }
    n
}

#[test]
fn opening_position() {
    let b = Board::new();
    assert_eq!(count_pieces(&b, Color::White, false), 12);
    assert_eq!(count_pieces(&b, Color::Black, false), 12);
    assert_eq!(count_pieces(&b, Color::White, true), 0);
    assert_eq!(count_pieces(&b, Color::Black, true), 0);
    for row in 0..8 {
        for col in 0..8 {
            if let Some(pc) = b.get(cell(row, col)) {
                assert_eq!((row + col) % 2, 0);
                if pc.color == Color::White {
                    assert!(row <= 2);
                } else {
                    assert!(row >= 5);
                }
            }
        }
    }
    assert!(b.must_jump.is_empty());
    assert!(b.turn == Color::Black);
}

#[test]
fn opening_matches_loaded_snapshot() {
    let b = Board::new();
    let loaded = Board::from_grid(
        &rows([
            ".b.b.b.b",
            "b.b.b.b.",
            ".b.b.b.b",
            "........",
            "........",
            "w.w.w.w.",
            ".w.w.w.w",
            "w.w.w.w.",
        ]),
        Color::Black,
    );
    assert!(boards_equal(&b, &loaded));
}

#[test]
fn refused_moves_leave_board_identical() {
    let b0 = Board::new();
    let cases = [
        // empty origin square
        PieceMove { pos: cell(4, 4), dir: MoveDir::TopRight },
        // opponent's piece: White pawn while Black is to move
        PieceMove { pos: cell(2, 2), dir: MoveDir::TopRight },
        // pawn moving backwards
        PieceMove { pos: cell(5, 1), dir: MoveDir::TopLeft },
        // shift off the board
        PieceMove { pos: cell(5, 7), dir: MoveDir::DownRight },
        // destination held by own piece
        PieceMove { pos: cell(6, 0), dir: MoveDir::DownRight },
        // origin off the board entirely
        PieceMove { pos: cell(9, 9), dir: MoveDir::TopRight },
    ];
    for pm in cases {
        let mut b = b0.duplicate();
        assert!(!b.make_move(pm));
        assert!(boards_equal(&b, &b0));
    }
}

#[test]
fn simple_move_relocates_and_passes_turn() {
    let mut b = Board::new();
    let ok = b.make_move(PieceMove { pos: cell(5, 1), dir: MoveDir::DownLeft });
    assert!(ok);
    assert!(b.get(cell(5, 1)).is_none());
    assert!(b.get(cell(4, 0)) == Some(Piece { king: false, color: Color::Black }));
    assert!(b.turn == Color::White);
    assert!(b.must_jump.is_empty());
}

#[test]
fn hash_consistency_across_move_orders() {
    // Two interleavings of the same four simple moves reach the same
    // occupancy with the same side to move; the fingerprints must agree.
    let mut a = Board::new();
    assert!(a.make_move(PieceMove { pos: cell(5, 1), dir: MoveDir::DownLeft }));
    assert!(a.make_move(PieceMove { pos: cell(2, 0), dir: MoveDir::TopRight }));
    assert!(a.make_move(PieceMove { pos: cell(5, 5), dir: MoveDir::DownLeft }));
    assert!(a.make_move(PieceMove { pos: cell(2, 6), dir: MoveDir::TopRight }));

    let mut b = Board::new();
    assert!(b.make_move(PieceMove { pos: cell(5, 5), dir: MoveDir::DownLeft }));
    assert!(b.make_move(PieceMove { pos: cell(2, 6), dir: MoveDir::TopRight }));
    assert!(b.make_move(PieceMove { pos: cell(5, 1), dir: MoveDir::DownLeft }));
    assert!(b.make_move(PieceMove { pos: cell(2, 0), dir: MoveDir::TopRight }));

    assert!(boards_equal(&a, &b));
    assert_eq!(a.hash, b.hash);
}

#[test]
fn opening_renders_to_codes() {
    let b = Board::new();
    let grid = b.to_grid();
    let expected = [
        ".b.b.b.b",
        "b.b.b.b.",
        ".b.b.b.b",
        "........",
        "........",
        "w.w.w.w.",
        ".w.w.w.w",
        "w.w.w.w.",
    ];
    assert_eq!(grid.len(), 8);
    for i in 0..8 {
        assert_eq!(grid[i], expected[i].as_bytes().to_vec());
    }
}

#[test]
fn snapshot_round_trip() {
    let mut b = Board::new();
    assert!(b.make_move(PieceMove { pos: cell(5, 3), dir: MoveDir::DownRight }));
    assert!(b.make_move(PieceMove { pos: cell(2, 2), dir: MoveDir::TopLeft }));
    let rows = b.to_grid();
    let loaded = Board::from_grid(&rows, b.turn);
    // Outside a capture chain the forced set and the fingerprint are
    // functions of occupancy and turn, so the whole state comes back.
    assert!(boards_equal(&loaded, &b));
}

#[test]
fn recompute_hash_is_stable() {
    let mut b = Board::new();
    let h0 = b.hash;
    b.recompute_hash();
    assert_eq!(b.hash, h0);
}

#[test]
fn forced_capture_chain_king_double_jump() {
    // A white king at A2 can jump B3 and then, from C4, jump D5.
    let mut b = Board::from_grid(
        &rows([
            "........",
            "........",
            "...b....",
            "........",
            ".b......",
            "W.......",
            "........",
            "........",
        ]),
        Color::White,
    );
    assert_eq!(b.must_jump, vec![cell(2, 0)]);
    let h0 = b.hash;
    assert!(b.make_move(PieceMove { pos: cell(2, 0), dir: MoveDir::TopRight }));
    // First jump: the chain continues, so the turn is kept, exactly the
    // landing square is forced, and the fingerprint stays as it was —
    // mid-chain states are not hashable positions.
    assert!(b.turn == Color::White);
    assert_eq!(b.must_jump, vec![cell(4, 2)]);
    assert_eq!(b.hash, h0);
    assert!(b.get(cell(3, 1)).is_none());
    assert!(b.can_jump(cell(4, 2)));
    // Second jump: the chain ends, the turn passes, nothing is forced,
    // and the fingerprint is recomputed.
    assert!(b.make_move(PieceMove { pos: cell(4, 2), dir: MoveDir::TopRight }));
    assert!(b.turn == Color::Black);
    assert!(b.must_jump.is_empty());
    assert_ne!(b.hash, h0);
    assert!(b.get(cell(5, 3)).is_none());
    assert!(b.get(cell(6, 4)) == Some(Piece { king: true, color: Color::White }));
}

#[test]
fn simple_move_refused_while_capture_forced() {
    let mut b = Board::from_grid(
        &rows([
            "........",
            "........",
            "...b....",
            "........",
            ".b......",
            "W.......",
            "........",
            "........",
        ]),
        Color::White,
    );
    let before = b.duplicate();
    // The king itself may not step instead of capturing.
    assert!(!b.make_move(PieceMove { pos: cell(2, 0), dir: MoveDir::DownRight }));
    assert!(boards_equal(&b, &before));
}

#[test]
fn king_priority_over_pawn_capture() {
    // Both a black king at B5 and a black pawn at F5 could capture, so
    // only the king's square is forced.
    let b = Board::from_grid(
        &rows([
            "........",
            "........",
            ".B...b..",
            "..w.w...",
            "........",
            "........",
            "........",
            "........",
        ]),
        Color::Black,
    );
    assert_eq!(b.must_jump, vec![cell(5, 1)]);
}

#[test]
fn capture_by_unforced_piece_refused() {
    // The pawn at F5 has a capture of its own, but only the king at B5 is
    // forced, so the pawn's capture is refused.
    let mut b = Board::from_grid(
        &rows([
            "........",
            "........",
            ".B...b..",
            "..w.w...",
            "........",
            "........",
            "........",
            "........",
        ]),
        Color::Black,
    );
    let before = b.duplicate();
    assert!(!b.make_move(PieceMove { pos: cell(5, 5), dir: MoveDir::DownLeft }));
    assert!(boards_equal(&b, &before));
}

#[test]
fn capture_with_blocked_landing_refused() {
    // The black pawn could jump the white pawn, but the landing square
    // behind it is occupied.
    let mut b = Board::from_grid(
        &rows([
            "........",
            "........",
            ".b......",
            "..w.....",
            "...w....",
            "........",
            "........",
            "........",
        ]),
        Color::Black,
    );
    assert!(b.must_jump.is_empty());
    let before = b.duplicate();
    assert!(!b.make_move(PieceMove { pos: cell(5, 1), dir: MoveDir::DownRight }));
    assert!(boards_equal(&b, &before));
}

#[test]
fn forced_set_squares_can_all_jump() {
    // Two black pawns can capture and no king can, so both are forced.
    let b = Board::from_grid(
        &rows([
            "........",
            "........",
            ".b...b..",
            "..w.w...",
            "........",
            "........",
            "........",
            "........",
        ]),
        Color::Black,
    );
    assert_eq!(b.must_jump.len(), 2);
    for cp in b.must_jump.clone() {
        assert!(b.can_jump(cp));
        assert!(b.get(cp).unwrap().color == Color::Black);
    }
}

#[test]
fn promotion_on_far_row() {
    let mut b = Board::from_grid(
        &rows([
            "........",
            "w.......",
            "........",
            "........",
            "........",
            "........",
            "...b....",
            "........",
        ]),
        Color::White,
    );
    assert!(b.make_move(PieceMove { pos: cell(6, 0), dir: MoveDir::TopRight }));
    assert!(b.get(cell(7, 1)) == Some(Piece { king: true, color: Color::White }));
    // Black's pawn reaching row 0 is crowned too.
    assert!(b.make_move(PieceMove { pos: cell(1, 3), dir: MoveDir::DownLeft }));
    assert!(b.get(cell(0, 2)) == Some(Piece { king: true, color: Color::Black }));
}

#[test]
fn promotion_at_load_time() {
    // A pawn standing on its far row in the snapshot is crowned on load.
    let b = Board::from_grid(
        &rows([
            ".w......",
            "........",
            "........",
            "........",
            "........",
            "........",
            "........",
            "....b...",
        ]),
        Color::White,
    );
    assert!(b.get(cell(7, 1)) == Some(Piece { king: true, color: Color::White }));
    assert!(b.get(cell(0, 4)) == Some(Piece { king: true, color: Color::Black }));
}

#[test]
fn terminal_loss_no_valid_move() {
    // Black to move: its only pawn at B1 is wedged behind two white pawns
    // it cannot jump past the edge, so Black has no legal move at all.
    let b = Board::from_grid(
        &rows([
            "........",
            "........",
            "........",
            "........",
            "........",
            "........",
            ".b......",
            "w.w.....",
        ]),
        Color::Black,
    );
    assert_eq!(count_pieces(&b, Color::Black, false), 1);
    assert!(!b.exists_valid_move());
}

#[test]
fn opening_side_has_valid_moves() {
    let b = Board::new();
    assert!(b.exists_valid_move());
}

#[test]
fn piece_pos_lists_all_pieces() {
    let b = Board::new();
    let blacks = b.piece_pos(Color::Black);
    let whites = b.piece_pos(Color::White);
    assert_eq!(blacks.len(), 12);
    assert_eq!(whites.len(), 12);
    for cp in blacks {
        assert!(b.get(cp).unwrap().color == Color::Black);
    }
    for cp in whites {
        assert!(b.get(cp).unwrap().color == Color::White);
    }
}

#[test]
fn move_legal_agrees_with_make_move() {
    let b0 = Board::new();
    for row in 0..8 {
        for col in 0..8 {
            for dir in [MoveDir::TopRight, MoveDir::TopLeft, MoveDir::DownRight, MoveDir::DownLeft]
            {
                let pm = PieceMove { pos: cell(row, col), dir };
                let legal = b0.move_legal(pm);
                let mut b = b0.duplicate();
                assert_eq!(b.make_move(pm), legal);
            }
        }
    }
}
