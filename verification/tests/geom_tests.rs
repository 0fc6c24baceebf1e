use checkers::{cell, CellPos, Color, MoveDir, PieceMove};

#[test]
fn color_from_str_white() {
    assert!(Color::from_str("white") == Color::White);
}

#[test]
fn color_from_str_black() {
    assert!(Color::from_str("black") == Color::Black);
}

#[test]
fn cellpos_from_str_c4() {
    let p = CellPos::from_str("C4");
    assert_eq!(p.col, 2);
    assert_eq!(p.row, 4);
}

#[test]
fn cellpos_from_str_corners() {
    let a0 = CellPos::from_str("A0");
    assert_eq!((a0.col, a0.row), (0, 0));
    let h7 = CellPos::from_str("H7");
    assert_eq!((h7.col, h7.row), (7, 7));
}

#[test]
fn movedir_from_str_all() {
    assert!(MoveDir::from_str("tr") == MoveDir::TopRight);
    assert!(MoveDir::from_str("tl") == MoveDir::TopLeft);
    assert!(MoveDir::from_str("dr") == MoveDir::DownRight);
    assert!(MoveDir::from_str("dl") == MoveDir::DownLeft);
}

#[test]
fn piecemove_from_str() {
    let pm = PieceMove::from_str("C4 tr");
    assert_eq!(pm.pos.col, 2);
    assert_eq!(pm.pos.row, 4);
    assert!(pm.dir == MoveDir::TopRight);
}

#[test]
fn shift_off_board_is_none() {
    assert!(cell(0, 0).shift(MoveDir::DownLeft).is_none());
    assert!(cell(0, 0).shift(MoveDir::DownRight).is_none());
    assert!(cell(7, 7).shift(MoveDir::TopRight).is_none());
    assert!(cell(7, 7).shift(MoveDir::TopLeft).is_none());
    assert!(cell(3, 0).shift(MoveDir::TopLeft).is_none());
    assert!(cell(3, 7).shift(MoveDir::DownRight).is_none());
}

#[test]
fn shift_inside_board() {
    let p = cell(3, 3);
    assert!(p.shift(MoveDir::TopRight) == Some(cell(4, 4)));
    assert!(p.shift(MoveDir::TopLeft) == Some(cell(4, 2)));
    assert!(p.shift(MoveDir::DownRight) == Some(cell(2, 4)));
    assert!(p.shift(MoveDir::DownLeft) == Some(cell(2, 2)));
}

#[test]
fn cell_builds_position() {
    let p = cell(5, 2);
    assert_eq!(p.row, 5);
    assert_eq!(p.col, 2);
}
