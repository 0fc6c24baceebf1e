//! The executable board state machine, proved against the model in
//! `rules`: the grid, the side to move, the pending forced-jump origins
//! and the Zobrist fingerprint, mutated only through `make_move`.

use vstd::prelude::*;

use crate::geom::{
    cell_index, dir_allowed, pos_valid, Cell, CellPos, Color, MoveDir, Piece, PieceMove,
};
use crate::rules::{
    at, can_jump_at, can_jump_dir, empty_cell, exists_king_jumper, forced_origins, has_legal_move,
    jump_origins, jumper_at, legal, positions_of, promote, promote_cell, step, BoardView,
};
use crate::zobrist::{
    square_fold, state_index, turn_key, zobrist, BLACK_TURN_HASH, BOARD_HASH, WHITE_TURN_HASH,
};

verus! {

/// The aggregate game state. The grid is stored row-major in a vector of
/// 64 squares; `must_jump` holds the origins a capture must start from,
/// empty when no capture is pending.
pub struct Board {
    pub must_jump: Vec<CellPos>,
    pub data: Vec<Cell>,
    pub turn: Color,
    pub hash: u64,
}

impl View for Board {
    type V = BoardView;

    open spec fn view(&self) -> BoardView {
        BoardView {
            grid: self.data@,
            must_jump: self.must_jump@,
            turn: self.turn,
            hash: self.hash,
        }
    }
}

/// The occupant of square `(row, col)` of the standard starting
/// position: white pawns on the dark squares of rows 0 to 2, black pawns
/// on those of rows 5 to 7.
pub open spec fn start_cell(i: int) -> Cell {
    let row = i / 8;
    let col = i % 8;
    if (row + col) % 2 == 0 {
        if row < 3 {
            Cell { piece: Some(Piece { king: false, color: Color::White }) }
        } else if row > 4 {
            Cell { piece: Some(Piece { king: false, color: Color::Black }) }
        } else {
            empty_cell()
        }
    } else {
        empty_cell()
    }
}

/// The grid of the standard starting position.
pub open spec fn start_grid() -> Seq<Cell> {
    Seq::new(64, |i: int| start_cell(i))
}

impl Board {
    /// A board is well formed when its grid has exactly 64 squares.
    pub open spec fn wf(&self) -> bool {
        self.data@.len() == 64
    }

    /// The occupant of square `p`.
    pub fn get(&self, p: CellPos) -> (r: Option<Piece>)
        requires
            self.wf(),
            pos_valid(p),
        ensures
            r == at(self@.grid, p),
    {
        self.data[p.row * 8 + p.col].piece
    }

    /// Replaces the occupant of square `p`.
    fn set_cell(&mut self, p: CellPos, c: Cell)
        requires
            old(self).wf(),
            pos_valid(p),
        ensures
            final (self).wf(),
            final (self).data@ == old(self).data@.update(cell_index(p), c),
            final (self).must_jump == old(self).must_jump,
            final (self).turn == old(self).turn,
            final (self).hash == old(self).hash,
    {
        self.data.set(p.row * 8 + p.col, c);
    }

    /// An owned deep copy: search explores on copies and never mutates
    /// the caller's board.
    pub fn duplicate(&self) -> (r: Board)
        ensures
            r@ == self@,
            r.wf() == self.wf(),
    {
        let mut data: Vec<Cell> = Vec::new();
        let mut i: usize = 0;
        while i < self.data.len()
            invariant
                i <= self.data.len(),
                data@.len() == i,
                forall|k: int| 0 <= k < i ==> data@[k] == self.data@[k],
            decreases self.data.len() - i,
        {
            data.push(self.data[i]);
            i = i + 1;
        }
        let mut must_jump: Vec<CellPos> = Vec::new();
        let mut j: usize = 0;
        while j < self.must_jump.len()
            invariant
                j <= self.must_jump.len(),
                must_jump@.len() == j,
                forall|k: int| 0 <= k < j ==> must_jump@[k] == self.must_jump@[k],
            decreases self.must_jump.len() - j,
        {
            must_jump.push(self.must_jump[j]);
            j = j + 1;
        }
        let r = Board { must_jump, data, turn: self.turn, hash: self.hash };
        proof {
            assert(r.data@ =~= self.data@);
            assert(r.must_jump@ =~= self.must_jump@);
            assert(r@ =~= self@);
        }
        r
    }

    /// The standard starting position: 12 white pawns on rows 0 to 2 and
    /// 12 black pawns on rows 5 to 7, Black to move, nothing forced, and
    /// the fingerprint of that position.
    pub fn new() -> (r: Self)
        ensures
            r.wf(),
            r@.grid == start_grid(),
            r@.turn == Color::Black,
            r@.must_jump.len() == 0,
            r@.hash == zobrist(start_grid(), Color::Black),
    {
        let mut data: Vec<Cell> = Vec::new();
        let mut i: usize = 0;
        while i < 64
            invariant
                i <= 64,
                data@.len() == i,
                forall|k: int| 0 <= k < i ==> data@[k] == start_cell(k),
            decreases 64 - i,
        {
            let row = i / 8;
            let col = i % 8;
            let piece: Option<Piece> = if (row + col) % 2 == 0 {
                if row < 3 {
                    Some(Piece { king: false, color: Color::White })
                } else if row > 4 {
                    Some(Piece { king: false, color: Color::Black })
                } else {
                    None
                }
            } else {
                None
            };
            data.push(Cell { piece });
            i = i + 1;
        }
        let mut r = Board { must_jump: Vec::new(), data, turn: Color::Black, hash: 0 };
        proof {
            assert(r.data@ =~= start_grid());
        }
        r.recompute_hash();
        r
    }

    /// Recomputes the Zobrist fingerprint by a full rescan of the dark
    /// squares plus the side-to-move key.
    pub fn recompute_hash(&mut self)
        requires
            old(self).wf(),
        ensures
            final (self).wf(),
            final (self).data == old(self).data,
            final (self).must_jump == old(self).must_jump,
            final (self).turn == old(self).turn,
            final (self).hash == zobrist(old(self).data@, old(self).turn),
    {
        proof {
            crate::zobrist::lemma_xor_basics();
        }
        let mut h: u64 = match self.turn {
            Color::White => WHITE_TURN_HASH,
            Color::Black => BLACK_TURN_HASH,
        };
        proof {
            assert(h == turn_key(self.turn) ^ square_fold(self.data@, 0));
        }
        let mut pid: usize = 0;
        while pid < 32
            invariant
                self.wf(),
                pid <= 32,
                h == turn_key(self.turn) ^ square_fold(self.data@, pid as nat),
            decreases 32 - pid,
        {
            let row = pid / 4;
            let col = 2 * (pid % 4) + (if row % 2 == 0 {
                0
            } else {
                1
            });
            let idx = row * 8 + col;
            let state: usize = match self.data[idx].piece {
                None => 0,
                Some(pc) => {
                    let mut s: usize = 1;
                    if pc.king {
                        s = s + 2;
                    }
                    if pc.color == Color::Black {
                        s = s + 1;
                    }
                    s
                },
            };
            proof {
                crate::zobrist::lemma_xor_basics();
                assert(crate::zobrist::dark_pos(pid as int) == CellPos {
                    row: (pid / 4) as usize,
                    col: (2 * ((pid as int) % 4) + (if (pid as int) / 4 % 2 == 0 {
                        0int
                    } else {
                        1int
                    })) as usize,
                });
                assert(idx == cell_index(crate::zobrist::dark_pos(pid as int)));
                assert(state == state_index(self.data@[idx as int]));
            }
            h = h ^ BOARD_HASH[pid][state];
            pid = pid + 1;
        }
        self.hash = h;
    }
}

/// True when `b` is an occupancy code: `.` empty, `w`/`b` pawn,
/// `W`/`B` king.
pub open spec fn code_valid(b: u8) -> bool {
    b == 46 || b == 119 || b == 98 || b == 87 || b == 66
}

/// The square a code stands for; codes other than the five valid ones
/// read as empty.
pub open spec fn decode(b: u8) -> Cell {
    if b == 119 {  // 'w'
        Cell { piece: Some(Piece { king: false, color: Color::White }) }
    } else if b == 98 {  // 'b'
        Cell { piece: Some(Piece { king: false, color: Color::Black }) }
    } else if b == 87 {  // 'W'
        Cell { piece: Some(Piece { king: true, color: Color::White }) }
    } else if b == 66 {  // 'B'
        Cell { piece: Some(Piece { king: true, color: Color::Black }) }
    } else {
        empty_cell()
    }
}

/// The grid read from eight rows of codes given top row first, as the
/// textual snapshot format has them.
pub open spec fn grid_of(rows: Seq<Vec<u8>>) -> Seq<Cell>
    recommends
        rows.len() == 8,
{
    Seq::new(64, |i: int| decode(rows[7 - i / 8]@[i % 8]))
}

/// The code a square renders to.
pub open spec fn encode_cell(c: Cell) -> u8 {
    match c.piece {
        None => 46,  // '.'
        Some(pc) => match (pc.king, pc.color) {
            (false, Color::White) => 119,  // 'w'
            (false, Color::Black) => 98,  // 'b'
            (true, Color::White) => 87,  // 'W'
            (true, Color::Black) => 66,  // 'B'
        },
    }
}

/// Rendering a square and reading it back gives the square again.
pub proof fn lemma_code_round_trip(c: Cell)
    ensures
        code_valid(encode_cell(c)),
        decode(encode_cell(c)) == c,
{
}

/// Rows of codes that render a grid read back as that grid: a snapshot
/// loses nothing of the occupancy.
pub proof fn lemma_snapshot_round_trip(g: Seq<Cell>, rows: Seq<Vec<u8>>)
    requires
        g.len() == 64,
        rows.len() == 8,
        forall|i: int| 0 <= i < 8 ==> (#[trigger] rows[i])@.len() == 8,
        forall|i: int, j: int|
            0 <= i < 8 && 0 <= j < 8 ==> #[trigger] rows[i]@[j] == encode_cell(g[(7 - i) * 8 + j]),
    ensures
        grid_of(rows) == g,
{
    assert forall|i: int| 0 <= i < 64 implies #[trigger] grid_of(rows)[i] == g[i] by {
        lemma_code_round_trip(g[i]);
        assert(rows[7 - i / 8]@[i % 8] == encode_cell(g[(7 - (7 - i / 8)) * 8 + i % 8]));
        assert((7 - (7 - i / 8)) * 8 + i % 8 == i);
    }
    assert(grid_of(rows) =~= g);
}

/// True when `pc` may move in direction `d`.
fn dir_allowed_exec(pc: Piece, d: MoveDir) -> (r: bool)
    ensures
        r == dir_allowed(pc, d),
{
    if pc.king {
        return true;
    }
    match pc.color {
        Color::White => d == MoveDir::TopLeft || d == MoveDir::TopRight,
        Color::Black => d == MoveDir::DownLeft || d == MoveDir::DownRight,
    }
}

/// True when `p` occurs in `v`.
fn contains_pos(v: &Vec<CellPos>, p: CellPos) -> (r: bool)
    ensures
        r == v@.contains(p),
{
    let mut i: usize = 0;
    while i < v.len()
        invariant
            i <= v.len(),
            forall|k: int| 0 <= k < i ==> v@[k] != p,
        decreases v.len() - i,
    {
        if v[i] == p {
            return true;
        }
        i = i + 1;
    }
    false
}

impl Board {
    /// Crowns every pawn standing on the far row of its color; runs after
    /// every move so that no pawn ever rests on its far row.
    fn promote_pawns(&mut self)
        requires
            old(self).wf(),
        ensures
            final (self).wf(),
            final (self).data@ == promote(old(self).data@),
            final (self).must_jump == old(self).must_jump,
            final (self).turn == old(self).turn,
            final (self).hash == old(self).hash,
    {
        let ghost g0 = self.data@;
        let mut col: usize = 0;
        while col < 8
            invariant
                self.wf(),
                self.must_jump == old(self).must_jump,
                self.turn == old(self).turn,
                self.hash == old(self).hash,
                col <= 8,
                g0.len() == 64,
                forall|k: int|
                    0 <= k < 64 ==> self.data@[k] == (if k < col || (56 <= k < 56 + col) {
                        promote_cell(g0[k], k / 8)
                    } else {
                        g0[k]
                    }),
            decreases 8 - col,
        {
            let top = 56 + col;
            match self.data[top].piece {
                Some(pc) => if pc.color == Color::White {
                    self.data.set(top, Cell { piece: Some(Piece { king: true, color: pc.color }) });
                },
                None => {},
            }
            let bottom = col;
            match self.data[bottom].piece {
                Some(pc) => if pc.color == Color::Black {
                    self.data.set(
                        bottom,
                        Cell { piece: Some(Piece { king: true, color: pc.color }) },
                    );
                },
                None => {},
            }
            col = col + 1;
        }
        proof {
            assert(self.data@ =~= promote(g0));
        }
    }

    /// True when the piece standing at `cp` can capture in direction `d`.
    fn can_jump_in_dir(&self, cp: CellPos, pc: Piece, d: MoveDir) -> (r: bool)
        requires
            self.wf(),
            pos_valid(cp),
            at(self@.grid, cp) == Some(pc),
        ensures
            r == can_jump_dir(self@.grid, cp, d),
    {
        if !dir_allowed_exec(pc, d) {
            return false;
        }
        match cp.shift(d) {
            None => false,
            Some(np) => match self.get(np) {
                None => false,
                Some(npc) => {
                    if npc.color == pc.color {
                        return false;
                    }
                    match np.shift(d) {
                        None => false,
                        Some(nnp) => self.get(nnp).is_none(),
                    }
                },
            },
        }
    }

    /// True when the piece of the side to move standing at `cp` has an
    /// available capture. Calling it on an empty or opposing square is a
    /// programming error, excluded up front.
    pub fn can_jump(&self, cp: CellPos) -> (r: bool)
        requires
            self.wf(),
            pos_valid(cp),
            at(self@.grid, cp) matches Some(pc) && pc.color == self@.turn,
        ensures
            r == can_jump_at(self@.grid, cp),
    {
        let pc = self.get(cp).unwrap();
        if self.can_jump_in_dir(cp, pc, MoveDir::TopRight) {
            return true;
        }
        if self.can_jump_in_dir(cp, pc, MoveDir::TopLeft) {
            return true;
        }
        if self.can_jump_in_dir(cp, pc, MoveDir::DownLeft) {
            return true;
        }
        self.can_jump_in_dir(cp, pc, MoveDir::DownRight)
    }

    /// Rebuilds `must_jump` from scratch for the side to move: the king
    /// capture origins when a king can capture, else all capture origins
    /// — kings must capture over pawns.
    fn find_forced_jumps(&mut self)
        requires
            old(self).wf(),
        ensures
            final (self).wf(),
            final (self).data == old(self).data,
            final (self).turn == old(self).turn,
            final (self).hash == old(self).hash,
            final (self).must_jump@ == forced_origins(old(self).data@, old(self).turn),
            exists_king_jumper(old(self).data@, old(self).turn) ==> forall|p: CellPos|
                #[trigger] final (self).must_jump@.contains(p) ==> (at(old(self).data@, p)
                    matches Some(pc) && pc.king && pc.color == old(self).turn),
    {
        proof {
            crate::rules::lemma_index_maps();
            if exists_king_jumper(old(self).data@, old(self).turn) {
                assert forall|p: CellPos|
                    #[trigger] forced_origins(old(self).data@, old(self).turn).contains(p)
                        implies (at(old(self).data@, p) matches Some(pc) && pc.king && pc.color
                        == old(self).turn) by {
                    crate::rules::lemma_jump_origins_contains(
                        old(self).data@,
                        old(self).turn,
                        true,
                        64,
                        p,
                    );
                }
            }
        }
        let ghost g = self.data@;
        let ghost t = self.turn;
        let mut king_found = false;
        let mut i: usize = 0;
        while i < 64
            invariant
                self.wf(),
                self.data@ == g,
                self.turn == t,
                self.must_jump == old(self).must_jump,
                self.hash == old(self).hash,
                i <= 64,
                king_found ==> exists|k: int| 0 <= k < i && #[trigger] jumper_at(g, t, true, k),
                !king_found ==> forall|k: int| 0 <= k < i ==> !(#[trigger] jumper_at(g, t, true, k)),
            decreases 64 - i,
        {
            let p = CellPos { row: i / 8, col: i % 8 };
            proof {
                assert(crate::geom::pos_of_index(i as int) == p);
                assert(cell_index(p) == i as int);
            }
            if !king_found {
                match self.get(p) {
                    Some(pc) => if pc.king && pc.color == self.turn {
                        if self.can_jump(p) {
                            king_found = true;
                            proof {
                                assert(jumper_at(g, t, true, i as int));
                            }
                        }
                    },
                    None => {},
                }
            }
            i = i + 1;
        }
        proof {
            assert(king_found == exists_king_jumper(g, t));
        }
        let kings_only = king_found;
        let mut result: Vec<CellPos> = Vec::new();
        let mut j: usize = 0;
        while j < 64
            invariant
                self.wf(),
                self.data@ == g,
                self.turn == t,
                self.must_jump == old(self).must_jump,
                self.hash == old(self).hash,
                j <= 64,
                result@ == jump_origins(g, t, kings_only, j as nat),
            decreases 64 - j,
        {
            let p = CellPos { row: j / 8, col: j % 8 };
            proof {
                assert(crate::geom::pos_of_index(j as int) == p);
                assert(cell_index(p) == j as int);
            }
            let mut qual = false;
            match self.get(p) {
                Some(pc) => if pc.color == self.turn && (pc.king || !kings_only) {
                    if self.can_jump(p) {
                        qual = true;
                    }
                },
                None => {},
            }
            proof {
                assert(qual == jumper_at(g, t, kings_only, j as int));
            }
            if qual {
                result.push(p);
            }
            j = j + 1;
        }
        self.must_jump = result;
        proof {
            crate::rules::lemma_index_maps();
            if exists_king_jumper(g, t) {
                assert forall|p: CellPos| #[trigger] self.must_jump@.contains(p) implies (at(g, p)
                    matches Some(pc) && pc.king && pc.color == t) by {
                    crate::rules::lemma_jump_origins_contains(g, t, true, 64, p);
                }
            }
        }
    }

    /// Rebuilds a board wholesale from a textual snapshot: eight rows of
    /// eight occupancy codes, top row first, the given side to move.
    /// Promotion, the forced-jump set and the fingerprint are computed
    /// before the board is handed out. A malformed snapshot is a protocol
    /// violation by the caller and is excluded up front.
    pub fn from_grid(rows: &Vec<Vec<u8>>, turn: Color) -> (r: Board)
        requires
            rows@.len() == 8,
            forall|i: int| 0 <= i < 8 ==> (#[trigger] rows@[i])@.len() == 8,
            forall|i: int, j: int| 0 <= i < 8 && 0 <= j < 8 ==> code_valid(#[trigger] rows@[i]@[j]),
        ensures
            r.wf(),
            r@.turn == turn,
            r@.grid == promote(grid_of(rows@)),
            r@.must_jump == forced_origins(promote(grid_of(rows@)), turn),
            r@.hash == zobrist(promote(grid_of(rows@)), turn),
    {
        let mut data: Vec<Cell> = Vec::new();
        let mut i: usize = 0;
        while i < 64
            invariant
                rows@.len() == 8,
                forall|k: int| 0 <= k < 8 ==> (#[trigger] rows@[k])@.len() == 8,
                i <= 64,
                data@.len() == i,
                forall|k: int| 0 <= k < i ==> data@[k] == grid_of(rows@)[k],
            decreases 64 - i,
        {
            let tr = 7 - i / 8;
            let c = i % 8;
            let b = rows[tr][c];
            let piece: Option<Piece> = if b == 119 {
                Some(Piece { king: false, color: Color::White })
            } else if b == 98 {
                Some(Piece { king: false, color: Color::Black })
            } else if b == 87 {
                Some(Piece { king: true, color: Color::White })
            } else if b == 66 {
                Some(Piece { king: true, color: Color::Black })
            } else {
                None
            };
            data.push(Cell { piece });
            i = i + 1;
        }
        let mut r = Board { must_jump: Vec::new(), data, turn, hash: 0 };
        proof {
            assert(r.data@ =~= grid_of(rows@));
        }
        r.promote_pawns();
        r.find_forced_jumps();
        r.recompute_hash();
        r
    }

    /// True when the two boards are the same state, field for field:
    /// occupancy, forced set, side to move and fingerprint.
    pub fn same_position(&self, other: &Board) -> (r: bool)
        requires
            self.wf(),
            other.wf(),
        ensures
            r == (self@ == other@),
    {
        if self.turn != other.turn {
            return false;
        }
        if self.hash != other.hash {
            return false;
        }
        if self.must_jump.len() != other.must_jump.len() {
            return false;
        }
        let mut i: usize = 0;
        while i < self.must_jump.len()
            invariant
                self.wf(),
                other.wf(),
                self.must_jump@.len() == other.must_jump@.len(),
                i <= self.must_jump@.len(),
                forall|k: int| 0 <= k < i ==> self.must_jump@[k] == other.must_jump@[k],
            decreases self.must_jump@.len() - i,
        {
            if self.must_jump[i] != other.must_jump[i] {
                return false;
            }
            i = i + 1;
        }
        let mut j: usize = 0;
        while j < 64
            invariant
                self.wf(),
                other.wf(),
                j <= 64,
                forall|k: int| 0 <= k < j ==> self.data@[k] == other.data@[k],
            decreases 64 - j,
        {
            if self.data[j] != other.data[j] {
                return false;
            }
            j = j + 1;
        }
        proof {
            assert(self.data@ =~= other.data@);
            assert(self.must_jump@ =~= other.must_jump@);
            assert(self@ =~= other@);
        }
        true
    }

    /// Renders the occupancy as eight rows of codes, top row first: the
    /// textual snapshot format, and the exact inverse of `from_grid` on
    /// boards whose promotion sweep has run.
    pub fn to_grid(&self) -> (r: Vec<Vec<u8>>)
        requires
            self.wf(),
        ensures
            r@.len() == 8,
            forall|i: int| 0 <= i < 8 ==> (#[trigger] r@[i])@.len() == 8,
            forall|i: int, j: int|
                0 <= i < 8 && 0 <= j < 8 ==> #[trigger] r@[i]@[j] == encode_cell(
                    self@.grid[(7 - i) * 8 + j],
                ),
    {
        let mut rows: Vec<Vec<u8>> = Vec::new();
        let mut i: usize = 0;
        while i < 8
            invariant
                self.wf(),
                i <= 8,
                rows@.len() == i,
                forall|k: int| 0 <= k < i ==> (#[trigger] rows@[k])@.len() == 8,
                forall|k: int, j: int|
                    0 <= k < i && 0 <= j < 8 ==> #[trigger] rows@[k]@[j] == encode_cell(
                        self@.grid[(7 - k) * 8 + j],
                    ),
            decreases 8 - i,
        {
            let mut row: Vec<u8> = Vec::new();
            let mut j: usize = 0;
            while j < 8
                invariant
                    self.wf(),
                    i < 8,
                    j <= 8,
                    row@.len() == j,
                    forall|k: int|
                        0 <= k < j ==> #[trigger] row@[k] == encode_cell(
                            self@.grid[(7 - i) * 8 + k],
                        ),
                decreases 8 - j,
            {
                let b: u8 = match self.data[(7 - i) * 8 + j].piece {
                    None => 46,
                    Some(pc) => match (pc.king, pc.color) {
                        (false, Color::White) => 119,
                        (false, Color::Black) => 98,
                        (true, Color::White) => 87,
                        (true, Color::Black) => 66,
                    },
                };
                row.push(b);
                j = j + 1;
            }
            rows.push(row);
            i = i + 1;
        }
        rows
    }

    /// True when the rules accept `mv` in the current position, without
    /// touching the board.
    pub fn move_legal(&self, mv: PieceMove) -> (r: bool)
        requires
            self.wf(),
        ensures
            r == legal(self@, mv),
    {
        if mv.pos.row >= 8 || mv.pos.col >= 8 {
            return false;
        }
        let cpiece = match self.get(mv.pos) {
            Some(p) => p,
            None => {
                return false;
            },
        };
        if cpiece.color != self.turn {
            return false;
        }
        if self.must_jump.len() != 0 && !contains_pos(&self.must_jump, mv.pos) {
            return false;
        }
        if !dir_allowed_exec(cpiece, mv.dir) {
            return false;
        }
        let np = match mv.pos.shift(mv.dir) {
            Some(p) => p,
            None => {
                return false;
            },
        };
        match self.get(np) {
            Some(npiece) => {
                if npiece.color == self.turn {
                    return false;
                }
                let nnp = match np.shift(mv.dir) {
                    Some(p) => p,
                    None => {
                        return false;
                    },
                };
                self.get(nnp).is_none()
            },
            None => self.must_jump.len() == 0,
        }
    }

    /// The single legality gate: applies `mv` when the rules accept it
    /// and reports whether it did; a refused move leaves the board
    /// untouched. A capture whose landing piece can capture again keeps
    /// the turn and forces exactly that square; any other accepted move
    /// passes the turn, rebuilds the forced set and recomputes the
    /// fingerprint. Promotion runs on every accepted move.
    pub fn make_move(&mut self, mv: PieceMove) -> (r: bool)
        requires
            old(self).wf(),
        ensures
            final (self).wf(),
            r == legal(old(self)@, mv),
            r ==> final (self)@ == step(old(self)@, mv),
            !r ==> *final (self) == *old(self),
    {
        if !self.move_legal(mv) {
            return false;
        }
        let ghost m0 = self@;
        let cpiece = self.get(mv.pos).unwrap();
        let np = mv.pos.shift(mv.dir).unwrap();
        match self.get(np) {
            Some(_) => {
                let nnp = np.shift(mv.dir).unwrap();
                proof {
                    assert(cell_index(mv.pos) != cell_index(np));
                    assert(cell_index(np) != cell_index(nnp));
                    assert(cell_index(mv.pos) != cell_index(nnp));
                }
                self.set_cell(nnp, Cell { piece: Some(cpiece) });
                self.set_cell(mv.pos, Cell { piece: None });
                self.set_cell(np, Cell { piece: None });
                proof {
                    assert(self.data@ =~= m0.grid.update(cell_index(mv.pos), empty_cell()).update(
                        cell_index(np),
                        empty_cell(),
                    ).update(cell_index(nnp), Cell { piece: Some(cpiece) }));
                }
                let chain = self.can_jump(nnp);
                self.promote_pawns();
                if chain {
                    let mut mj: Vec<CellPos> = Vec::new();
                    mj.push(nnp);
                    self.must_jump = mj;
                    proof {
                        assert(self.must_jump@ =~= seq![nnp]);
                        assert(self@ =~= step(m0, mv));
                    }
                } else {
                    self.turn = self.turn.flip();
                    self.find_forced_jumps();
                    self.recompute_hash();
                    proof {
                        assert(self@ =~= step(m0, mv));
                    }
                }
                true
            },
            None => {
                self.set_cell(mv.pos, Cell { piece: None });
                self.set_cell(np, Cell { piece: Some(cpiece) });
                self.promote_pawns();
                self.turn = self.turn.flip();
                self.find_forced_jumps();
                self.recompute_hash();
                proof {
                    assert(self.data@ =~= promote(
                        m0.grid.update(cell_index(mv.pos), empty_cell()).update(
                            cell_index(np),
                            Cell { piece: Some(cpiece) },
                        ),
                    ));
                    assert(self@ =~= step(m0, mv));
                }
                true
            },
        }
    }

    /// True when the side to move has any legal move; false is the loss
    /// condition for that side.
    pub fn exists_valid_move(&self) -> (r: bool)
        requires
            self.wf(),
        ensures
            r == has_legal_move(self@),
    {
        let mut i: usize = 0;
        while i < 64
            invariant
                self.wf(),
                i <= 64,
                forall|mv: PieceMove|
                    pos_valid(mv.pos) && cell_index(mv.pos) < i ==> !(#[trigger] legal(self@, mv)),
            decreases 64 - i,
        {
            let p = CellPos { row: i / 8, col: i % 8 };
            proof {
                assert(cell_index(p) == i as int);
            }
            if self.move_legal(PieceMove { pos: p, dir: MoveDir::TopRight }) {
                return true;
            }
            if self.move_legal(PieceMove { pos: p, dir: MoveDir::TopLeft }) {
                return true;
            }
            if self.move_legal(PieceMove { pos: p, dir: MoveDir::DownRight }) {
                return true;
            }
            if self.move_legal(PieceMove { pos: p, dir: MoveDir::DownLeft }) {
                return true;
            }
            proof {
                assert forall|mv: PieceMove|
                    pos_valid(mv.pos) && cell_index(mv.pos) < i + 1 implies !(#[trigger] legal(
                    self@,
                    mv,
                )) by {
                    if cell_index(mv.pos) == i as int {
                        assert(mv.pos == p);
                        assert(mv.dir == MoveDir::TopRight || mv.dir == MoveDir::TopLeft || mv.dir
                            == MoveDir::DownRight || mv.dir == MoveDir::DownLeft);
                    }
                }
            }
            i = i + 1;
        }
        proof {
            assert(!has_legal_move(self@)) by {
                if has_legal_move(self@) {
                    let mv = choose|mv: PieceMove| legal(self@, mv);
                    assert(pos_valid(mv.pos));
                    assert(cell_index(mv.pos) < 64);
                    assert(!legal(self@, mv));
                }
            }
        }
        false
    }

    /// The positions of the pieces of side `color`, in scan order.
    pub fn piece_pos(&self, color: Color) -> (r: Vec<CellPos>)
        requires
            self.wf(),
        ensures
            r@ == positions_of(self@.grid, color, 64),
    {
        let mut result: Vec<CellPos> = Vec::new();
        let mut i: usize = 0;
        while i < 64
            invariant
                self.wf(),
                i <= 64,
                result@ == positions_of(self@.grid, color, i as nat),
            decreases 64 - i,
        {
            let p = CellPos { row: i / 8, col: i % 8 };
            proof {
                assert(crate::geom::pos_of_index(i as int) == p);
                assert(cell_index(p) == i as int);
            }
            match self.get(p) {
                Some(pc) => if pc.color == color {
                    result.push(p);
                },
                None => {},
            }
            i = i + 1;
        }
        result
    }
}

} // verus!
