//! The Zobrist position fingerprint: one fixed random 64-bit key per
//! (dark square, occupancy state) and one per side to move, XOR-folded
//! over the whole grid. The key values are arbitrary; only the fold
//! structure carries meaning, so the fingerprint is a pure function of
//! occupancy and side to move.

use vstd::prelude::*;

use crate::geom::{Cell, CellPos, Color};

verus! {

/// The key XOR-ed in when White is to move.
pub const WHITE_TURN_HASH: u64 = 8563708190896211681;

/// The key XOR-ed in when Black is to move.
pub const BLACK_TURN_HASH: u64 = 1765425214959844302;

/// The fixed random keys: one row per dark square, one column per
/// occupancy state (empty, white pawn, black pawn, white king, black king).
pub const BOARD_HASH: [[u64; 5]; 32] = [
    [16274875884252984956, 6074242489566749766, 9833923972892947155, 7089371412906992495, 4193949107282483348],
    [15192542410057855063, 2950379029391061177, 2373928829110185512, 8667796823930509732, 2006857113059836781],
    [17240502614927115812, 12650176439911112037, 16125475776992225402, 11215163897880425331, 16455025669698267593],
    [11982543824720674500, 11689768940945036012, 1258177404119886166, 8104243074131419772, 753131466122527109],
    [5318173331346675443, 14523429489948051288, 2903763423064359962, 10306871076669579102, 2103227662941222358],
    [18241584916984079752, 13944034434707060452, 8841817278909708425, 5182379259393751951, 2789829155049047510],
    [15586182909397208209, 7103835988119141559, 17086617251032100259, 16877032059503125526, 8766887688644728144],
    [6540727800511520548, 6087239248953928034, 112912877411321010, 15751349590952983607, 2608299175441640158],
    [6132894230358354261, 14596941937808897107, 9924100145400722741, 7649354081233957204, 3058598957732628883],
    [11343764717944437165, 15755518617544329124, 6064335707334156786, 5073459857266571696, 4764418664764831165],
    [17998075494648978202, 16724564891883453319, 11837820466397133977, 11222719033507765001, 7931666523861024232],
    [14688744633221763290, 2948439666112241851, 14895553529268023191, 11365739036837564630, 5910969438058883972],
    [10489398035197848729, 4251354873594885813, 9816160821033845909, 8877403550883625480, 2355787098486010388],
    [14976113501128997345, 5491960235926554482, 3559849850477081910, 8014340327482234447, 4322871156891124200],
    [3683988696001395439, 4882476044588243243, 16587843634165443074, 8109655804037719945, 18236702457620548315],
    [16478896971343697932, 2556331128272077451, 16115011888816126865, 11585170964533148637, 6407137973729341140],
    [15780380035285949964, 632153719320751506, 4255706508398326603, 18150830695095064412, 18283698207855421282],
    [12313990497803618457, 15452249877570647861, 13585575315835423120, 2786519215050216957, 8545240742438052079],
    [17024915352496284209, 15073728859364694043, 7077878969339855245, 13010434356424420399, 15962988367088501250],
    [15617254387641735532, 10551017970627490131, 7626411542069179899, 13272911875645299556, 10360731977783737055],
    [16679974993836505367, 7662577849883777022, 12774452934694025000, 10914284036027555555, 10591249164533632114],
    [8453525630454445311, 2929771814103333481, 12940075245728365955, 9062661811511429198, 5842497726739344737],
    [12414747509308103701, 549284408586433720, 8911455846781031434, 2622552561828178426, 1210952810793058161],
    [3121852042559984420, 3048134778644314244, 8161665141900449520, 9147488648106066446, 12265647805177820080],
    [8679851546982509133, 7227058976955123511, 8307499256195324678, 17622045472825632107, 9022920146413765599],
    [5729706023617262200, 5517073501976604600, 7811466911279522574, 12905652231906695362, 489690509462280198],
    [8804852051782848241, 3944976850500162559, 17201187752614130920, 9841944095998850095, 5985447382767007574],
    [5056754302316352595, 2476016181107259500, 6605155721705668485, 7410297421247171055, 18225642677703825547],
    [12978029578113286232, 8114842689987532415, 989965311472109006, 9842879144816655502, 4140701197748075506],
    [9398629978726996922, 12394352806349394525, 10918074777531381091, 5913083564929344805, 15577509057550588626],
    [2246475788457821352, 9799080289414864288, 10045343415915639585, 4416598120643402505, 6013702739115514033],
    [7335658778501375509, 18006933981810827233, 6424480005319050942, 2564622997727966525, 721114313271069757],
];

/// The key for the side to move.
pub open spec fn turn_key(t: Color) -> u64 {
    match t {
        Color::White => WHITE_TURN_HASH,
        Color::Black => BLACK_TURN_HASH,
    }
}

/// The occupancy state of a square: empty, pawn or king of either side.
pub open spec fn state_index(c: Cell) -> int {
    match c.piece {
        None => 0,
        Some(pc) => 1 + (if pc.king {
            2int
        } else {
            0int
        }) + (if pc.color == Color::Black {
            1int
        } else {
            0int
        }),
    }
}

/// The dark square with scan index `pid`: four dark squares per row,
/// offset by one column on odd rows.
pub open spec fn dark_pos(pid: int) -> CellPos
    recommends
        0 <= pid < 32,
{
    let row = pid / 4;
    let col = 2 * (pid % 4) + (if row % 2 == 0 {
        0int
    } else {
        1int
    });
    CellPos { row: row as usize, col: col as usize }
}

/// The key of dark square `pid` in grid `g`.
pub open spec fn square_key(g: Seq<Cell>, pid: int) -> u64
    recommends
        0 <= pid < 32,
        g.len() == 64,
{
    BOARD_HASH[pid][state_index(g[crate::geom::cell_index(dark_pos(pid))])]
}

/// The XOR fold of the keys of the first `n` dark squares.
pub open spec fn square_fold(g: Seq<Cell>, n: nat) -> u64
    decreases n,
{
    if n == 0 {
        0u64
    } else {
        square_fold(g, (n - 1) as nat) ^ square_key(g, n - 1)
    }
}

/// XOR facts the fold proofs lean on: zero is neutral and XOR associates.
pub proof fn lemma_xor_basics()
    ensures
        forall|x: u64| #[trigger] (x ^ 0u64) == x,
        forall|a: u64, b: u64, c: u64| #[trigger] ((a ^ b) ^ c) == a ^ (b ^ c),
{
    assert(forall|x: u64| #[trigger] (x ^ 0u64) == x) by (bit_vector);
    assert(forall|a: u64, b: u64, c: u64| #[trigger] ((a ^ b) ^ c) == a ^ (b ^ c)) by (bit_vector);
}

/// The Zobrist fingerprint of occupancy `g` with side `t` to move.
pub open spec fn zobrist(g: Seq<Cell>, t: Color) -> u64
    recommends
        g.len() == 64,
{
    turn_key(t) ^ square_fold(g, 32)
}

} // verus!
