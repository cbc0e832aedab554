//! What a view of the board shows: for each square its place on the
//! screen, its symbol and its colour.

use vstd::prelude::*;
use std::collections::HashSet;
use crate::game::{BoardState, PieceType, Player};
use crate::ui::Area;

verus! {

broadcast use vstd::std_specs::hash::group_hash_axioms;

/// A board together with the squares to be shown highlighted.
pub struct BoardView {
    pub board: BoardState,
    pub highlights: HashSet<usize>,
}

/// One square as it is drawn: three cells wide from column `x` in row
/// `y`, with its symbol in the middle.
#[derive(Debug, Clone, Copy, PartialEq, Eq)]
pub struct Cell {
    pub x: u16,
    pub y: u16,
    pub symbol: char,
    pub background: (u8, u8, u8),
}

/// Whether the square at `row` and `col` is a dark one.
pub open spec fn dark(row: int, col: int) -> bool {
    (row + col + 1) % 2 == 0
}

/// The symbol for what stands on a square: a blank for nothing, else the
/// chess symbol of the piece, filled for Black and outlined for White.
pub open spec fn symbol_of(square: Option<(PieceType, Player)>) -> char {
    match square {
        None => ' ',
        Some((kind, Player::Black)) => match kind {
            PieceType::InitKing | PieceType::King => '\u{265A}',
            PieceType::Queen => '\u{265B}',
            PieceType::InitRook | PieceType::Rook => '\u{265C}',
            PieceType::Bishop => '\u{265D}',
            PieceType::Knight => '\u{265E}',
            PieceType::InitPawn | PieceType::Pawn => '\u{265F}',
        },
        Some((kind, Player::White)) => match kind {
            PieceType::InitKing | PieceType::King => '\u{2654}',
            PieceType::Queen => '\u{2655}',
            PieceType::InitRook | PieceType::Rook => '\u{2656}',
            PieceType::Bishop => '\u{2657}',
            PieceType::Knight => '\u{2658}',
            PieceType::InitPawn | PieceType::Pawn => '\u{2659}',
        },
    }
}

/// The background of a square: grey for a dark square and near white for
/// a light one, and yellow in two shades where the square is highlighted.
pub open spec fn background_of(is_dark: bool, highlighted: bool) -> (u8, u8, u8) {
    if is_dark {
        if highlighted {
            (100u8, 100u8, 0u8)
        } else {
            (100u8, 100u8, 100u8)
        }
    } else {
        if highlighted {
            (200u8, 200u8, 0u8)
        } else {
            (250u8, 250u8, 250u8)
        }
    }
}

/// Whether the square at `row` and `col` is a dark one.
pub fn is_dark_field(row: usize, col: usize) -> (r: bool)
    requires
        row + col < usize::MAX,
    ensures
        r == dark(row as int, col as int),
{
    (row + col + 1) % 2 == 0
}

/// The symbol for what stands on a square.
pub fn field_symbol(square: Option<(PieceType, Player)>) -> (c: char)
    ensures
        c == symbol_of(square),
{
    match square {
        None => ' ',
        Some((kind, Player::Black)) => match kind {
            PieceType::InitKing | PieceType::King => '\u{265A}',
            PieceType::Queen => '\u{265B}',
            PieceType::InitRook | PieceType::Rook => '\u{265C}',
            PieceType::Bishop => '\u{265D}',
            PieceType::Knight => '\u{265E}',
            PieceType::InitPawn | PieceType::Pawn => '\u{265F}',
        },
        Some((kind, Player::White)) => match kind {
            PieceType::InitKing | PieceType::King => '\u{2654}',
            PieceType::Queen => '\u{2655}',
            PieceType::InitRook | PieceType::Rook => '\u{2656}',
            PieceType::Bishop => '\u{2657}',
            PieceType::Knight => '\u{2658}',
            PieceType::InitPawn | PieceType::Pawn => '\u{2659}',
        },
    }
}

/// The background of a square.
pub fn field_background(is_dark: bool, highlighted: bool) -> (rgb: (u8, u8, u8))
    ensures
        rgb == background_of(is_dark, highlighted),
{
    match (is_dark, highlighted) {
        (true, false) => (100, 100, 100),
        (false, false) => (250, 250, 250),
        (true, true) => (100, 100, 0),
        (false, true) => (200, 200, 0),
    }
}

impl BoardView {
    /// How square `i` is drawn: row 7 of the board at the top, three cells
    /// for each column.
    pub open spec fn cell_of(self, i: int) -> Cell {
        let row = 7 - i / 8;
        let col = i % 8;
        Cell {
            x: (col * 3) as u16,
            y: row as u16,
            symbol: symbol_of(self.board.at(i)),
            background: background_of(dark(row, col), self.highlights@.contains(i as usize)),
        }
    }

    /// The squares below `n` that start within `width` columns and
    /// `height` rows, as they are drawn, in the order of the squares.
    pub open spec fn cells_below(self, width: u16, height: u16, n: int) -> Seq<Cell>
        decreases n,
    {
        if n <= 0 {
            Seq::empty()
        } else {
            let before = self.cells_below(width, height, n - 1);
            let cell = self.cell_of(n - 1);
            if cell.x >= width || cell.y >= height {
                before
            } else {
                before.push(cell)
            }
        }
    }

    /// A view of the board with nothing highlighted.
    pub fn new(board: BoardState) -> (r: Self)
        ensures
            r.board == board,
            r.highlights@ == Set::<usize>::empty(),
    {
        Self { board, highlights: HashSet::new() }
    }

    /// A view of the board with the given squares highlighted.
    pub fn newh(board: BoardState, highlights: HashSet<usize>) -> (r: Self)
        ensures
            r.board == board,
            r.highlights == highlights,
    {
        Self { board, highlights }
    }

    /// The square that is drawn at column `x` and row `y` of the screen
    /// when the board is drawn into `area`, if the place lies within the
    /// area.
    pub fn get_field_index_from_pos(area: Area, x: u16, y: u16) -> (r: Option<usize>)
        requires
            area.fits(),
            area.height <= 8,
        ensures
            r == (if area.x <= x < area.right() && area.y <= y < area.bottom() {
                Some(((7 - (y - area.y)) * 8 + (x - area.x) / 3) as usize)
            } else {
                None::<usize>
            }),
    {
        if x >= area.x && x < area.x + area.width && y >= area.y && y < area.y + area.height {
            let x = x - area.x;
            let y = y - area.y;
            let row = y as usize;
            let col = (x / 3) as usize;
            let field = (7 - row) * 8 + col;
            Some(field)
        } else {
            None
        }
    }

    /// What to draw into an area of the given width and height: the
    /// squares that start within it, each with its place, symbol and
    /// colour.
    pub fn cells(&self, width: u16, height: u16) -> (r: Vec<Cell>)
        ensures
            r@ == self.cells_below(width, height, 64),
    {
        let mut r: Vec<Cell> = Vec::new();
        let mut i: usize = 0;
        while i < 64
            invariant
                i <= 64,
                r@ == self.cells_below(width, height, i as int),
            decreases 64 - i,
        {
            let row = 7 - (i / 8);
            let col = i % 8;
            let x = (col * 3) as u16;
            let y = row as u16;
            if !(x >= width || y >= height) {
                let symbol = field_symbol(self.board.fields[i]);
                let background = field_background(
                    is_dark_field(row, col),
                    self.highlights.contains(&i),
                );
                r.push(Cell { x, y, symbol, background });
            }
            i = i + 1;
        }
        r
    }
}

} // verus!
