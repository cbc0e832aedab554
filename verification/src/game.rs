//! Pieces, players, the board and the game state.

use vstd::prelude::*;
pub use crate::geometry::{get_steps, pos_from_rowcol};

verus! {

/// The kind of a piece. The `Init` variants mark a king, rook or pawn that has
/// not moved yet; a piece that moves becomes the plain variant for good.
#[derive(Debug, Clone, Copy, PartialEq, Eq, Structural)]
pub enum PieceType {
    InitKing,
    King,
    Queen,
    InitRook,
    Rook,
    Bishop,
    Knight,
    InitPawn,
    Pawn,
}

/// One of the two sides.
#[derive(Debug, Clone, Copy, PartialEq, Eq, Structural)]
pub enum Player {
    Black,
    White,
}

impl Player {
    /// The other side.
    pub open spec fn other(self) -> Player {
        match self {
            Player::White => Player::Black,
            Player::Black => Player::White,
        }
    }

    /// The other side.
    pub fn opponent(&self) -> (r: Player)
        ensures
            r == self.other(),
    {
        match self {
            Player::White => Player::Black,
            Player::Black => Player::White,
        }
    }
}

/// The most recent double step of a pawn: the ply before which it was made,
/// the square the pawn passed over and the square it landed on.
#[derive(Debug, Clone, Copy, PartialEq, Eq)]
pub struct EnPassantFieldInfo {
    pub ply: usize,
    pub skipped: usize,
    pub target: usize,
}

/// What stands on the 64 squares, and the remembered double step.
#[derive(Debug, Clone, Copy, PartialEq, Eq)]
pub struct BoardState {
    pub fields: [Option<(PieceType, Player)>; 64],
    pub en_passant_field: EnPassantFieldInfo,
}

/// A board together with the ply counter and the ply of the last capture or
/// pawn move.
#[derive(Debug, Clone, Copy, PartialEq, Eq)]
pub struct GameState {
    pub ply: usize,
    pub fifty_move_rule_last_event: usize,
    pub board: BoardState,
}

impl BoardState {
    /// What stands on square `sq`.
    pub open spec fn at(self, sq: int) -> Option<(PieceType, Player)> {
        self.fields@[sq]
    }

    /// The kind of the piece on `sq`; a pawn where nothing stands there.
    pub open spec fn kind_at(self, sq: int) -> PieceType {
        match self.at(sq) {
            Some((kind, _)) => kind,
            None => PieceType::Pawn,
        }
    }

    /// Whether a piece of `player` stands on `sq`.
    pub open spec fn owned_by(self, sq: int, player: Player) -> bool {
        self.at(sq) matches Some((_, p)) && p == player
    }

    /// Whether a king of `player` stands on `sq`.
    pub open spec fn is_king_of(self, sq: int, player: Player) -> bool {
        self.at(sq) == Some((PieceType::King, player)) || self.at(sq) == Some(
            (PieceType::InitKing, player),
        )
    }

    /// Whether `player` has a king on the board.
    pub open spec fn has_king(self, player: Player) -> bool {
        exists|sq: int| 0 <= sq < 64 && #[trigger] self.is_king_of(sq, player)
    }

    /// Whether `sq` holds the king of `player` with the lowest index.
    pub open spec fn first_king(self, sq: int, player: Player) -> bool {
        &&& 0 <= sq < 64
        &&& self.is_king_of(sq, player)
        &&& forall|j: int| 0 <= j < sq ==> !#[trigger] self.is_king_of(j, player)
    }

    /// The square of the king of `player` with the lowest index.
    pub open spec fn king_pos(self, player: Player) -> int {
        choose|sq: int| self.first_king(sq, player)
    }

    /// Whether the board can be played on without leaving it: an unmoved
    /// king stands on the king's column, where its rooks are three and four
    /// squares away on the same row, and a remembered double step that names
    /// a square passed over names the pawn's square too.
    pub open spec fn wf(self) -> bool {
        &&& forall|sq: int|
            0 <= sq < 64 && (#[trigger] self.at(sq) matches Some((PieceType::InitKing, _))) ==> sq
                % 8 == 4
        &&& self.en_passant_field.skipped < 64 ==> self.en_passant_field.target < 64
    }

    /// Whether `player` has exactly one king on the board.
    pub open spec fn one_king(self, player: Player) -> bool {
        &&& self.has_king(player)
        &&& forall|a: int, b: int|
            0 <= a < 64 && 0 <= b < 64 && #[trigger] self.is_king_of(a, player)
                && #[trigger] self.is_king_of(b, player) ==> a == b
    }

    /// The board with `piece` put on square `sq`.
    pub open spec fn put(self, sq: int, piece: Option<(PieceType, Player)>) -> BoardState {
        BoardState {
            fields: vstd::array::spec_array_update(self.fields, sq, piece),
            en_passant_field: self.en_passant_field,
        }
    }
}

impl GameState {
    /// The side to move: White on even plies.
    pub open spec fn mover(self) -> Player {
        if self.ply % 2 == 0 {
            Player::White
        } else {
            Player::Black
        }
    }

    /// How many plies have passed since the last capture or pawn move.
    pub open spec fn quiet_plies(self) -> int {
        self.ply - self.fifty_move_rule_last_event
    }

    /// Whether the game is drawn because 150 plies have passed without a
    /// capture or a pawn move.
    pub fn fifty_move_rule_draw(&self) -> (r: bool)
        requires
            self.fifty_move_rule_last_event <= self.ply,
        ensures
            r == (self.quiet_plies() >= 150),
    {
        self.ply - self.fifty_move_rule_last_event >= 150
    }

    /// The side to move.
    pub fn turn(&self) -> (r: Player)
        ensures
            r == self.mover(),
    {
        if self.ply % 2 == 0 {
            Player::White
        } else {
            Player::Black
        }
    }

}

} // verus!
