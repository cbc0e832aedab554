//! Setting up the board and listing what stands on it.

use vstd::prelude::*;
use crate::game::{BoardState, EnPassantFieldInfo, PieceType, Player};

verus! {

/// The piece that starts on column `col` of a home rank.
pub open spec fn home_rank(col: int) -> PieceType {
    if col == 0 || col == 7 {
        PieceType::InitRook
    } else if col == 1 || col == 6 {
        PieceType::Knight
    } else if col == 2 || col == 5 {
        PieceType::Bishop
    } else if col == 3 {
        PieceType::Queen
    } else {
        PieceType::InitKing
    }
}

/// What stands on `sq` at the start of a game.
pub open spec fn initial_piece(sq: int) -> Option<(PieceType, Player)> {
    let row = sq / 8;
    let col = sq % 8;
    if row == 0 {
        Some((home_rank(col), Player::White))
    } else if row == 1 {
        Some((PieceType::InitPawn, Player::White))
    } else if row == 6 {
        Some((PieceType::InitPawn, Player::Black))
    } else if row == 7 {
        Some((home_rank(col), Player::Black))
    } else {
        None
    }
}

impl BoardState {
    /// Whether this is the board at the start of a game: every piece on its
    /// home square and unmoved, and no double step remembered.
    pub open spec fn is_initial(self) -> bool {
        &&& forall|sq: int| 0 <= sq < 64 ==> #[trigger] self.at(sq) == initial_piece(sq)
        &&& self.en_passant_field.ply == 0
        &&& self.en_passant_field.skipped == 0xFF
        &&& self.en_passant_field.target == 0xFF
    }

    /// The pieces of `player` on the squares below `n`, each with its
    /// square, in the order of the squares.
    pub open spec fn pieces_with_pos_below(self, player: Player, n: int) -> Seq<(PieceType, usize)>
        decreases n,
    {
        if n <= 0 {
            Seq::empty()
        } else {
            let before = self.pieces_with_pos_below(player, n - 1);
            match self.at(n - 1) {
                Some((piece, p)) => if p == player {
                    before.push((piece, (n - 1) as usize))
                } else {
                    before
                },
                None => before,
            }
        }
    }

    /// How many of the squares below `n` hold a piece of `player`.
    pub open spec fn owned_below(self, player: Player, n: int) -> int
        decreases n,
    {
        if n <= 0 {
            0
        } else {
            self.owned_below(player, n - 1) + (if self.owned_by(n - 1, player) {
                1int
            } else {
                0int
            })
        }
    }

    /// The pieces on the squares below `n`, each with its owner, in the
    /// order of the squares.
    pub open spec fn pieces_below(self, n: int) -> Seq<(PieceType, Player)>
        decreases n,
    {
        if n <= 0 {
            Seq::empty()
        } else {
            let before = self.pieces_below(n - 1);
            match self.at(n - 1) {
                Some(pp) => before.push(pp),
                None => before,
            }
        }
    }

    /// Each listed piece of `player` stands on the square listed with it.
    pub proof fn lemma_pieces_with_pos(self, player: Player, n: int)
        requires
            0 <= n <= 64,
        ensures
            forall|i: int|
                0 <= i < self.pieces_with_pos_below(player, n).len() ==> {
                    let e = #[trigger] self.pieces_with_pos_below(player, n)[i];
                    e.1 < n && self.at(e.1 as int) == Some((e.0, player))
                },
        decreases n,
    {
        if n > 0 {
            self.lemma_pieces_with_pos(player, n - 1);
            let before = self.pieces_with_pos_below(player, n - 1);
            let all = self.pieces_with_pos_below(player, n);
            assert forall|i: int| 0 <= i < all.len() implies {
                let e = #[trigger] all[i];
                e.1 < n && self.at(e.1 as int) == Some((e.0, player))
            } by {
                if i < before.len() {
                    assert(all[i] == before[i]);
                }
            }
        }
    }

    /// There are as many pieces of `player` listed as squares that hold
    /// one.
    pub proof fn lemma_pieces_count(self, player: Player, n: int)
        requires
            0 <= n,
        ensures
            self.pieces_with_pos_below(player, n).len() == self.owned_below(player, n),
            0 <= self.owned_below(player, n) <= n,
        decreases n,
    {
        if n > 0 {
            self.lemma_pieces_count(player, n - 1);
        }
    }

    /// Putting something on a square changes the count of a side's pieces
    /// by what comes less what goes.
    pub proof fn lemma_owned_put(
        self,
        sq: int,
        piece: Option<(PieceType, Player)>,
        player: Player,
        n: int,
    )
        requires
            0 <= sq < 64,
            0 <= n <= 64,
        ensures
            self.put(sq, piece).owned_below(player, n) == self.owned_below(player, n) + (if sq
                < n {
                (if piece matches Some((_, p)) && p == player {
                    1int
                } else {
                    0int
                }) - (if self.owned_by(sq, player) {
                    1int
                } else {
                    0int
                })
            } else {
                0int
            }),
        decreases n,
    {
        if n > 0 {
            self.lemma_owned_put(sq, piece, player, n - 1);
            if n - 1 != sq {
                assert(self.put(sq, piece).at(n - 1) == self.at(n - 1));
            } else {
                assert(self.put(sq, piece).at(sq) == piece);
            }
        }
    }

    /// A side whose pieces all stand on the squares from `lo` up to `hi`
    /// has at most `hi - lo` of them.
    pub proof fn lemma_owned_confined(self, player: Player, lo: int, hi: int, n: int)
        requires
            0 <= lo <= hi,
            0 <= n,
            forall|sq: int| 0 <= sq < n && #[trigger] self.owned_by(sq, player) ==> lo <= sq < hi,
        ensures
            self.owned_below(player, n) <= (if n <= lo {
                0
            } else if n <= hi {
                n - lo
            } else {
                hi - lo
            }),
        decreases n,
    {
        if n > 0 {
            self.lemma_owned_confined(player, lo, hi, n - 1);
        }
    }

    /// The board at the start of a game.
    pub fn new() -> (r: Self)
        ensures
            r.is_initial(),
    {
        let mut board: [Option<(PieceType, Player)>; 64] = [None;64];
        let init_row: [PieceType; 8] = [
            PieceType::InitRook,
            PieceType::Knight,
            PieceType::Bishop,
            PieceType::Queen,
            PieceType::InitKing,
            PieceType::Bishop,
            PieceType::Knight,
            PieceType::InitRook,
        ];
        let mut i: usize = 0;
        while i < 8
            invariant
                i <= 8,
                forall|c: int| 0 <= c < 8 ==> #[trigger] init_row@[c] == home_rank(c),
                forall|sq: int|
                    0 <= sq < 64 ==> #[trigger] board@[sq] == (if sq % 8 < i {
                        initial_piece(sq)
                    } else {
                        None
                    }),
            decreases 8 - i,
        {
            board[0 * 8 + i] = Some((init_row[i], Player::White));
            board[1 * 8 + i] = Some((PieceType::InitPawn, Player::White));
            board[7 * 8 + i] = Some((init_row[i], Player::Black));
            board[6 * 8 + i] = Some((PieceType::InitPawn, Player::Black));
            i = i + 1;
        }
        let en_passant_field = EnPassantFieldInfo { ply: 0, skipped: 0xFF, target: 0xFF };
        BoardState { fields: board, en_passant_field }
    }

    /// The pieces of `player` with their squares, in the order of the
    /// squares.
    pub fn get_pieces_with_pos(&self, player: Player) -> (pieces: Vec<(PieceType, usize)>)
        ensures
            pieces@ == self.pieces_with_pos_below(player, 64),
    {
        let mut pieces: Vec<(PieceType, usize)> = Vec::with_capacity(16);
        let mut pos: usize = 0;
        while pos < 64
            invariant
                pos <= 64,
                pieces@ == self.pieces_with_pos_below(player, pos as int),
            decreases 64 - pos,
        {
            if let Some((piece, curr_player)) = self.fields[pos] {
                if curr_player == player {
                    pieces.push((piece, pos));
                }
            }
            pos = pos + 1;
        }
        pieces
    }

    /// The pieces on the board with their owners, in the order of the
    /// squares.
    pub fn get_pieces(&self) -> (pieces: Vec<(PieceType, Player)>)
        ensures
            pieces@ == self.pieces_below(64),
    {
        let mut pieces: Vec<(PieceType, Player)> = Vec::with_capacity(32);
        let mut pos: usize = 0;
        while pos < 64
            invariant
                pos <= 64,
                pieces@ == self.pieces_below(pos as int),
            decreases 64 - pos,
        {
            if let Some(pp) = self.fields[pos] {
                pieces.push(pp);
            }
            pos = pos + 1;
        }
        pieces
    }

    /// The king of `player` with the lowest index is the one `king_pos`
    /// names.
    pub proof fn lemma_first_king_is_king_pos(self, sq: int, player: Player)
        requires
            self.first_king(sq, player),
        ensures
            self.king_pos(player) == sq,
    {
        let k = self.king_pos(player);
        assert(self.first_king(k, player));
        if k < sq {
            assert(!self.is_king_of(k, player));
        } else if sq < k {
            assert(!self.is_king_of(sq, player));
        }
    }

    /// A side with a king has one with the lowest index.
    pub proof fn lemma_king_pos(self, player: Player)
        requires
            self.has_king(player),
        ensures
            self.first_king(self.king_pos(player), player),
    {
        let w = choose|sq: int| 0 <= sq < 64 && #[trigger] self.is_king_of(sq, player);
        self.lemma_first_king_below(w, player);
    }

    proof fn lemma_first_king_below(self, w: int, player: Player)
        requires
            0 <= w < 64,
            self.is_king_of(w, player),
        ensures
            exists|sq: int| self.first_king(sq, player),
        decreases w,
    {
        if exists|j: int| 0 <= j < w && #[trigger] self.is_king_of(j, player) {
            let j = choose|j: int| 0 <= j < w && #[trigger] self.is_king_of(j, player);
            self.lemma_first_king_below(j, player);
        } else {
            assert(self.first_king(w, player));
        }
    }

    /// The square of the king of `player`: of the first one in the order of
    /// the squares.
    pub fn find_king(&self, player: Player) -> (pos: usize)
        requires
            self.has_king(player),
        ensures
            self.first_king(pos as int, player),
            pos == self.king_pos(player),
    {
        let mut pos: usize = 0;
        proof {
            self.lemma_king_pos(player);
        }
        while pos < 64
            invariant
                pos <= 64,
                self.first_king(self.king_pos(player), player),
                forall|j: int| 0 <= j < pos ==> !#[trigger] self.is_king_of(j, player),
            decreases 64 - pos,
        {
            let found = match self.fields[pos] {
                Some((PieceType::King, p)) => p == player,
                Some((PieceType::InitKing, p)) => p == player,
                _ => false,
            };
            if found {
                proof {
                    self.lemma_first_king_is_king_pos(pos as int, player);
                }
                return pos;
            }
            pos = pos + 1;
        }
        proof {
            assert(self.is_king_of(self.king_pos(player), player));
            assert(false);
        }
        pos
    }
}

} // verus!
