//! Rules of the game as theorems about the move generator: the count of
//! quiet plies, promotion, castling and the capture en passant.

use vstd::prelude::*;
use crate::attack::AttackKind;
use crate::game::{GameState, PieceType};
use crate::geometry::{
    final_row, lemma_on_board_between, pawn_capture_dirs, step_on_board, step_square, Direction,
    STRAIGHT_AND_DIAGONAL,
};
use crate::geometry::{pawn_move_dirs, DIAGONAL, KNIGHT, STRAIGHT};
use crate::legal::{king_safe, lemma_filter_from};
use crate::moves::{castle_square, rook_distance};
use crate::position::lemma_strike_geometry;

verus! {

impl GameState {
    /// Whether `next` comes one ply after this position with no capture or
    /// pawn move counted in between.
    pub open spec fn quiet_successor(self, next: GameState) -> bool {
        &&& next.ply == self.ply + 1
        &&& next.fifty_move_rule_last_event == self.fifty_move_rule_last_event
    }

    /// A move that is no pawn's and takes nothing is quiet; any other move
    /// starts the count of quiet plies again.
    pub proof fn lemma_moved_counts(self, piece: PieceType, from: int, to: int)
        requires
            self.ply < usize::MAX,
            0 <= from < 64,
            0 <= to < 64,
            from != to,
        ensures
            piece != PieceType::Pawn && self.board.at(to) is None ==> self.quiet_successor(
                self.moved(piece, from, to),
            ),
            piece == PieceType::Pawn || self.board.at(to) is Some ==> self.moved(
                piece,
                from,
                to,
            ).quiet_plies() == 0,
    {
    }

    /// Castling is quiet where the king's landing square is empty, as it is
    /// whenever castling is allowed.
    pub proof fn lemma_castled_counts(self, from: int, queen_side: bool)
        requires
            self.ply < usize::MAX,
            0 <= from < 64,
            from % 8 == 4,
            self.can_castle(from, queen_side),
        ensures
            self.quiet_successor(self.castled(from, queen_side)),
    {
        assert(self.board.at(castle_square(from, queen_side, 2)) is None);
    }
}

impl GameState {
    /// Whether `m` counts as a move of `piece` should: it comes one ply
    /// on, and the ply of the last event is the new ply if the piece is a
    /// pawn or something stood on the square where it lands, and is left
    /// as it was otherwise.
    pub open spec fn counted(self, piece: PieceType, m: (usize, GameState)) -> bool {
        &&& m.1.ply == self.ply + 1
        &&& m.1.fifty_move_rule_last_event == (if piece == PieceType::Pawn || piece
            == PieceType::InitPawn || self.board.at(m.0 as int) is Some {
            m.1.ply
        } else {
            self.fifty_move_rule_last_event
        })
    }

    /// The arrivals of a pawn count as pawn moves.
    proof fn lemma_pawn_moves_counted(self, from: int, targets: Seq<(usize, usize)>, i: int)
        requires
            self.ply < usize::MAX,
            0 <= i < self.pawn_moves(from, targets).len(),
        ensures
            self.counted(PieceType::Pawn, self.pawn_moves(from, targets)[i]),
        decreases targets.len(),
    {
        let front = targets.drop_last();
        let head = self.pawn_moves(from, front);
        if i < head.len() {
            self.lemma_pawn_moves_counted(from, front, i);
        }
    }

    /// The captures en passant count as pawn moves.
    proof fn lemma_en_passant_moves_counted(self, from: int, targets: Seq<(usize, usize)>, i: int)
        requires
            self.ply < usize::MAX,
            0 <= i < self.en_passant_moves(from, targets).len(),
        ensures
            self.counted(PieceType::Pawn, self.en_passant_moves(from, targets)[i]),
        decreases targets.len(),
    {
        let front = targets.drop_last();
        let head = self.en_passant_moves(from, front);
        if i < head.len() {
            self.lemma_en_passant_moves_counted(from, front, i);
        }
    }

    /// Every move that the geometry of a piece allows counts as it should:
    /// a move that is no pawn's and lands on an empty square leaves the ply
    /// of the last event as it was, and any other sets it to the new ply.
    pub proof fn lemma_pseudo_legal_counted(self, piece: PieceType, from: int, i: int)
        requires
            self.wf(),
            0 <= from < 64,
            self.ply < usize::MAX,
            self.board.at(from) == Some((piece, self.mover())),
            0 <= i < self.pseudo_legal(piece, from).len(),
        ensures
            self.counted(piece, self.pseudo_legal(piece, from)[i]),
    {
        let mover = self.mover();
        let all = self.pseudo_legal(piece, from);
        lemma_strike_geometry(piece, mover);
        match piece {
            PieceType::InitKing | PieceType::King => {
                self.lemma_plain_moves_good(piece, from, STRAIGHT_AND_DIAGONAL@, 1, true, true);
                let targets = self.reach(from, STRAIGHT_AND_DIAGONAL@, 1);
                let plain = self.plain_moves(PieceType::King, from, targets);
                if i < plain.len() {
                    assert(all[i] == plain[i]);
                    assert(targets[i].0 != from);
                } else {
                    let special = self.castling_moves(piece, from);
                    assert(all[i] == special[i - plain.len()]);
                    assert(from % 8 == 4);
                    let queen_side = all[i].0 == castle_square(from, true, 2);
                    assert(self.can_castle(from, queen_side));
                    assert(all[i].1 == self.castled(from, queen_side));
                    self.lemma_castled_counts(from, queen_side);
                }
            },
            PieceType::Queen => {
                self.lemma_plain_moves_good(piece, from, STRAIGHT_AND_DIAGONAL@, 7, true, true);
                assert(self.reach(from, STRAIGHT_AND_DIAGONAL@, 7)[i].0 != from);
            },
            PieceType::InitRook | PieceType::Rook => {
                self.lemma_plain_moves_good(piece, from, STRAIGHT@, 7, true, true);
                assert(self.reach(from, STRAIGHT@, 7)[i].0 != from);
            },
            PieceType::Bishop => {
                self.lemma_plain_moves_good(piece, from, DIAGONAL@, 7, true, true);
                assert(self.reach(from, DIAGONAL@, 7)[i].0 != from);
            },
            PieceType::Knight => {
                self.lemma_plain_moves_good(piece, from, KNIGHT@, 1, true, true);
                assert(self.reach(from, KNIGHT@, 1)[i].0 != from);
            },
            PieceType::InitPawn => {
                let advances = self.board.far_targets(
                    from,
                    pawn_move_dirs(mover),
                    2,
                    true,
                    false,
                    mover,
                );
                let captures = self.board.far_targets(
                    from,
                    pawn_capture_dirs(mover),
                    1,
                    false,
                    true,
                    mover,
                );
                let first = self.first_pawn_moves(from, advances);
                let second = self.plain_moves(PieceType::Pawn, from, captures);
                if i < first.len() {
                    assert(all[i] == first[i]);
                } else {
                    assert(all[i] == second[i - first.len()]);
                }
            },
            PieceType::Pawn => {
                let advances = self.board.far_targets(
                    from,
                    pawn_move_dirs(mover),
                    1,
                    true,
                    false,
                    mover,
                );
                let captures = self.board.far_targets(
                    from,
                    pawn_capture_dirs(mover),
                    1,
                    false,
                    true,
                    mover,
                );
                let passed = self.board.far_targets(
                    from,
                    pawn_capture_dirs(mover),
                    1,
                    true,
                    false,
                    mover,
                );
                let first = self.pawn_moves(from, advances);
                let second = self.pawn_moves(from, captures);
                if i < first.len() {
                    assert(all[i] == first[i]);
                    self.lemma_pawn_moves_counted(from, advances, i);
                } else if i < first.len() + second.len() {
                    assert(all[i] == second[i - first.len()]);
                    self.lemma_pawn_moves_counted(from, captures, i - first.len());
                } else {
                    let third = self.en_passant_moves(from, passed);
                    assert(all[i] == third[i - first.len() - second.len()]);
                    self.lemma_en_passant_moves_counted(
                        from,
                        passed,
                        i - first.len() - second.len(),
                    );
                }
            },
        }
    }
}

/// Whether `x` stands in `s` at exactly one place.
pub open spec fn occurs_once<A>(s: Seq<A>, x: A) -> bool {
    exists|i: int|
        0 <= i < s.len() && s[i] == x && forall|j: int| 0 <= j < s.len() && s[j] == x ==> j == i
}

/// What stands once in a sequence and passes the test stands once in what
/// passes the filter.
pub proof fn lemma_filter_once<A>(s: Seq<A>, pred: spec_fn(A) -> bool, x: A)
    requires
        occurs_once(s, x),
        pred(x),
    ensures
        occurs_once(s.filter(pred), x),
    decreases s.len(),
{
    reveal(Seq::filter);
    let i = choose|i: int|
        0 <= i < s.len() && s[i] == x && forall|j: int| 0 <= j < s.len() && s[j] == x ==> j == i;
    let front = s.drop_last();
    let kept = s.filter(pred);
    let before = front.filter(pred);
    lemma_filter_from(front, pred);
    if i == s.len() - 1 {
        assert(kept == before.push(x));
        let at = before.len() as int;
        assert(kept[at] == x);
        assert forall|j: int| 0 <= j < kept.len() && kept[j] == x implies j == at by {
            if j < before.len() {
                assert(front.contains(before[j]));
                let n = choose|n: int| 0 <= n < front.len() && front[n] == before[j];
                assert(s[n] == x);
            }
        }
    } else {
        assert(front[i] == x);
        assert(occurs_once(front, x)) by {
            assert forall|j: int| 0 <= j < front.len() && front[j] == x implies j == i by {
                assert(s[j] == x);
            }
        }
        lemma_filter_once(front, pred, x);
        let at = choose|n: int|
            0 <= n < before.len() && before[n] == x && forall|j: int|
                0 <= j < before.len() && before[j] == x ==> j == n;
        assert(s[s.len() - 1] != x);
        assert(kept[at] == x);
        assert forall|j: int| 0 <= j < kept.len() && kept[j] == x implies j == at by {
            if j < before.len() {
                assert(before[j] == kept[j]);
            }
        }
    }
}

/// Along quiet moves the count of quiet plies goes up by one each ply, so
/// the draw by the 150 plies' rule comes exactly when the count, which
/// starts at `states[0].quiet_plies()`, reaches 150: after an event it is
/// no draw for 149 moves, and is one at the 150th.
pub proof fn lemma_fifty_move_rule(states: Seq<GameState>, i: int)
    requires
        0 <= i < states.len(),
        forall|j: int|
            0 <= j < states.len() - 1 ==> (#[trigger] states[j]).quiet_successor(states[j + 1]),
    ensures
        states[i].quiet_plies() == states[0].quiet_plies() + i,
        states[0].quiet_plies() == 0 ==> (states[i].quiet_plies() >= 150 <==> i >= 150),
    decreases i,
{
    if i > 0 {
        lemma_fifty_move_rule(states, i - 1);
        assert(states[i - 1].quiet_successor(states[i - 1 + 1]));
    }
}

impl GameState {
    /// A pawn that reaches the last row gives exactly four successors: a
    /// queen, a rook, a bishop or a knight stands on the square of arrival,
    /// and the four positions are the same everywhere else.
    pub proof fn lemma_promotion(self, from: int, to: usize)
        requires
            0 <= from < 64,
            to < 64,
            to / 8 == final_row(self.mover()),
        ensures
            self.pawn_arrival(from, to).len() == 4,
            self.pawn_arrival(from, to)[0].1.board.at(to as int) == Some(
                (PieceType::Queen, self.mover()),
            ),
            self.pawn_arrival(from, to)[1].1.board.at(to as int) == Some(
                (PieceType::Rook, self.mover()),
            ),
            self.pawn_arrival(from, to)[2].1.board.at(to as int) == Some(
                (PieceType::Bishop, self.mover()),
            ),
            self.pawn_arrival(from, to)[3].1.board.at(to as int) == Some(
                (PieceType::Knight, self.mover()),
            ),
            forall|i: int|
                0 <= i < 4 ==> {
                    let m = #[trigger] self.pawn_arrival(from, to)[i];
                    let plain = self.moved(PieceType::Pawn, from, to as int);
                    &&& m.0 == to
                    &&& m.1.ply == plain.ply
                    &&& m.1.fifty_move_rule_last_event == plain.fifty_move_rule_last_event
                    &&& m.1.board.en_passant_field == plain.board.en_passant_field
                    &&& forall|sq: int|
                        0 <= sq < 64 && sq != to ==> m.1.board.at(sq) == plain.board.at(sq)
                },
    {
    }

    /// The square on which a king lands by a plain move lies on one of the
    /// three columns round the king's.
    proof fn lemma_king_step_column(self, from: int, i: int)
        requires
            0 <= from < 64,
            0 <= i < self.reach(from, STRAIGHT_AND_DIAGONAL@, 1).len(),
        ensures
            from % 8 - 1 <= self.reach(from, STRAIGHT_AND_DIAGONAL@, 1)[i].0 % 8 <= from % 8 + 1,
    {
        let targets = self.reach(from, STRAIGHT_AND_DIAGONAL@, 1);
        let dirs = STRAIGHT_AND_DIAGONAL@;
        self.board.lemma_far_targets_members(from, dirs, 1, true, true, self.mover());
        let t = targets[i];
        assert(targets.contains(t));
        let (j, k) = choose|j: int, k: int|
            0 <= j < dirs.len() && 1 <= k <= 1 && #[trigger] self.board.is_target(
                from,
                dirs[j],
                k,
                true,
                true,
                self.mover(),
                t,
            );
        lemma_on_board_between(from, dirs[j], 1, 1);
        assert(dirs[j].1 * 1 == dirs[j].1);
    }

    /// Castling to a side is among the moves of an unmoved king exactly
    /// once where the king is not attacked and castling to that side is
    /// allowed, and not at all where either fails.
    pub proof fn lemma_castling(self, from: int, queen_side: bool)
        requires
            0 <= from < 64,
            from % 8 == 4,
        ensures
            ({
                let moves = self.pseudo_legal(PieceType::InitKing, from);
                let castling = (
                    castle_square(from, queen_side, 2) as usize,
                    self.castled(from, queen_side),
                );
                if !self.board.under_attack(from, self.mover()) && self.can_castle(
                    from,
                    queen_side,
                ) {
                    occurs_once(moves, castling)
                } else {
                    !moves.contains(castling)
                }
            }),
    {
        let moves = self.pseudo_legal(PieceType::InitKing, from);
        let castling = (castle_square(from, queen_side, 2) as usize, self.castled(from, queen_side));
        let plain = self.plain_moves(
            PieceType::King,
            from,
            self.reach(from, STRAIGHT_AND_DIAGONAL@, 1),
        );
        let special = self.castling_moves(PieceType::InitKing, from);
        assert(moves == plain + special);
        assert forall|j: int| 0 <= j < plain.len() implies plain[j] != castling by {
            self.lemma_king_step_column(from, j);
        }
        let other = (
            castle_square(from, !queen_side, 2) as usize,
            self.castled(from, !queen_side),
        );
        assert(other.0 != castling.0);
        if !self.board.under_attack(from, self.mover()) && self.can_castle(from, queen_side) {
            let first = self.castle_option(from, true);
            let at = if queen_side {
                plain.len() as int
            } else {
                (plain.len() + first.len()) as int
            };
            assert(moves[at] == castling);
            assert forall|j: int| 0 <= j < moves.len() && moves[j] == castling implies j == at by {
                if j >= plain.len() {
                    assert(moves[j] == special[j - plain.len()]);
                }
            }
        } else {
            assert forall|j: int| 0 <= j < moves.len() implies moves[j] != castling by {
                if j >= plain.len() {
                    assert(moves[j] == special[j - plain.len()]);
                }
            }
        }
    }

    /// What castling changes on the board: the king's square and the
    /// rook's corner are left empty, the king stands two squares towards
    /// the corner and the rook next to it, and nothing else has moved.
    proof fn lemma_castled_board(self, from: int, queen_side: bool)
        requires
            0 <= from < 64,
            from % 8 == 4,
            self.ply < usize::MAX,
        ensures
            ({
                let after = self.castled(from, queen_side).board;
                let rook = castle_square(from, queen_side, rook_distance(queen_side));
                let pass = castle_square(from, queen_side, 1);
                let land = castle_square(from, queen_side, 2);
                &&& after.at(from) is None
                &&& after.at(rook) is None
                &&& after.at(pass) == Some((PieceType::Rook, self.mover()))
                &&& after.at(land) == Some((PieceType::King, self.mover()))
                &&& forall|sq: int|
                    0 <= sq < 64 && sq != from && sq != rook && sq != pass && sq != land
                        ==> #[trigger] after.at(sq) == self.board.at(sq)
            }),
    {
    }

    /// A piece that bears on the king after castling bore on the square
    /// before: the two squares that castling empties lie on no ray from the
    /// king's new square to a piece beyond them.
    proof fn lemma_castled_no_new_threat(
        self,
        from: int,
        queen_side: bool,
        d: Direction,
        k: int,
        kind: AttackKind,
    )
        requires
            0 <= from < 64,
            from % 8 == 4,
            self.ply < usize::MAX,
            self.board.at(from) == Some((PieceType::InitKing, self.mover())),
            self.can_castle(from, queen_side),
            -2 <= d.0 <= 2,
            -2 <= d.1 <= 2,
            d.0 == 0 ==> d.1 == 1 || d.1 == -1,
            self.castled(from, queen_side).board.threat_at(
                castle_square(from, queen_side, 2),
                d,
                k,
                self.mover(),
                kind,
            ),
        ensures
            self.board.threat_at(castle_square(from, queen_side, 2), d, k, self.mover(), kind),
    {
        let before = self.board;
        let after = self.castled(from, queen_side).board;
        let rook = castle_square(from, queen_side, rook_distance(queen_side));
        let pass = castle_square(from, queen_side, 1);
        let land = castle_square(from, queen_side, 2);
        let d0 = d.0 as int;
        let d1 = d.1 as int;
        self.lemma_castled_board(from, queen_side);
        lemma_on_board_between(land, d, k, k);
        let hit = step_square(land, d, k);
        assert(after.at(hit) == before.at(hit));
        assert forall|j: int| 1 <= j < k implies #[trigger] before.step_empty(land, d, j) by {
            lemma_on_board_between(land, d, j, k);
            let sq = step_square(land, d, j);
            assert(after.step_empty(land, d, j));
            if sq == from || sq == rook {
                assert(d0 * j == 0);
                assert(d0 == 0) by (nonlinear_arith)
                    requires
                        d0 * j == 0,
                        j >= 1,
                ;
                assert(d1 * j == (if d1 == 1 { j } else { -j })) by (nonlinear_arith)
                    requires
                        d1 == 1 || d1 == -1,
                ;
                assert(d1 * k == (if d1 == 1 { k } else { -k })) by (nonlinear_arith)
                    requires
                        d1 == 1 || d1 == -1,
                ;
                assert(d1 * 1 == d1 && d0 * 1 == d0);
                assert(sq % 8 == land % 8 + d1 * j);
                assert(step_on_board(land, d, k));
                if sq == from {
                    assert(j == 2);
                    assert(crate::geometry::step_row(land, d, 1) == land / 8);
                    assert(crate::geometry::step_col(land, d, 1) == land % 8 + d1);
                    assert(step_square(land, d, 1) == pass);
                    assert(after.step_empty(land, d, 1));
                    assert(false);
                } else {
                    assert(false);
                }
            }
        }
    }

    /// After castling the king is not in check: castling is legal wherever
    /// it is allowed.
    pub proof fn lemma_castled_king_safe(self, from: int, queen_side: bool)
        requires
            self.wf(),
            0 <= from < 64,
            self.ply < usize::MAX,
            self.board.at(from) == Some((PieceType::InitKing, self.mover())),
            self.can_castle(from, queen_side),
        ensures
            !self.castled(from, queen_side).board.in_check(self.mover()),
    {
        let mover = self.mover();
        let after = self.castled(from, queen_side).board;
        let land = castle_square(from, queen_side, 2);
        assert(from % 8 == 4);
        self.lemma_castled_board(from, queen_side);
        self.lemma_castled_good(from, queen_side);
        assert(after.is_king_of(land, mover));
        assert(after.first_king(land, mover)) by {
            assert forall|j: int| 0 <= j < land implies !#[trigger] after.is_king_of(j, mover) by {
                if after.is_king_of(j, mover) {
                    assert(j == land);
                }
            }
        }
        after.lemma_first_king_is_king_pos(land, mover);
        assert forall|i: int, k: int| 0 <= i < 4 && 1 <= k <= 7 implies !#[trigger] after.threat_at(
            land,
            crate::geometry::STRAIGHT@[i],
            k,
            mover,
            AttackKind::Straight,
        ) by {
            let d = crate::geometry::STRAIGHT@[i];
            if after.threat_at(land, d, k, mover, AttackKind::Straight) {
                self.lemma_castled_no_new_threat(from, queen_side, d, k, AttackKind::Straight);
            }
        }
        assert forall|i: int, k: int| 0 <= i < 4 && 1 <= k <= 7 implies !#[trigger] after.threat_at(
            land,
            crate::geometry::DIAGONAL@[i],
            k,
            mover,
            AttackKind::Diagonal,
        ) by {
            let d = crate::geometry::DIAGONAL@[i];
            if after.threat_at(land, d, k, mover, AttackKind::Diagonal) {
                self.lemma_castled_no_new_threat(from, queen_side, d, k, AttackKind::Diagonal);
            }
        }
        assert forall|i: int, k: int| 0 <= i < 8 && 1 <= k <= 1 implies !#[trigger] after.threat_at(
            land,
            crate::geometry::KNIGHT@[i],
            k,
            mover,
            AttackKind::Knight,
        ) by {
            let d = crate::geometry::KNIGHT@[i];
            if after.threat_at(land, d, k, mover, AttackKind::Knight) {
                self.lemma_castled_no_new_threat(from, queen_side, d, k, AttackKind::Knight);
            }
        }
        assert forall|i: int, k: int| 0 <= i < 2 && 1 <= k <= 1 implies !#[trigger] after.threat_at(
            land,
            pawn_capture_dirs(mover)[i],
            k,
            mover,
            AttackKind::Pawn,
        ) by {
            let d = pawn_capture_dirs(mover)[i];
            if after.threat_at(land, d, k, mover, AttackKind::Pawn) {
                self.lemma_castled_no_new_threat(from, queen_side, d, k, AttackKind::Pawn);
            }
        }
    }

    /// Castling to a side is among the legal moves of an unmoved king
    /// exactly once where the king is not attacked, the rook of that side
    /// is unmoved, the squares between them are empty and the two squares
    /// the king crosses are not attacked; and not at all where any of this
    /// fails.
    pub proof fn lemma_castling_legal(self, from: int, queen_side: bool)
        requires
            self.wf(),
            0 <= from < 64,
            self.ply < usize::MAX,
            self.board.at(from) == Some((PieceType::InitKing, self.mover())),
        ensures
            ({
                let moves = self.legal_for_piece(PieceType::InitKing, from);
                let castling = (
                    castle_square(from, queen_side, 2) as usize,
                    self.castled(from, queen_side),
                );
                if !self.board.under_attack(from, self.mover()) && self.can_castle(
                    from,
                    queen_side,
                ) {
                    occurs_once(moves, castling)
                } else {
                    !moves.contains(castling)
                }
            }),
    {
        let all = self.pseudo_legal(PieceType::InitKing, from);
        let castling = (castle_square(from, queen_side, 2) as usize, self.castled(from, queen_side));
        let pred = king_safe(self.mover());
        assert(from % 8 == 4);
        self.lemma_castling(from, queen_side);
        if !self.board.under_attack(from, self.mover()) && self.can_castle(from, queen_side) {
            self.lemma_castled_king_safe(from, queen_side);
            lemma_filter_once(all, pred, castling);
        } else {
            self.lemma_legal_is_safe_pseudo_legal(PieceType::InitKing, from, castling);
        }
    }

    /// A move is legal exactly if it is among the moves by geometry and
    /// leaves the mover's king out of check.
    pub proof fn lemma_legal_is_safe_pseudo_legal(
        self,
        piece: PieceType,
        from: int,
        m: (usize, GameState),
    )
        ensures
            self.legal_for_piece(piece, from).contains(m) <==> self.pseudo_legal(
                piece,
                from,
            ).contains(m) && !m.1.board.in_check(self.mover()),
    {
        let all = self.pseudo_legal(piece, from);
        let pred = king_safe(self.mover());
        let kept = all.filter(pred);
        lemma_filter_from(all, pred);
        if kept.contains(m) {
            let i = choose|i: int| 0 <= i < kept.len() && kept[i] == m;
            assert(all.contains(kept[i]) && pred(kept[i]));
        }
        if all.contains(m) && pred(m) {
            let i = choose|i: int| 0 <= i < all.len() && all[i] == m;
            all.lemma_filter_contains(pred, i);
        }
    }

    /// Every target that is the square passed over gives its capture en
    /// passant.
    proof fn lemma_en_passant_moves_contain(self, from: int, targets: Seq<(usize, usize)>, n: int)
        requires
            0 <= n < targets.len(),
            targets[n].0 == self.board.en_passant_field.skipped,
        ensures
            self.en_passant_moves(from, targets).contains(
                (targets[n].0, self.en_passant_capture(from, targets[n].0 as int)),
            ),
        decreases targets.len(),
    {
        let all = self.en_passant_moves(from, targets);
        let front = targets.drop_last();
        let before = self.en_passant_moves(from, front);
        let m = (targets[n].0, self.en_passant_capture(from, targets[n].0 as int));
        if n == targets.len() - 1 {
            assert(all[all.len() - 1] == m);
        } else {
            assert(front[n] == targets[n]);
            self.lemma_en_passant_moves_contain(from, front, n);
            let i = choose|i: int| 0 <= i < before.len() && before[i] == m;
            assert(all[i] == m);
        }
    }

    /// Right after a double step, a pawn of the mover that stands where it
    /// captures onto the square passed over has the capture en passant
    /// among its moves, and the capture takes the pawn that made the double
    /// step off the board.
    pub proof fn lemma_en_passant_offered(self, from: int, i: int)
        requires
            0 <= from < 64,
            self.en_passant_open(),
            0 <= i < pawn_capture_dirs(self.mover()).len(),
            step_on_board(from, pawn_capture_dirs(self.mover())[i], 1),
            step_square(from, pawn_capture_dirs(self.mover())[i], 1)
                == self.board.en_passant_field.skipped,
            self.board.at(self.board.en_passant_field.skipped as int) is None,
            self.board.en_passant_field.target < 64,
        ensures
            self.pseudo_legal(PieceType::Pawn, from).contains(
                (
                    self.board.en_passant_field.skipped,
                    self.en_passant_capture(from, self.board.en_passant_field.skipped as int),
                ),
            ),
            self.en_passant_capture(
                from,
                self.board.en_passant_field.skipped as int,
            ).board.at(self.board.en_passant_field.target as int) is None,
    {
        let mover = self.mover();
        let dirs = pawn_capture_dirs(mover);
        let to = self.board.en_passant_field.skipped;
        let passed = self.board.far_targets(from, dirs, 1, true, false, mover);
        let m = (to, self.en_passant_capture(from, to as int));
        self.board.lemma_far_targets_members(from, dirs, 1, true, false, mover);
        lemma_on_board_between(from, dirs[i], 1, 1);
        assert(self.board.is_target(from, dirs[i], 1, true, false, mover, (to, 1usize)));
        assert(passed.contains((to, 1usize)));
        let n = choose|n: int| 0 <= n < passed.len() && passed[n] == (to, 1usize);
        self.lemma_en_passant_moves_contain(from, passed, n);
        let special = self.en_passant_moves(from, passed);
        let all = self.pseudo_legal(PieceType::Pawn, from);
        let j = choose|j: int| 0 <= j < special.len() && special[j] == m;
        assert(all[all.len() - special.len() + j] == m);
    }

    /// After a move, the only double step that can be answered is one
    /// that this very move made: an older one has expired.
    pub proof fn lemma_only_fresh_double_step(self, piece: PieceType, from: int, i: int)
        requires
            self.wf(),
            0 <= from < 64,
            self.ply < usize::MAX,
            self.board.at(from) == Some((piece, self.mover())),
            0 <= i < self.pseudo_legal(piece, from).len(),
        ensures
            ({
                let next = self.pseudo_legal(piece, from)[i].1;
                next.en_passant_open() && next.board.en_passant_field.skipped < 64 ==> {
                    &&& next.board.en_passant_field.ply == self.ply
                    &&& next.board.at(next.board.en_passant_field.target as int) == Some(
                        (PieceType::Pawn, self.mover()),
                    )
                }
            }),
    {
        self.lemma_pseudo_legal_good(piece, from);
        assert(self.good_step(self.pseudo_legal(piece, from)[i]));
    }

    /// Unless the double step was made on the ply before, no capture en
    /// passant is among the moves of a pawn: they are its advances and its
    /// plain captures.
    pub proof fn lemma_en_passant_expired(self, from: int)
        requires
            !self.en_passant_open(),
        ensures
            self.pseudo_legal(PieceType::Pawn, from) == self.pawn_moves(
                from,
                self.board.far_targets(
                    from,
                    crate::geometry::pawn_move_dirs(self.mover()),
                    1,
                    true,
                    false,
                    self.mover(),
                ),
            ) + self.pawn_moves(
                from,
                self.board.far_targets(
                    from,
                    pawn_capture_dirs(self.mover()),
                    1,
                    false,
                    true,
                    self.mover(),
                ),
            ),
    {
    }
}

} // verus!
