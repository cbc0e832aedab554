//! What holds of every position of a game, and why a move keeps it.
//!
//! A position is well formed when each side has one king, the side that has
//! just moved is not in check, and the remembered double step fits the
//! board. The start of a game is well formed, and so is every position that
//! a legal move leads to.

use vstd::prelude::*;
use crate::attack::AttackKind;
use crate::game::{BoardState, GameState, PieceType, Player};
use crate::geometry::{
    lemma_on_board_between, lemma_step_back, opposite, pawn_capture_dirs, pawn_move_dirs,
    step_square, Direction, BLACK_PAWN_CAPTURE, DIAGONAL, KNIGHT, STRAIGHT,
    STRAIGHT_AND_DIAGONAL, WHITE_PAWN_CAPTURE,
};
use crate::moves::{castle_square, rook_distance};

verus! {

/// Whether a piece `piece` of `mover` that reaches a square `k` steps away
/// in direction `d` attacks that square.
pub open spec fn strike_geometry(piece: PieceType, mover: Player, d: Direction, k: int) -> bool {
    ||| STRAIGHT@.contains(d) && 1 <= k <= 7 && AttackKind::Straight.strikes(piece, k)
    ||| DIAGONAL@.contains(d) && 1 <= k <= 7 && AttackKind::Diagonal.strikes(piece, k)
    ||| KNIGHT@.contains(d) && k == 1 && AttackKind::Knight.strikes(piece, k)
    ||| pawn_capture_dirs(mover).contains(d) && k == 1 && AttackKind::Pawn.strikes(piece, k)
}

impl GameState {
    /// Whether the remembered double step fits the board: where it names a
    /// square passed over, it was made before this ply and names the pawn's
    /// square, and while it can be answered that pawn stands there.
    pub open spec fn en_passant_ok(self) -> bool {
        let ep = self.board.en_passant_field;
        ep.skipped < 64 ==> {
            &&& ep.target < 64
            &&& ep.ply < self.ply
            &&& (self.en_passant_open() ==> self.board.at(ep.target as int) == Some(
                (PieceType::Pawn, self.mover().other()),
            ))
        }
    }

    /// Whether the position is sound but for the question of check: the
    /// board is well formed, the last event is not in the future, each side
    /// has one king, and the remembered double step fits.
    pub open spec fn sane(self) -> bool {
        &&& self.board.wf()
        &&& self.fifty_move_rule_last_event <= self.ply
        &&& self.board.one_king(Player::White)
        &&& self.board.one_king(Player::Black)
        &&& self.en_passant_ok()
    }

    /// Whether the position is well formed: it is sane, and the side that
    /// has just moved is not in check.
    pub open spec fn wf(self) -> bool {
        &&& self.sane()
        &&& !self.board.in_check(self.mover().other())
    }
}

/// The opposite of a direction of a family is a direction of that family;
/// for the pawn captures, of the other side's family.
pub proof fn lemma_opposite_in_family(d: Direction, mover: Player)
    ensures
        STRAIGHT@.contains(d) ==> STRAIGHT@.contains(opposite(d)),
        DIAGONAL@.contains(d) ==> DIAGONAL@.contains(opposite(d)),
        KNIGHT@.contains(d) ==> KNIGHT@.contains(opposite(d)),
        pawn_capture_dirs(mover).contains(d) ==> pawn_capture_dirs(mover.other()).contains(
            opposite(d),
        ),
{
    if STRAIGHT@.contains(d) {
        let i = choose|i: int| 0 <= i < STRAIGHT@.len() && STRAIGHT@[i] == d;
        let j = if i == 0 { 1 } else if i == 1 { 0 } else if i == 2 { 3 } else { 2 };
        assert(STRAIGHT@[j] == opposite(d));
    }
    if DIAGONAL@.contains(d) {
        let i = choose|i: int| 0 <= i < DIAGONAL@.len() && DIAGONAL@[i] == d;
        let j = 3 - i;
        assert(DIAGONAL@[j] == opposite(d));
    }
    if KNIGHT@.contains(d) {
        let i = choose|i: int| 0 <= i < KNIGHT@.len() && KNIGHT@[i] == d;
        let j = (i + 4) % 8;
        assert(KNIGHT@[j] == opposite(d));
    }
    if pawn_capture_dirs(mover).contains(d) {
        let dirs = pawn_capture_dirs(mover);
        let back = pawn_capture_dirs(mover.other());
        let i = choose|i: int| 0 <= i < dirs.len() && dirs[i] == d;
        let j = 1 - i;
        assert(WHITE_PAWN_CAPTURE@.len() == 2 && BLACK_PAWN_CAPTURE@.len() == 2);
        assert(back[j] == opposite(d));
    }
}

impl BoardState {
    /// A piece that can capture on a square attacks it: seen from the
    /// square, the piece is the first on the ray back.
    pub proof fn lemma_capture_is_attack(
        self,
        from: int,
        d: Direction,
        k: int,
        piece: PieceType,
        mover: Player,
    )
        requires
            0 <= from < 64,
            self.at(from) == Some((piece, mover)),
            self.reaches(from, d, k),
            strike_geometry(piece, mover, d, k),
        ensures
            self.under_attack(step_square(from, d, k), mover.other()),
    {
        let to = step_square(from, d, k);
        let back = opposite(d);
        let other = mover.other();
        lemma_opposite_in_family(d, mover);
        assert(-8 <= d.0 <= 8 && -8 <= d.1 <= 8) by {
            if STRAIGHT@.contains(d) {
                let i = choose|i: int| 0 <= i < STRAIGHT@.len() && STRAIGHT@[i] == d;
            }
            if DIAGONAL@.contains(d) {
                let i = choose|i: int| 0 <= i < DIAGONAL@.len() && DIAGONAL@[i] == d;
            }
            if KNIGHT@.contains(d) {
                let i = choose|i: int| 0 <= i < KNIGHT@.len() && KNIGHT@[i] == d;
            }
            if pawn_capture_dirs(mover).contains(d) {
                let i = choose|i: int|
                    0 <= i < pawn_capture_dirs(mover).len() && pawn_capture_dirs(mover)[i] == d;
            }
        }
        lemma_on_board_between(from, d, k, k);
        lemma_on_board_between(from, d, 0, k);
        lemma_step_back(from, d, k, k);
        assert(step_square(from, d, 0) == from) by {
            assert(d.0 * 0 == 0);
            assert(d.1 * 0 == 0);
        }
        assert(self.clear_path(to, back, k)) by {
            assert forall|j: int| 1 <= j < k implies #[trigger] self.step_empty(to, back, j) by {
                lemma_step_back(from, d, k, j);
                assert(self.step_empty(from, d, k - j));
            }
        }
        assert(self.reaches(to, back, k));
        assert(self.ray_hit(to, back, k, false, true, other));
        if STRAIGHT@.contains(d) && 1 <= k <= 7 && AttackKind::Straight.strikes(piece, k) {
            let i = choose|i: int| 0 <= i < STRAIGHT@.len() && STRAIGHT@[i] == back;
            assert(self.threat_at(to, STRAIGHT@[i], k, other, AttackKind::Straight));
        } else if DIAGONAL@.contains(d) && 1 <= k <= 7 && AttackKind::Diagonal.strikes(piece, k) {
            let i = choose|i: int| 0 <= i < DIAGONAL@.len() && DIAGONAL@[i] == back;
            assert(self.threat_at(to, DIAGONAL@[i], k, other, AttackKind::Diagonal));
        } else if KNIGHT@.contains(d) && k == 1 && AttackKind::Knight.strikes(piece, k) {
            let i = choose|i: int| 0 <= i < KNIGHT@.len() && KNIGHT@[i] == back;
            assert(self.threat_at(to, KNIGHT@[i], k, other, AttackKind::Knight));
        } else {
            let dirs = pawn_capture_dirs(other);
            let i = choose|i: int| 0 <= i < dirs.len() && dirs[i] == back;
            assert(self.threat_at(to, dirs[i], k, other, AttackKind::Pawn));
        }
    }
}

/// What a piece is after it has moved: no longer unmoved.
pub open spec fn settled(piece: PieceType) -> PieceType {
    match piece {
        PieceType::InitKing => PieceType::King,
        PieceType::InitRook => PieceType::Rook,
        PieceType::InitPawn => PieceType::Pawn,
        _ => piece,
    }
}

/// Whether `piece` is a king, moved or not.
pub open spec fn is_king(piece: Option<(PieceType, Player)>) -> bool {
    piece matches Some((kind, _)) && (kind == PieceType::King || kind == PieceType::InitKing)
}

impl GameState {
    /// Whether `m` is a sane position one ply after this one, with its
    /// landing square on the board.
    pub open spec fn good_step(self, m: (usize, GameState)) -> bool {
        &&& m.0 < 64
        &&& m.1.sane()
        &&& m.1.ply == self.ply + 1
        &&& (m.1.board.en_passant_field.skipped < 64 && m.1.en_passant_open()
            ==> m.1.board.en_passant_field.ply == self.ply)
    }

    /// Whether every move of `moves` is a good step from this position.
    pub open spec fn all_good(self, moves: Seq<(usize, GameState)>) -> bool {
        forall|i: int| 0 <= i < moves.len() ==> #[trigger] self.good_step(moves[i])
    }

    /// A king that is not attacked is not captured: where the position is
    /// well formed, a square of the other side that the mover attacks does
    /// not hold a king.
    pub proof fn lemma_attacked_is_no_king(self, to: int)
        requires
            self.wf(),
            0 <= to < 64,
            self.board.under_attack(to, self.mover().other()),
        ensures
            !self.board.is_king_of(to, self.mover().other()),
    {
        let other = self.mover().other();
        if self.board.is_king_of(to, other) {
            assert(self.board.first_king(to, other)) by {
                assert forall|j: int| 0 <= j < to implies !#[trigger] self.board.is_king_of(
                    j,
                    other,
                ) by {
                    if self.board.is_king_of(j, other) {
                        assert(j == to);
                    }
                }
            }
            self.board.lemma_first_king_is_king_pos(to, other);
        }
    }

    /// A piece of the mover that goes to an empty square, or takes a piece
    /// that it attacks, leaves a sane position.
    pub proof fn lemma_moved_sane(self, before: PieceType, from: int, to: int)
        requires
            self.wf(),
            0 <= from < 64,
            0 <= to < 64,
            self.ply < usize::MAX,
            self.board.at(from) == Some((before, self.mover())),
            self.board.at(to) is None || (self.board.owned_by(to, self.mover().other())
                && self.board.under_attack(to, self.mover().other())),
        ensures
            self.good_step((to as usize, self.moved(settled(before), from, to))),
            !self.moved(settled(before), from, to).en_passant_open()
                || self.board.en_passant_field.skipped >= 64,
            !is_king(self.board.at(to)),
    {
        let mover = self.mover();
        let other = mover.other();
        let after = settled(before);
        let next = self.moved(after, from, to);
        let b = self.board;
        let nb = next.board;
        if b.at(to) is Some {
            self.lemma_attacked_is_no_king(to);
        }
        assert(!is_king(b.at(to)));
        assert(from != to);
        assert(nb.at(from) is None);
        assert(nb.at(to) == Some((after, mover)));
        assert forall|sq: int| 0 <= sq < 64 && sq != from && sq != to implies #[trigger] nb.at(sq)
            == b.at(sq) by {}
        assert(forall|sq: int|
            0 <= sq < 64 ==> (#[trigger] nb.is_king_of(sq, other) <==> b.is_king_of(sq, other)));
        assert(nb.one_king(other)) by {
            let w = choose|sq: int| 0 <= sq < 64 && #[trigger] b.is_king_of(sq, other);
            assert(nb.is_king_of(w, other));
            assert forall|x: int, y: int|
                0 <= x < 64 && 0 <= y < 64 && #[trigger] nb.is_king_of(x, other)
                    && #[trigger] nb.is_king_of(y, other) implies x == y by {
                assert(b.is_king_of(x, other) && b.is_king_of(y, other));
            }
        }
        assert(nb.one_king(mover)) by {
            let w = choose|sq: int| 0 <= sq < 64 && #[trigger] b.is_king_of(sq, mover);
            if before == PieceType::King || before == PieceType::InitKing {
                assert(b.is_king_of(from, mover));
                assert(nb.is_king_of(to, mover));
                assert forall|x: int, y: int|
                    0 <= x < 64 && 0 <= y < 64 && #[trigger] nb.is_king_of(x, mover)
                        && #[trigger] nb.is_king_of(y, mover) implies x == y by {
                    if x != to {
                        assert(b.is_king_of(x, mover));
                        assert(x == from);
                    }
                    if y != to {
                        assert(b.is_king_of(y, mover));
                        assert(y == from);
                    }
                }
            } else {
                assert(w != from && w != to);
                assert(nb.is_king_of(w, mover));
                assert forall|x: int, y: int|
                    0 <= x < 64 && 0 <= y < 64 && #[trigger] nb.is_king_of(x, mover)
                        && #[trigger] nb.is_king_of(y, mover) implies x == y by {
                    assert(b.is_king_of(x, mover) && b.is_king_of(y, mover));
                }
            }
        }
        assert(nb.wf()) by {
            assert forall|sq: int|
                0 <= sq < 64 && (#[trigger] nb.at(sq) matches Some(
                    (PieceType::InitKing, _),
                )) implies sq % 8 == 4 by {
                assert(sq != from && sq != to);
                assert(b.at(sq) == nb.at(sq));
            }
        }
    }

    /// Putting a piece that is no king where no king stands keeps a
    /// position sane, unless it disturbs a double step that can still be
    /// answered.
    pub proof fn lemma_with_square_sane(self, sq: int, piece: Option<(PieceType, Player)>)
        requires
            self.sane(),
            0 <= sq < 64,
            !is_king(self.board.at(sq)),
            !is_king(piece),
            !self.en_passant_open() || self.board.en_passant_field.skipped >= 64,
        ensures
            self.with_square(sq, piece).sane(),
    {
        let b = self.board;
        let nb = self.with_square(sq, piece).board;
        assert forall|x: int| 0 <= x < 64 && x != sq implies #[trigger] nb.at(x) == b.at(x) by {}
        assert(nb.at(sq) == piece);
        assert forall|p: Player| b.one_king(p) implies nb.one_king(p) by {
            assert(forall|x: int|
                0 <= x < 64 ==> (#[trigger] nb.is_king_of(x, p) <==> b.is_king_of(x, p)));
            let w = choose|x: int| 0 <= x < 64 && #[trigger] b.is_king_of(x, p);
            assert(nb.is_king_of(w, p));
            assert forall|x: int, y: int|
                0 <= x < 64 && 0 <= y < 64 && #[trigger] nb.is_king_of(x, p)
                    && #[trigger] nb.is_king_of(y, p) implies x == y by {
                assert(b.is_king_of(x, p) && b.is_king_of(y, p));
            }
        }
        assert(nb.wf()) by {
            assert forall|x: int|
                0 <= x < 64 && (#[trigger] nb.at(x) matches Some(
                    (PieceType::InitKing, _),
                )) implies x % 8 == 4 by {
                assert(x != sq);
                assert(b.at(x) == nb.at(x));
            }
        }
    }

    /// Whether `m` is a good step after which no double step can be
    /// answered.
    pub open spec fn quiet_step(self, m: (usize, GameState)) -> bool {
        &&& self.good_step(m)
        &&& (!m.1.en_passant_open() || m.1.board.en_passant_field.skipped >= 64)
    }

    /// A move along a ray to one of its targets is a quiet step.
    pub proof fn lemma_ray_move_good(
        self,
        before: PieceType,
        from: int,
        d: Direction,
        k: int,
        to_empty: bool,
        to_capture: bool,
    )
        requires
            self.wf(),
            0 <= from < 64,
            self.ply < usize::MAX,
            self.board.at(from) == Some((before, self.mover())),
            self.board.ray_hit(from, d, k, to_empty, to_capture, self.mover()),
            to_capture ==> strike_geometry(before, self.mover(), d, k),
        ensures
            0 <= step_square(from, d, k) < 64,
            self.quiet_step(
                (
                    step_square(from, d, k) as usize,
                    self.moved(settled(before), from, step_square(from, d, k)),
                ),
            ),
            !is_king(self.board.at(step_square(from, d, k))),
            !to_capture ==> self.board.at(step_square(from, d, k)) is None,
            step_square(from, d, k) != from,
            !self.board.owned_by(step_square(from, d, k), self.mover()),
    {
        let to = step_square(from, d, k);
        lemma_on_board_between(from, d, k, k);
        if self.board.at(to) is Some {
            self.board.lemma_capture_is_attack(from, d, k, before, self.mover());
        }
        self.lemma_moved_sane(before, from, to);
    }

    /// The moves of a piece to the targets of its rays are quiet steps.
    pub proof fn lemma_plain_moves_good(
        self,
        before: PieceType,
        from: int,
        dirs: Seq<Direction>,
        max: int,
        to_empty: bool,
        to_capture: bool,
    )
        requires
            self.wf(),
            0 <= from < 64,
            self.ply < usize::MAX,
            self.board.at(from) == Some((before, self.mover())),
            to_capture ==> forall|j: int, k: int|
                0 <= j < dirs.len() && 1 <= k <= max ==> #[trigger] strike_geometry(
                    before,
                    self.mover(),
                    dirs[j],
                    k,
                ),
        ensures
            forall|i: int|
                0 <= i < self.board.far_targets(
                    from,
                    dirs,
                    max,
                    to_empty,
                    to_capture,
                    self.mover(),
                ).len() ==> {
                    let t = #[trigger] self.board.far_targets(
                        from,
                        dirs,
                        max,
                        to_empty,
                        to_capture,
                        self.mover(),
                    )[i];
                    &&& self.quiet_step((t.0, self.moved(settled(before), from, t.0 as int)))
                    &&& (!to_capture ==> self.board.at(t.0 as int) is None)
                    &&& !is_king(self.board.at(t.0 as int))
                    &&& t.0 != from
                    &&& !self.board.owned_by(t.0 as int, self.mover())
                },
    {
        let targets = self.board.far_targets(from, dirs, max, to_empty, to_capture, self.mover());
        self.board.lemma_far_targets_members(from, dirs, max, to_empty, to_capture, self.mover());
        assert forall|i: int| 0 <= i < targets.len() implies {
            let t = #[trigger] targets[i];
            &&& self.quiet_step((t.0, self.moved(settled(before), from, t.0 as int)))
            &&& (!to_capture ==> self.board.at(t.0 as int) is None)
            &&& !is_king(self.board.at(t.0 as int))
            &&& t.0 != from
            &&& !self.board.owned_by(t.0 as int, self.mover())
        } by {
            let t = targets[i];
            assert(targets.contains(t));
            let (j, k) = choose|j: int, k: int|
                0 <= j < dirs.len() && 1 <= k <= max && #[trigger] self.board.is_target(
                    from,
                    dirs[j],
                    k,
                    to_empty,
                    to_capture,
                    self.mover(),
                    t,
                );
            if to_capture {
                assert(strike_geometry(before, self.mover(), dirs[j], k));
            }
            self.lemma_ray_move_good(before, from, dirs[j], k, to_empty, to_capture);
        }
    }
}

/// Every direction of a queen is straight or diagonal.
pub proof fn lemma_queen_dirs()
    ensures
        forall|j: int|
            0 <= j < 8 ==> {
                let d = #[trigger] STRAIGHT_AND_DIAGONAL@[j];
                (j < 4 ==> STRAIGHT@.contains(d)) && (j >= 4 ==> DIAGONAL@.contains(d))
            },
{
    assert forall|j: int| 0 <= j < 8 implies {
        let d = #[trigger] STRAIGHT_AND_DIAGONAL@[j];
        (j < 4 ==> STRAIGHT@.contains(d)) && (j >= 4 ==> DIAGONAL@.contains(d))
    } by {
        if j < 4 {
            assert(STRAIGHT@[j] == STRAIGHT_AND_DIAGONAL@[j]);
        } else {
            assert(DIAGONAL@[j - 4] == STRAIGHT_AND_DIAGONAL@[j]);
        }
    }
}

/// A piece attacks along every ray along which it can capture: the king
/// one step and the queen any number of steps in the eight directions, the
/// rook straight, the bishop diagonally, the knight at its leaps and the
/// pawn one step in its capture directions.
pub proof fn lemma_strike_geometry(piece: PieceType, mover: Player)
    ensures
        piece == PieceType::King || piece == PieceType::InitKing ==> forall|j: int, k: int|
            0 <= j < 8 && 1 <= k <= 1 ==> #[trigger] strike_geometry(
                piece,
                mover,
                STRAIGHT_AND_DIAGONAL@[j],
                k,
            ),
        piece == PieceType::Queen ==> forall|j: int, k: int|
            0 <= j < 8 && 1 <= k <= 7 ==> #[trigger] strike_geometry(
                piece,
                mover,
                STRAIGHT_AND_DIAGONAL@[j],
                k,
            ),
        piece == PieceType::Rook || piece == PieceType::InitRook ==> forall|j: int, k: int|
            0 <= j < 4 && 1 <= k <= 7 ==> #[trigger] strike_geometry(piece, mover, STRAIGHT@[j], k),
        piece == PieceType::Bishop ==> forall|j: int, k: int|
            0 <= j < 4 && 1 <= k <= 7 ==> #[trigger] strike_geometry(piece, mover, DIAGONAL@[j], k),
        piece == PieceType::Knight ==> forall|j: int, k: int|
            0 <= j < 8 && 1 <= k <= 1 ==> #[trigger] strike_geometry(piece, mover, KNIGHT@[j], k),
        piece == PieceType::Pawn || piece == PieceType::InitPawn ==> forall|j: int, k: int|
            0 <= j < 2 && 1 <= k <= 1 ==> #[trigger] strike_geometry(
                piece,
                mover,
                pawn_capture_dirs(mover)[j],
                k,
            ),
{
    lemma_queen_dirs();
    assert forall|j: int| 0 <= j < 4 implies STRAIGHT@.contains(#[trigger] STRAIGHT@[j]) by {}
    assert forall|j: int| 0 <= j < 4 implies DIAGONAL@.contains(#[trigger] DIAGONAL@[j]) by {}
    assert forall|j: int| 0 <= j < 8 implies KNIGHT@.contains(#[trigger] KNIGHT@[j]) by {}
    assert forall|j: int| 0 <= j < 2 implies pawn_capture_dirs(mover).contains(
        #[trigger] pawn_capture_dirs(mover)[j],
    ) by {}
}

impl GameState {
    /// The arrivals of a moved pawn are quiet steps where the plain moves to
    /// the same targets are.
    pub proof fn lemma_pawn_moves_good(self, from: int, targets: Seq<(usize, usize)>)
        requires
            self.sane(),
            forall|i: int|
                0 <= i < targets.len() ==> self.quiet_step(
                    ((#[trigger] targets[i]).0, self.moved(PieceType::Pawn, from, targets[i].0 as int)),
                ),
        ensures
            self.all_good(self.pawn_moves(from, targets)),
        decreases targets.len(),
    {
        if targets.len() > 0 {
            let front = targets.drop_last();
            assert forall|i: int| 0 <= i < front.len() implies self.quiet_step(
                ((#[trigger] front[i]).0, self.moved(PieceType::Pawn, from, front[i].0 as int)),
            ) by {
                assert(front[i] == targets[i]);
            }
            self.lemma_pawn_moves_good(from, front);
            let to = targets.last().0;
            let state = self.moved(PieceType::Pawn, from, to as int);
            assert(self.quiet_step((to, state)));
            let arrival = self.pawn_arrival(from, to);
            let mover = self.mover();
            state.lemma_with_square_sane(to as int, Some((PieceType::Queen, mover)));
            state.lemma_with_square_sane(to as int, Some((PieceType::Rook, mover)));
            state.lemma_with_square_sane(to as int, Some((PieceType::Bishop, mover)));
            state.lemma_with_square_sane(to as int, Some((PieceType::Knight, mover)));
            assert(self.all_good(arrival));
            let head = self.pawn_moves(from, front);
            let all = self.pawn_moves(from, targets);
            assert forall|i: int| 0 <= i < all.len() implies #[trigger] self.good_step(all[i]) by {
                if i < head.len() {
                    assert(all[i] == head[i]);
                } else {
                    assert(all[i] == arrival[i - head.len()]);
                }
            }
        }
    }

    /// The captures en passant are good steps.
    pub proof fn lemma_en_passant_moves_good(self, from: int, targets: Seq<(usize, usize)>)
        requires
            self.sane(),
            0 <= from < 64,
            self.ply < usize::MAX,
            self.en_passant_open(),
            self.board.at(from) == Some((PieceType::Pawn, self.mover())),
            forall|i: int|
                0 <= i < targets.len() ==> {
                    &&& self.quiet_step(
                        (
                            (#[trigger] targets[i]).0,
                            self.moved(PieceType::Pawn, from, targets[i].0 as int),
                        ),
                    )
                    &&& self.board.at(targets[i].0 as int) is None
                },
        ensures
            self.all_good(self.en_passant_moves(from, targets)),
        decreases targets.len(),
    {
        if targets.len() > 0 {
            let front = targets.drop_last();
            assert forall|i: int| 0 <= i < front.len() implies {
                &&& self.quiet_step(
                    ((#[trigger] front[i]).0, self.moved(PieceType::Pawn, from, front[i].0 as int)),
                )
                &&& self.board.at(front[i].0 as int) is None
            } by {
                assert(front[i] == targets[i]);
            }
            self.lemma_en_passant_moves_good(from, front);
            let to = targets.last().0;
            let head = self.en_passant_moves(from, front);
            let all = self.en_passant_moves(from, targets);
            if self.board.en_passant_field.skipped == to {
                let state = self.moved(PieceType::Pawn, from, to as int);
                assert(self.quiet_step((to, state)));
                let target = self.board.en_passant_field.target as int;
                assert(target != to && target != from);
                assert(state.board.at(target) == self.board.at(target));
                state.lemma_with_square_sane(target, None);
                assert(self.good_step((to, self.en_passant_capture(from, to as int))));
            }
            assert forall|i: int| 0 <= i < all.len() implies #[trigger] self.good_step(all[i]) by {
                if i < head.len() {
                    assert(all[i] == head[i]);
                }
            }
        }
    }

    /// The advances of an unmoved pawn are good steps.
    pub proof fn lemma_first_pawn_moves_good(self, from: int, targets: Seq<(usize, usize)>)
        requires
            self.sane(),
            0 <= from < 64,
            self.ply < usize::MAX,
            forall|i: int|
                0 <= i < targets.len() ==> self.quiet_step(
                    ((#[trigger] targets[i]).0, self.moved(PieceType::Pawn, from, targets[i].0 as int)),
                ),
        ensures
            self.all_good(self.first_pawn_moves(from, targets)),
    {
        let all = self.first_pawn_moves(from, targets);
        assert forall|i: int| 0 <= i < all.len() implies #[trigger] self.good_step(all[i]) by {
            let t = targets[i];
            let state = self.moved(PieceType::Pawn, from, t.0 as int);
            assert(self.quiet_step((t.0, state)));
            if i == 1 {
                let stepped = state.with_double_step(self.ply, ((from + t.0) / 2) as usize, t.0);
                assert(stepped.board.fields == state.board.fields);
                assert(forall|sq: int| stepped.board.at(sq) == state.board.at(sq));
                assert(forall|sq: int, p: Player|
                    stepped.board.is_king_of(sq, p) == state.board.is_king_of(sq, p));
                assert(stepped.board.one_king(Player::White));
                assert(stepped.board.one_king(Player::Black));
                assert(stepped.board.at(t.0 as int) == Some((PieceType::Pawn, self.mover())));
                assert(stepped.sane());
            }
        }
    }

    /// Castling is a good step.
    pub proof fn lemma_castled_good(self, from: int, queen_side: bool)
        requires
            self.wf(),
            0 <= from < 64,
            self.ply < usize::MAX,
            self.board.at(from) == Some((PieceType::InitKing, self.mover())),
            self.can_castle(from, queen_side),
        ensures
            self.good_step(
                (castle_square(from, queen_side, 2) as usize, self.castled(from, queen_side)),
            ),
    {
        let mover = self.mover();
        assert(from % 8 == 4);
        let rook = castle_square(from, queen_side, rook_distance(queen_side));
        let pass = castle_square(from, queen_side, 1);
        let land = castle_square(from, queen_side, 2);
        assert(self.board.at(pass) is None);
        assert(self.board.at(land) is None);
        self.lemma_moved_sane(PieceType::InitKing, from, land);
        let first = self.moved(PieceType::King, from, land);
        assert(first.board.at(rook) == self.board.at(rook));
        first.lemma_with_square_sane(rook, None);
        let second = first.with_square(rook, None);
        assert(second.board.at(pass) == self.board.at(pass));
        second.lemma_with_square_sane(pass, Some((PieceType::Rook, mover)));
    }

    /// Every move that the geometry of a piece allows from a well-formed
    /// position is a good step: it leads to a sane position one ply on.
    pub proof fn lemma_pseudo_legal_good(self, piece: PieceType, from: int)
        requires
            self.wf(),
            0 <= from < 64,
            self.ply < usize::MAX,
            self.board.at(from) == Some((piece, self.mover())),
        ensures
            self.all_good(self.pseudo_legal(piece, from)),
    {
        let mover = self.mover();
        let all = self.pseudo_legal(piece, from);
        lemma_strike_geometry(piece, mover);
        match piece {
            PieceType::InitKing | PieceType::King => {
                self.lemma_plain_moves_good(piece, from, STRAIGHT_AND_DIAGONAL@, 1, true, true);
                let plain = self.plain_moves(
                    PieceType::King,
                    from,
                    self.reach(from, STRAIGHT_AND_DIAGONAL@, 1),
                );
                let castling = self.castling_moves(piece, from);
                if piece == PieceType::InitKing && !self.board.under_attack(from, mover) {
                    if self.can_castle(from, true) {
                        self.lemma_castled_good(from, true);
                    }
                    if self.can_castle(from, false) {
                        self.lemma_castled_good(from, false);
                    }
                }
                assert(self.all_good(castling));
                assert forall|i: int| 0 <= i < all.len() implies #[trigger] self.good_step(
                    all[i],
                ) by {
                    if i < plain.len() {
                        assert(all[i] == plain[i]);
                    } else {
                        assert(all[i] == castling[i - plain.len()]);
                    }
                }
            },
            PieceType::Queen => {
                self.lemma_plain_moves_good(piece, from, STRAIGHT_AND_DIAGONAL@, 7, true, true);
            },
            PieceType::InitRook | PieceType::Rook => {
                self.lemma_plain_moves_good(piece, from, STRAIGHT@, 7, true, true);
            },
            PieceType::Bishop => {
                self.lemma_plain_moves_good(piece, from, DIAGONAL@, 7, true, true);
            },
            PieceType::Knight => {
                self.lemma_plain_moves_good(piece, from, KNIGHT@, 1, true, true);
            },
            PieceType::InitPawn => {
                let advance_dirs = pawn_move_dirs(mover);
                let capture_dirs = pawn_capture_dirs(mover);
                self.lemma_plain_moves_good(piece, from, advance_dirs, 2, true, false);
                self.lemma_plain_moves_good(piece, from, capture_dirs, 1, false, true);
                let advances = self.board.far_targets(from, advance_dirs, 2, true, false, mover);
                let captures = self.board.far_targets(from, capture_dirs, 1, false, true, mover);
                self.lemma_first_pawn_moves_good(from, advances);
                let first = self.first_pawn_moves(from, advances);
                let second = self.plain_moves(PieceType::Pawn, from, captures);
                assert forall|i: int| 0 <= i < all.len() implies #[trigger] self.good_step(
                    all[i],
                ) by {
                    if i < first.len() {
                        assert(all[i] == first[i]);
                    } else {
                        assert(all[i] == second[i - first.len()]);
                        assert(self.quiet_step(
                            (
                                captures[i - first.len()].0,
                                self.moved(
                                    PieceType::Pawn,
                                    from,
                                    captures[i - first.len()].0 as int,
                                ),
                            ),
                        ));
                    }
                }
            },
            PieceType::Pawn => {
                let advance_dirs = pawn_move_dirs(mover);
                let capture_dirs = pawn_capture_dirs(mover);
                self.lemma_plain_moves_good(piece, from, advance_dirs, 1, true, false);
                self.lemma_plain_moves_good(piece, from, capture_dirs, 1, false, true);
                self.lemma_plain_moves_good(piece, from, capture_dirs, 1, true, false);
                let advances = self.board.far_targets(from, advance_dirs, 1, true, false, mover);
                let captures = self.board.far_targets(from, capture_dirs, 1, false, true, mover);
                let passed = self.board.far_targets(from, capture_dirs, 1, true, false, mover);
                self.lemma_pawn_moves_good(from, advances);
                self.lemma_pawn_moves_good(from, captures);
                let first = self.pawn_moves(from, advances);
                let second = self.pawn_moves(from, captures);
                let third = if self.en_passant_open() {
                    self.en_passant_moves(from, passed)
                } else {
                    Seq::empty()
                };
                if self.en_passant_open() {
                    assert forall|i: int| 0 <= i < passed.len() implies {
                        &&& self.quiet_step(
                            (
                                (#[trigger] passed[i]).0,
                                self.moved(PieceType::Pawn, from, passed[i].0 as int),
                            ),
                        )
                        &&& self.board.at(passed[i].0 as int) is None
                    } by {}
                    self.lemma_en_passant_moves_good(from, passed);
                }
                assert forall|i: int| 0 <= i < all.len() implies #[trigger] self.good_step(
                    all[i],
                ) by {
                    if i < first.len() {
                        assert(all[i] == first[i]);
                    } else if i < first.len() + second.len() {
                        assert(all[i] == second[i - first.len()]);
                    } else {
                        assert(all[i] == third[i - first.len() - second.len()]);
                    }
                }
            },
        }
    }
}

impl BoardState {
    /// At the start of a game nothing bears on Black's king along a ray
    /// that leaves the board, or that meets a black piece first, or that is
    /// a leap onto the empty middle of the board.
    proof fn lemma_initial_no_threat(self, d: Direction, k: int, kind: AttackKind)
        requires
            self.is_initial(),
            1 <= k,
            d.0 >= 1 || (-1 <= d.0 <= 0 && -2 <= d.1 <= 2 && d != (0isize, 0isize)) || (d.0 == -2
                && k == 1 && -1 <= d.1 <= 1),
        ensures
            !self.threat_at(60, d, k, Player::Black, kind),
    {
        let d0 = d.0 as int;
        let d1 = d.1 as int;
        if d.0 >= 1 {
            assert(7 + d0 * k >= 8) by (nonlinear_arith)
                requires
                    d0 >= 1,
                    k >= 1,
            ;
        } else if d.0 == -2 {
            assert(step_square(60, d, 1) == 44 + d1);
            assert(self.at(44 + d1) == crate::board::initial_piece(44 + d1));
        } else {
            assert(d0 * 1 == d0 && d1 * 1 == d1);
            let first = step_square(60, d, 1);
            assert(first == (7 + d0) * 8 + 4 + d1);
            assert(self.at(first) == crate::board::initial_piece(first));
            assert(self.at(first) matches Some((_, p)) && p == Player::Black);
            if k > 1 && self.clear_path(60, d, k) {
                assert(self.step_empty(60, d, 1));
            }
        }
    }

    /// At the start of a game each side has one king, on its home square.
    pub proof fn lemma_initial_kings(self)
        requires
            self.is_initial(),
        ensures
            self.one_king(Player::White),
            self.one_king(Player::Black),
            self.king_pos(Player::White) == 4,
            self.king_pos(Player::Black) == 60,
            self.wf(),
    {
        assert forall|sq: int| 0 <= sq < 64 implies (#[trigger] self.is_king_of(sq, Player::White)
            <==> sq == 4) by {
            assert(self.at(sq) == crate::board::initial_piece(sq));
        }
        assert forall|sq: int| 0 <= sq < 64 implies (#[trigger] self.is_king_of(sq, Player::Black)
            <==> sq == 60) by {
            assert(self.at(sq) == crate::board::initial_piece(sq));
        }
        assert(self.is_king_of(4, Player::White));
        assert(self.is_king_of(60, Player::Black));
        assert(self.first_king(4, Player::White));
        assert(self.first_king(60, Player::Black));
        self.lemma_first_king_is_king_pos(4, Player::White);
        self.lemma_first_king_is_king_pos(60, Player::Black);
        assert forall|sq: int|
            0 <= sq < 64 && (#[trigger] self.at(sq) matches Some(
                (PieceType::InitKing, _),
            )) implies sq % 8 == 4 by {
            assert(self.at(sq) == crate::board::initial_piece(sq));
        }
    }

    /// At the start of a game Black's king is not attacked.
    pub proof fn lemma_initial_black_safe(self)
        requires
            self.is_initial(),
        ensures
            !self.under_attack(60, Player::Black),
    {
        let who = Player::Black;
        assert forall|i: int, k: int| 0 <= i < 4 && 1 <= k <= 7 implies !#[trigger] self.threat_at(
            60,
            STRAIGHT@[i],
            k,
            who,
            AttackKind::Straight,
        ) by {
            self.lemma_initial_no_threat(STRAIGHT@[i], k, AttackKind::Straight);
        }
        assert forall|i: int, k: int| 0 <= i < 4 && 1 <= k <= 7 implies !#[trigger] self.threat_at(
            60,
            DIAGONAL@[i],
            k,
            who,
            AttackKind::Diagonal,
        ) by {
            self.lemma_initial_no_threat(DIAGONAL@[i], k, AttackKind::Diagonal);
        }
        assert forall|i: int, k: int| 0 <= i < 8 && 1 <= k <= 1 implies !#[trigger] self.threat_at(
            60,
            KNIGHT@[i],
            k,
            who,
            AttackKind::Knight,
        ) by {
            self.lemma_initial_no_threat(KNIGHT@[i], k, AttackKind::Knight);
        }
        assert forall|i: int, k: int| 0 <= i < 2 && 1 <= k <= 1 implies !#[trigger] self.threat_at(
            60,
            pawn_capture_dirs(who)[i],
            k,
            who,
            AttackKind::Pawn,
        ) by {
            self.lemma_initial_no_threat(pawn_capture_dirs(who)[i], k, AttackKind::Pawn);
        }
    }
}

impl GameState {
    /// Whether this is the start of a game: the pieces on their home
    /// squares, White to move, nothing played.
    pub open spec fn is_start(self) -> bool {
        &&& self.board.is_initial()
        &&& self.ply == 0
        &&& self.fifty_move_rule_last_event == 0
    }

    /// The start of a game is well formed.
    pub proof fn lemma_start_wf(self)
        requires
            self.is_start(),
        ensures
            self.wf(),
    {
        self.board.lemma_initial_kings();
        self.board.lemma_initial_black_safe();
    }

    /// The start of a game.
    pub fn new() -> (r: GameState)
        ensures
            r.is_start(),
            r.wf(),
    {
        let r = GameState { ply: 0, fifty_move_rule_last_event: 0, board: BoardState::new() };
        proof {
            r.lemma_start_wf();
        }
        r
    }
}

impl BoardState {
    /// The square of the king of `player` if the side has exactly one
    /// king, and nothing if it has none or several.
    pub fn only_king(&self, player: Player) -> (r: Option<usize>)
        ensures
            r is Some <==> self.one_king(player),
            r matches Some(pos) ==> pos == self.king_pos(player) && pos < 64,
    {
        let mut pos: usize = 0;
        let mut found: Option<usize> = None;
        while pos < 64
            invariant
                pos <= 64,
                found matches Some(k) ==> k < pos && self.is_king_of(k as int, player) && forall|
                    j: int,
                |
                    0 <= j < pos && j != k ==> !#[trigger] self.is_king_of(j, player),
                found is None ==> forall|j: int|
                    0 <= j < pos ==> !#[trigger] self.is_king_of(j, player),
            decreases 64 - pos,
        {
            let king_here = match self.fields[pos] {
                Some((PieceType::King, p)) => p == player,
                Some((PieceType::InitKing, p)) => p == player,
                _ => false,
            };
            if king_here {
                if found.is_some() {
                    proof {
                        let k = found->0 as int;
                        assert(self.is_king_of(k, player) && self.is_king_of(pos as int, player));
                    }
                    return None;
                }
                found = Some(pos);
            }
            pos = pos + 1;
        }
        proof {
            match found {
                Some(k) => {
                    assert(self.first_king(k as int, player));
                    self.lemma_first_king_is_king_pos(k as int, player);
                    assert(self.one_king(player)) by {
                        assert forall|a: int, b: int|
                            0 <= a < 64 && 0 <= b < 64 && #[trigger] self.is_king_of(a, player)
                                && #[trigger] self.is_king_of(b, player) implies a == b by {
                            assert(a == k && b == k);
                        }
                    }
                },
                None => {},
            }
        }
        found
    }

    /// Whether the board is well formed.
    pub fn is_well_formed(&self) -> (r: bool)
        ensures
            r == self.wf(),
    {
        if self.en_passant_field.skipped < 64 && self.en_passant_field.target >= 64 {
            return false;
        }
        let mut pos: usize = 0;
        while pos < 64
            invariant
                pos <= 64,
                forall|sq: int|
                    0 <= sq < pos && (#[trigger] self.at(sq) matches Some(
                        (PieceType::InitKing, _),
                    )) ==> sq % 8 == 4,
            decreases 64 - pos,
        {
            match self.fields[pos] {
                Some((PieceType::InitKing, _)) => {
                    if pos % 8 != 4 {
                        assert(self.at(pos as int) matches Some((PieceType::InitKing, _)));
                        return false;
                    }
                },
                _ => {},
            }
            pos = pos + 1;
        }
        true
    }
}

impl GameState {
    /// Whether the position is well formed.
    pub fn is_well_formed(&self) -> (r: bool)
        ensures
            r == self.wf(),
    {
        if !self.board.is_well_formed() {
            return false;
        }
        if self.fifty_move_rule_last_event > self.ply {
            return false;
        }
        if self.board.only_king(Player::White).is_none() {
            return false;
        }
        if self.board.only_king(Player::Black).is_none() {
            return false;
        }
        let other = self.turn().opponent();
        let double_step = self.board.en_passant_field;
        if double_step.skipped < 64 {
            if double_step.ply >= self.ply {
                return false;
            }
            if self.ply - double_step.ply == 1 {
                let pawn_there = match self.board.fields[double_step.target] {
                    Some((PieceType::Pawn, p)) => p == other,
                    _ => false,
                };
                if !pawn_there {
                    return false;
                }
            }
        }
        !self.board.king_in_check(other)
    }
}

} // verus!
