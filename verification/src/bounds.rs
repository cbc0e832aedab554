//! How many moves a position has at most, and how many positions a search
//! looks at at most.
//!
//! The bounds are coarse; they serve to show that the count of positions
//! fits the counter for the depths that are searched in practice: up to
//! depth 5 from any position, and up to depth 6 from a position in which
//! each side has at most 16 pieces, as it has throughout a game played from
//! the start, since no move adds a piece.

use vstd::prelude::*;
use crate::game::{BoardState, GameState, PieceType, Player};
use crate::geometry::{
    pawn_capture_dirs, pawn_move_dirs, Direction, DIAGONAL, KNIGHT, STRAIGHT,
    STRAIGHT_AND_DIAGONAL,
};
use crate::moves::{castle_square, rook_distance};
use crate::position::lemma_strike_geometry;
use crate::legal::king_safe;
use crate::minimax::{flat, minimax_fold, minimax_spec, settled_value, tree_nodes};

verus! {

/// No piece has more moves than this: a queen with eight free rays.
pub open spec fn max_piece_moves() -> nat {
    56
}

/// No position has more legal moves than this.
pub open spec fn max_moves() -> nat {
    3584
}

/// No search to `depth` looks at more positions than this.
pub open spec fn node_bound(depth: nat) -> nat
    decreases depth,
{
    if depth == 0 {
        1
    } else {
        1 + max_moves() * node_bound((depth - 1) as nat)
    }
}

impl BoardState {
    /// A ray has at most one target for each step.
    pub proof fn lemma_ray_targets_len(
        self,
        pos: int,
        d: Direction,
        max: int,
        to_empty: bool,
        to_capture: bool,
        mover: Player,
    )
        requires
            0 <= max,
        ensures
            self.ray_targets(pos, d, max, to_empty, to_capture, mover).len() <= max,
        decreases max,
    {
        if max > 0 {
            self.lemma_ray_targets_len(pos, d, max - 1, to_empty, to_capture, mover);
        }
    }

    /// Rays have at most one target for each direction and step.
    pub proof fn lemma_far_targets_len(
        self,
        pos: int,
        dirs: Seq<Direction>,
        max: int,
        to_empty: bool,
        to_capture: bool,
        mover: Player,
    )
        requires
            0 <= max,
        ensures
            self.far_targets(pos, dirs, max, to_empty, to_capture, mover).len() <= dirs.len() * max,
        decreases dirs.len(),
    {
        if dirs.len() > 0 {
            self.lemma_far_targets_len(pos, dirs.drop_last(), max, to_empty, to_capture, mover);
            self.lemma_ray_targets_len(pos, dirs.last(), max, to_empty, to_capture, mover);
            assert((dirs.len() - 1) * max + max == dirs.len() * max) by (nonlinear_arith);
        } else {
            assert(dirs.len() * max == 0) by (nonlinear_arith)
                requires
                    dirs.len() == 0,
            ;
        }
    }

    /// There are no more pieces than squares.
    pub proof fn lemma_pieces_with_pos_len(self, player: Player, n: int)
        requires
            0 <= n,
        ensures
            self.pieces_with_pos_below(player, n).len() <= n,
        decreases n,
    {
        if n > 0 {
            self.lemma_pieces_with_pos_len(player, n - 1);
        }
    }
}

impl GameState {
    /// A moved pawn has at most four arrivals for each target.
    pub proof fn lemma_pawn_moves_len(self, from: int, targets: Seq<(usize, usize)>)
        ensures
            self.pawn_moves(from, targets).len() <= 4 * targets.len(),
        decreases targets.len(),
    {
        if targets.len() > 0 {
            self.lemma_pawn_moves_len(from, targets.drop_last());
        }
    }

    /// There is at most one capture en passant for each target.
    pub proof fn lemma_en_passant_moves_len(self, from: int, targets: Seq<(usize, usize)>)
        ensures
            self.en_passant_moves(from, targets).len() <= targets.len(),
        decreases targets.len(),
    {
        if targets.len() > 0 {
            self.lemma_en_passant_moves_len(from, targets.drop_last());
        }
    }

    /// No piece has more than 56 moves.
    pub proof fn lemma_pseudo_legal_len(self, piece: PieceType, from: int)
        ensures
            self.pseudo_legal(piece, from).len() <= max_piece_moves(),
    {
        let mover = self.mover();
        let b = self.board;
        b.lemma_far_targets_len(from, STRAIGHT_AND_DIAGONAL@, 1, true, true, mover);
        b.lemma_far_targets_len(from, STRAIGHT_AND_DIAGONAL@, 7, true, true, mover);
        b.lemma_far_targets_len(from, STRAIGHT@, 7, true, true, mover);
        b.lemma_far_targets_len(from, DIAGONAL@, 7, true, true, mover);
        b.lemma_far_targets_len(from, KNIGHT@, 1, true, true, mover);
        b.lemma_far_targets_len(from, pawn_move_dirs(mover), 2, true, false, mover);
        b.lemma_far_targets_len(from, pawn_move_dirs(mover), 1, true, false, mover);
        b.lemma_far_targets_len(from, pawn_capture_dirs(mover), 1, false, true, mover);
        b.lemma_far_targets_len(from, pawn_capture_dirs(mover), 1, true, false, mover);
        self.lemma_pawn_moves_len(
            from,
            b.far_targets(from, pawn_move_dirs(mover), 1, true, false, mover),
        );
        self.lemma_pawn_moves_len(
            from,
            b.far_targets(from, pawn_capture_dirs(mover), 1, false, true, mover),
        );
        self.lemma_en_passant_moves_len(
            from,
            b.far_targets(from, pawn_capture_dirs(mover), 1, true, false, mover),
        );
        assert(pawn_move_dirs(mover).len() == 1);
        assert(pawn_capture_dirs(mover).len() == 2);
    }

    /// The listed pieces have at most 56 legal moves each.
    pub proof fn lemma_legal_moves_of_len(self, pieces: Seq<(PieceType, usize)>)
        ensures
            self.legal_moves_of(pieces).len() <= max_piece_moves() * pieces.len(),
        decreases pieces.len(),
    {
        if pieces.len() > 0 {
            self.lemma_legal_moves_of_len(pieces.drop_last());
            let e = pieces.last();
            self.lemma_pseudo_legal_len(e.0, e.1 as int);
            self.pseudo_legal(e.0, e.1 as int).lemma_filter_len(king_safe(self.mover()));
        }
    }

    /// No position has more than 3584 legal moves.
    pub proof fn lemma_legal_moves_len(self)
        ensures
            self.legal_moves().len() <= max_moves(),
    {
        let pieces = self.board.pieces_with_pos_below(self.mover(), 64);
        self.board.lemma_pieces_with_pos_len(self.mover(), 64);
        self.lemma_legal_moves_of_len(pieces);
    }
}

/// A minimax search over children looks at no more positions than the
/// bound allows for each child, and one more.
pub proof fn lemma_minimax_fold_bound(
    h: spec_fn(GameState) -> i32,
    g: GameState,
    depth: nat,
    children: Seq<GameState>,
)
    requires
        depth > 0,
    ensures
        minimax_fold(h, g, depth, children).nodes <= 1 + children.len() * node_bound(
            (depth - 1) as nat,
        ),
    decreases depth, 0nat, children.len(),
{
    let nb = node_bound((depth - 1) as nat);
    if children.len() > 0 {
        lemma_minimax_fold_bound(h, g, depth, children.drop_last());
        lemma_minimax_bound(h, children.last(), (depth - 1) as nat);
        assert((children.len() - 1) * nb + nb == children.len() * nb) by (nonlinear_arith);
    }
}

/// A minimax search to `depth` looks at no more than `node_bound(depth)`
/// positions.
pub proof fn lemma_minimax_bound(h: spec_fn(GameState) -> i32, g: GameState, depth: nat)
    ensures
        minimax_spec(h, g, depth).nodes <= node_bound(depth),
    decreases depth, 1nat, 0nat,
{
    if settled_value(h, g, depth) is None {
        let children = g.legal_moves();
        let nb = node_bound((depth - 1) as nat);
        lemma_minimax_fold_bound(h, g, depth, children);
        g.lemma_legal_moves_len();
        assert(children.len() * nb <= max_moves() * nb) by (nonlinear_arith)
            requires
                children.len() <= max_moves(),
                0 <= nb,
        ;
    }
}

/// Up to depth 5 the bound fits a 64-bit counter.
pub proof fn lemma_node_bound_fits(depth: nat)
    requires
        depth <= 5,
    ensures
        node_bound(depth) <= u64::MAX,
{
    reveal_with_fuel(node_bound, 7);
    assert(node_bound(0) == 1);
    assert(node_bound(1) == 3585);
    assert(node_bound(2) == 12848641);
    assert(node_bound(3) == 46049529345);
    assert(node_bound(4) == 165041513172481);
    assert(node_bound(5) == 591508783210171905);
}

/// Up to depth 5 a search counts its positions without overflow.
pub proof fn lemma_tree_fits(g: GameState, depth: nat)
    requires
        depth <= 5,
    ensures
        tree_nodes(g, depth) <= u64::MAX,
{
    lemma_node_bound_fits(depth);
    lemma_minimax_bound(flat(), g, depth);
}

/// No position in which each side has at most 16 pieces has more legal
/// moves than this.
pub open spec fn max_moves_of_16() -> nat {
    896
}

/// No search to `depth` from a position in which each side has at most 16
/// pieces looks at more positions than this.
pub open spec fn node_bound_of_16(depth: nat) -> nat
    decreases depth,
{
    if depth == 0 {
        1
    } else {
        1 + max_moves_of_16() * node_bound_of_16((depth - 1) as nat)
    }
}

/// Boards with the same squares have the same counts of pieces.
proof fn lemma_owned_same(a: BoardState, b: BoardState, player: Player, n: int)
    requires
        a.fields == b.fields,
    ensures
        a.owned_below(player, n) == b.owned_below(player, n),
    decreases n,
{
    if n > 0 {
        lemma_owned_same(a, b, player, n - 1);
    }
}

impl GameState {
    /// Whether each side has at most 16 pieces, as in every game played
    /// from the start.
    pub open spec fn few_pieces(self) -> bool {
        &&& self.board.owned_below(Player::White, 64) <= 16
        &&& self.board.owned_below(Player::Black, 64) <= 16
    }

    /// Whether neither side has more pieces in `next` than here.
    pub open spec fn no_piece_added(self, next: GameState) -> bool {
        &&& next.board.owned_below(Player::White, 64) <= self.board.owned_below(Player::White, 64)
        &&& next.board.owned_below(Player::Black, 64) <= self.board.owned_below(Player::Black, 64)
    }

    /// A piece of the mover that goes to a square that holds none of the
    /// mover's pieces adds no piece; and neither does it to put, afterwards,
    /// a piece of the mover on the square where it landed, or to clear a
    /// square.
    proof fn lemma_moved_adds_no_piece(self, piece: PieceType, from: int, to: int)
        requires
            0 <= from < 64,
            0 <= to < 64,
            from != to,
            self.board.owned_by(from, self.mover()),
            !self.board.owned_by(to, self.mover()),
        ensures
            self.no_piece_added(self.moved(piece, from, to)),
            forall|kind: PieceType|
                self.no_piece_added(
                    #[trigger] self.moved(piece, from, to).with_square(
                        to,
                        Some((kind, self.mover())),
                    ),
                ),
            forall|sq: int|
                0 <= sq < 64 ==> self.no_piece_added(
                    #[trigger] self.moved(piece, from, to).with_square(sq, None),
                ),
    {
        let mover = self.mover();
        let cleared = self.board.put(from, None);
        let next = self.moved(piece, from, to);
        self.board.lemma_owned_put(from, None, Player::White, 64);
        self.board.lemma_owned_put(from, None, Player::Black, 64);
        cleared.lemma_owned_put(to, Some((piece, mover)), Player::White, 64);
        cleared.lemma_owned_put(to, Some((piece, mover)), Player::Black, 64);
        assert(cleared.at(to) == self.board.at(to));
        assert forall|kind: PieceType|
            self.no_piece_added(#[trigger] next.with_square(to, Some((kind, mover)))) by {
            next.board.lemma_owned_put(to, Some((kind, mover)), Player::White, 64);
            next.board.lemma_owned_put(to, Some((kind, mover)), Player::Black, 64);
        }
        assert forall|sq: int| 0 <= sq < 64 implies self.no_piece_added(
            #[trigger] next.with_square(sq, None),
        ) by {
            next.board.lemma_owned_put(sq, None, Player::White, 64);
            next.board.lemma_owned_put(sq, None, Player::Black, 64);
        }
    }

    /// Castling adds no piece.
    proof fn lemma_castled_adds_no_piece(self, from: int, queen_side: bool)
        requires
            0 <= from < 64,
            from % 8 == 4,
            self.board.owned_by(from, self.mover()),
            self.can_castle(from, queen_side),
        ensures
            self.no_piece_added(self.castled(from, queen_side)),
    {
        let mover = self.mover();
        let rook = castle_square(from, queen_side, rook_distance(queen_side));
        let pass = castle_square(from, queen_side, 1);
        let land = castle_square(from, queen_side, 2);
        assert(self.board.at(pass) is None);
        assert(self.board.at(land) is None);
        let first = self.moved(PieceType::King, from, land);
        let cleared = self.board.put(from, None);
        self.board.lemma_owned_put(from, None, Player::White, 64);
        self.board.lemma_owned_put(from, None, Player::Black, 64);
        cleared.lemma_owned_put(land, Some((PieceType::King, mover)), Player::White, 64);
        cleared.lemma_owned_put(land, Some((PieceType::King, mover)), Player::Black, 64);
        assert(first.board.at(rook) == self.board.at(rook));
        first.board.lemma_owned_put(rook, None, Player::White, 64);
        first.board.lemma_owned_put(rook, None, Player::Black, 64);
        let second = first.with_square(rook, None);
        assert(second.board.at(pass) is None);
        second.board.lemma_owned_put(pass, Some((PieceType::Rook, mover)), Player::White, 64);
        second.board.lemma_owned_put(pass, Some((PieceType::Rook, mover)), Player::Black, 64);
    }

    /// The arrivals of a pawn add no piece.
    proof fn lemma_pawn_moves_add_no_piece(self, from: int, targets: Seq<(usize, usize)>, i: int)
        requires
            0 <= from < 64,
            self.board.owned_by(from, self.mover()),
            forall|n: int|
                0 <= n < targets.len() ==> (#[trigger] targets[n]).0 < 64 && targets[n].0 != from
                    && !self.board.owned_by(targets[n].0 as int, self.mover()),
            0 <= i < self.pawn_moves(from, targets).len(),
        ensures
            self.no_piece_added(self.pawn_moves(from, targets)[i].1),
        decreases targets.len(),
    {
        let front = targets.drop_last();
        let head = self.pawn_moves(from, front);
        if i < head.len() {
            assert forall|n: int| 0 <= n < front.len() implies (#[trigger] front[n]).0 < 64
                && front[n].0 != from && !self.board.owned_by(
                front[n].0 as int,
                self.mover(),
            ) by {
                assert(front[n] == targets[n]);
            }
            self.lemma_pawn_moves_add_no_piece(from, front, i);
        } else {
            let to = targets.last().0;
            assert(targets[targets.len() - 1].0 == to);
            self.lemma_moved_adds_no_piece(PieceType::Pawn, from, to as int);
        }
    }

    /// The captures en passant add no piece.
    proof fn lemma_en_passant_moves_add_no_piece(
        self,
        from: int,
        targets: Seq<(usize, usize)>,
        i: int,
    )
        requires
            0 <= from < 64,
            self.board.wf(),
            self.board.owned_by(from, self.mover()),
            forall|n: int|
                0 <= n < targets.len() ==> (#[trigger] targets[n]).0 < 64 && targets[n].0 != from
                    && !self.board.owned_by(targets[n].0 as int, self.mover()),
            0 <= i < self.en_passant_moves(from, targets).len(),
        ensures
            self.no_piece_added(self.en_passant_moves(from, targets)[i].1),
        decreases targets.len(),
    {
        let front = targets.drop_last();
        let head = self.en_passant_moves(from, front);
        if i < head.len() {
            assert forall|n: int| 0 <= n < front.len() implies (#[trigger] front[n]).0 < 64
                && front[n].0 != from && !self.board.owned_by(
                front[n].0 as int,
                self.mover(),
            ) by {
                assert(front[n] == targets[n]);
            }
            self.lemma_en_passant_moves_add_no_piece(from, front, i);
        } else {
            let to = targets.last().0;
            assert(targets[targets.len() - 1].0 == to);
            self.lemma_moved_adds_no_piece(PieceType::Pawn, from, to as int);
        }
    }

    /// No move adds a piece: after a move that the geometry of a piece
    /// allows, neither side has more pieces than before.
    pub proof fn lemma_pseudo_legal_adds_no_piece(self, piece: PieceType, from: int, i: int)
        requires
            self.wf(),
            0 <= from < 64,
            self.ply < usize::MAX,
            self.board.at(from) == Some((piece, self.mover())),
            0 <= i < self.pseudo_legal(piece, from).len(),
        ensures
            self.no_piece_added(self.pseudo_legal(piece, from)[i].1),
    {
        let mover = self.mover();
        let all = self.pseudo_legal(piece, from);
        lemma_strike_geometry(piece, mover);
        match piece {
            PieceType::InitKing | PieceType::King => {
                self.lemma_plain_moves_good(piece, from, STRAIGHT_AND_DIAGONAL@, 1, true, true);
                let targets = self.reach(from, STRAIGHT_AND_DIAGONAL@, 1);
                let plain = self.plain_moves(PieceType::King, from, targets);
                if i < plain.len() {
                    assert(all[i] == plain[i]);
                    let t = targets[i];
                    self.lemma_moved_adds_no_piece(PieceType::King, from, t.0 as int);
                } else {
                    let special = self.castling_moves(piece, from);
                    assert(all[i] == special[i - plain.len()]);
                    assert(from % 8 == 4);
                    let queen_side = all[i].0 == castle_square(from, true, 2);
                    assert(self.can_castle(from, queen_side));
                    assert(all[i].1 == self.castled(from, queen_side));
                    self.lemma_castled_adds_no_piece(from, queen_side);
                }
            },
            PieceType::Queen => {
                self.lemma_plain_moves_good(piece, from, STRAIGHT_AND_DIAGONAL@, 7, true, true);
                let t = self.reach(from, STRAIGHT_AND_DIAGONAL@, 7)[i];
                assert(all[i].1 == self.moved(PieceType::Queen, from, t.0 as int));
                self.lemma_moved_adds_no_piece(PieceType::Queen, from, t.0 as int);
            },
            PieceType::InitRook | PieceType::Rook => {
                self.lemma_plain_moves_good(piece, from, STRAIGHT@, 7, true, true);
                let t = self.reach(from, STRAIGHT@, 7)[i];
                assert(all[i].1 == self.moved(PieceType::Rook, from, t.0 as int));
                self.lemma_moved_adds_no_piece(PieceType::Rook, from, t.0 as int);
            },
            PieceType::Bishop => {
                self.lemma_plain_moves_good(piece, from, DIAGONAL@, 7, true, true);
                let t = self.reach(from, DIAGONAL@, 7)[i];
                assert(all[i].1 == self.moved(PieceType::Bishop, from, t.0 as int));
                self.lemma_moved_adds_no_piece(PieceType::Bishop, from, t.0 as int);
            },
            PieceType::Knight => {
                self.lemma_plain_moves_good(piece, from, KNIGHT@, 1, true, true);
                let t = self.reach(from, KNIGHT@, 1)[i];
                assert(all[i].1 == self.moved(PieceType::Knight, from, t.0 as int));
                self.lemma_moved_adds_no_piece(PieceType::Knight, from, t.0 as int);
            },
            PieceType::InitPawn => {
                let advance_dirs = pawn_move_dirs(mover);
                let capture_dirs = pawn_capture_dirs(mover);
                self.lemma_plain_moves_good(piece, from, advance_dirs, 2, true, false);
                self.lemma_plain_moves_good(piece, from, capture_dirs, 1, false, true);
                let advances = self.board.far_targets(from, advance_dirs, 2, true, false, mover);
                let captures = self.board.far_targets(from, capture_dirs, 1, false, true, mover);
                let first = self.first_pawn_moves(from, advances);
                let second = self.plain_moves(PieceType::Pawn, from, captures);
                if i < first.len() {
                    assert(all[i] == first[i]);
                    let t = advances[i];
                    self.lemma_moved_adds_no_piece(PieceType::Pawn, from, t.0 as int);
                    let plain = self.moved(PieceType::Pawn, from, t.0 as int);
                    if i == 1 {
                        let stepped = plain.with_double_step(
                            self.ply,
                            ((from + t.0) / 2) as usize,
                            t.0,
                        );
                        assert(all[i].1 == stepped);
                        assert(stepped.board.fields == plain.board.fields);
                        assert(stepped.board.owned_below(Player::White, 64)
                            == plain.board.owned_below(Player::White, 64)) by {
                            lemma_owned_same(stepped.board, plain.board, Player::White, 64);
                        }
                        assert(stepped.board.owned_below(Player::Black, 64)
                            == plain.board.owned_below(Player::Black, 64)) by {
                            lemma_owned_same(stepped.board, plain.board, Player::Black, 64);
                        }
                    } else {
                        assert(all[i].1 == plain);
                    }
                } else {
                    assert(all[i] == second[i - first.len()]);
                    let t = captures[i - first.len()];
                    assert(all[i].1 == self.moved(PieceType::Pawn, from, t.0 as int));
                    self.lemma_moved_adds_no_piece(PieceType::Pawn, from, t.0 as int);
                }
            },
            PieceType::Pawn => {
                let advance_dirs = pawn_move_dirs(mover);
                let capture_dirs = pawn_capture_dirs(mover);
                self.lemma_plain_moves_good(piece, from, advance_dirs, 1, true, false);
                self.lemma_plain_moves_good(piece, from, capture_dirs, 1, false, true);
                self.lemma_plain_moves_good(piece, from, capture_dirs, 1, true, false);
                let advances = self.board.far_targets(from, advance_dirs, 1, true, false, mover);
                let captures = self.board.far_targets(from, capture_dirs, 1, false, true, mover);
                let passed = self.board.far_targets(from, capture_dirs, 1, true, false, mover);
                let first = self.pawn_moves(from, advances);
                let second = self.pawn_moves(from, captures);
                if i < first.len() {
                    assert(all[i] == first[i]);
                    self.lemma_pawn_moves_add_no_piece(from, advances, i);
                } else if i < first.len() + second.len() {
                    assert(all[i] == second[i - first.len()]);
                    self.lemma_pawn_moves_add_no_piece(from, captures, i - first.len());
                } else {
                    let third = self.en_passant_moves(from, passed);
                    assert(all[i] == third[i - first.len() - second.len()]);
                    self.lemma_en_passant_moves_add_no_piece(
                        from,
                        passed,
                        i - first.len() - second.len(),
                    );
                }
            },
        }
    }

    /// The legal moves of the listed pieces add no piece.
    proof fn lemma_legal_moves_of_add_no_piece(self, pieces: Seq<(PieceType, usize)>, i: int)
        requires
            self.wf(),
            self.ply < usize::MAX,
            forall|n: int|
                0 <= n < pieces.len() ==> {
                    let e = #[trigger] pieces[n];
                    e.1 < 64 && self.board.at(e.1 as int) == Some((e.0, self.mover()))
                },
            0 <= i < self.legal_moves_of(pieces).len(),
        ensures
            self.no_piece_added(self.legal_moves_of(pieces)[i]),
        decreases pieces.len(),
    {
        let front = pieces.drop_last();
        let head = self.legal_moves_of(front);
        if i < head.len() {
            assert forall|n: int| 0 <= n < front.len() implies {
                let e = #[trigger] front[n];
                e.1 < 64 && self.board.at(e.1 as int) == Some((e.0, self.mover()))
            } by {
                assert(front[n] == pieces[n]);
            }
            self.lemma_legal_moves_of_add_no_piece(front, i);
        } else {
            let e = pieces.last();
            assert(e == pieces[pieces.len() - 1]);
            let all = self.pseudo_legal(e.0, e.1 as int);
            let kept = self.legal_for_piece(e.0, e.1 as int);
            crate::legal::lemma_filter_from(all, king_safe(self.mover()));
            let m = kept[i - head.len()];
            assert(self.legal_moves_of(pieces)[i] == m.1);
            assert(all.contains(m));
            let j = choose|j: int| 0 <= j < all.len() && all[j] == m;
            self.lemma_pseudo_legal_adds_no_piece(e.0, e.1 as int, j);
        }
    }

    /// No legal move adds a piece; so where each side has at most 16
    /// pieces, that is so after every legal move too.
    pub proof fn lemma_legal_moves_add_no_piece(self)
        requires
            self.wf(),
            self.ply < usize::MAX,
        ensures
            forall|i: int|
                0 <= i < self.legal_moves().len() ==> self.no_piece_added(
                    #[trigger] self.legal_moves()[i],
                ),
            self.few_pieces() ==> forall|i: int|
                0 <= i < self.legal_moves().len() ==> (#[trigger] self.legal_moves()[i]).few_pieces(),
    {
        let pieces = self.board.pieces_with_pos_below(self.mover(), 64);
        self.board.lemma_pieces_with_pos(self.mover(), 64);
        assert forall|i: int| 0 <= i < self.legal_moves().len() implies self.no_piece_added(
            #[trigger] self.legal_moves()[i],
        ) by {
            self.lemma_legal_moves_of_add_no_piece(pieces, i);
        }
    }

    /// A position in which each side has at most 16 pieces has at most 896
    /// legal moves.
    pub proof fn lemma_legal_moves_len_of_16(self)
        requires
            self.few_pieces(),
        ensures
            self.legal_moves().len() <= max_moves_of_16(),
    {
        let pieces = self.board.pieces_with_pos_below(self.mover(), 64);
        self.board.lemma_pieces_count(self.mover(), 64);
        self.lemma_legal_moves_of_len(pieces);
        assert(max_piece_moves() * pieces.len() <= max_piece_moves() * 16) by (nonlinear_arith)
            requires
                pieces.len() <= 16,
        ;
    }

    /// The start of a game has 16 pieces on each side.
    pub proof fn lemma_start_few_pieces(self)
        requires
            self.is_start(),
        ensures
            self.few_pieces(),
    {
        let b = self.board;
        assert forall|sq: int| 0 <= sq < 64 && #[trigger] b.owned_by(sq, Player::White) implies 0
            <= sq < 16 by {
            assert(b.at(sq) == crate::board::initial_piece(sq));
        }
        assert forall|sq: int| 0 <= sq < 64 && #[trigger] b.owned_by(sq, Player::Black) implies 48
            <= sq < 64 by {
            assert(b.at(sq) == crate::board::initial_piece(sq));
        }
        b.lemma_owned_confined(Player::White, 0, 16, 64);
        b.lemma_owned_confined(Player::Black, 48, 64, 64);
    }
}

/// A minimax search over well-formed children with at most 16 pieces on
/// each side looks at no more positions than the bound allows for each
/// child, and one more.
pub proof fn lemma_minimax_fold_bound_of_16(
    h: spec_fn(GameState) -> i32,
    g: GameState,
    depth: nat,
    children: Seq<GameState>,
)
    requires
        depth > 0,
        g.ply + depth <= usize::MAX,
        forall|i: int|
            0 <= i < children.len() ==> {
                &&& (#[trigger] children[i]).wf()
                &&& children[i].few_pieces()
                &&& children[i].ply == g.ply + 1
            },
    ensures
        minimax_fold(h, g, depth, children).nodes <= 1 + children.len() * node_bound_of_16(
            (depth - 1) as nat,
        ),
    decreases depth, 0nat, children.len(),
{
    let nb = node_bound_of_16((depth - 1) as nat);
    if children.len() > 0 {
        let front = children.drop_last();
        assert forall|i: int| 0 <= i < front.len() implies {
            &&& (#[trigger] front[i]).wf()
            &&& front[i].few_pieces()
            &&& front[i].ply == g.ply + 1
        } by {
            assert(front[i] == children[i]);
        }
        lemma_minimax_fold_bound_of_16(h, g, depth, front);
        assert(children.last() == children[children.len() - 1]);
        lemma_minimax_bound_of_16(h, children.last(), (depth - 1) as nat);
        assert((children.len() - 1) * nb + nb == children.len() * nb) by (nonlinear_arith);
    }
}

/// A minimax search to `depth` from a well-formed position with at most 16
/// pieces on each side looks at no more than `node_bound_of_16(depth)`
/// positions.
pub proof fn lemma_minimax_bound_of_16(h: spec_fn(GameState) -> i32, g: GameState, depth: nat)
    requires
        g.wf(),
        g.few_pieces(),
        g.ply + depth <= usize::MAX,
    ensures
        minimax_spec(h, g, depth).nodes <= node_bound_of_16(depth),
    decreases depth, 1nat, 0nat,
{
    if settled_value(h, g, depth) is None {
        let children = g.legal_moves();
        let nb = node_bound_of_16((depth - 1) as nat);
        g.lemma_legal_moves_wf();
        g.lemma_legal_moves_add_no_piece();
        lemma_minimax_fold_bound_of_16(h, g, depth, children);
        g.lemma_legal_moves_len_of_16();
        assert(children.len() * nb <= max_moves_of_16() * nb) by (nonlinear_arith)
            requires
                children.len() <= max_moves_of_16(),
                0 <= nb,
        ;
    }
}

/// Up to depth 6 a search from a well-formed position with at most 16
/// pieces on each side counts its positions without overflow.
pub proof fn lemma_tree_fits_of_16(g: GameState, depth: nat)
    requires
        g.wf(),
        g.few_pieces(),
        g.ply + depth <= usize::MAX,
        depth <= 6,
    ensures
        tree_nodes(g, depth) <= u64::MAX,
{
    reveal_with_fuel(node_bound_of_16, 8);
    assert(node_bound_of_16(0) == 1);
    assert(node_bound_of_16(1) == 897);
    assert(node_bound_of_16(2) == 803713);
    assert(node_bound_of_16(3) == 720126849);
    assert(node_bound_of_16(4) == 645233656705);
    assert(node_bound_of_16(5) == 578129356407681);
    assert(node_bound_of_16(6) == 518003903341282177);
    lemma_minimax_bound_of_16(flat(), g, depth);
}

} // verus!
