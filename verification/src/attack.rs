//! Whether a square is attacked.
//!
//! A square is probed outwards: along the straight and the diagonal rays for
//! the first piece in the way, at the knight leaps, and at the squares from
//! which a pawn of the other side captures.

use vstd::prelude::*;
use crate::game::{BoardState, PieceType, Player};
use crate::geometry::{
    get_pawn_moves, pawn_capture_dirs, step_square, Direction, DIAGONAL, KNIGHT, STRAIGHT,
};

verus! {

/// The four ways in which a piece bears on a square.
#[derive(Debug, Clone, Copy, PartialEq, Eq, Structural)]
pub enum AttackKind {
    /// Along a row or column: a rook or queen, or a king next to the square.
    Straight,
    /// Along a diagonal: a bishop or queen, or a king next to the square.
    Diagonal,
    /// At a knight's leap: a knight.
    Knight,
    /// At a pawn's capture step: a pawn.
    Pawn,
}

impl AttackKind {
    /// Whether `piece`, first on its ray at distance `k`, attacks in this
    /// way.
    pub open spec fn strikes(self, piece: PieceType, k: int) -> bool {
        match self {
            AttackKind::Straight => {
                ||| piece == PieceType::Queen
                ||| piece == PieceType::Rook
                ||| piece == PieceType::InitRook
                ||| (k == 1 && (piece == PieceType::King || piece == PieceType::InitKing))
            },
            AttackKind::Diagonal => {
                ||| piece == PieceType::Queen
                ||| piece == PieceType::Bishop
                ||| (k == 1 && (piece == PieceType::King || piece == PieceType::InitKing))
            },
            AttackKind::Knight => piece == PieceType::Knight,
            AttackKind::Pawn => piece == PieceType::Pawn || piece == PieceType::InitPawn,
        }
    }

    /// Whether `piece`, first on its ray at `distance`, attacks in this way.
    pub fn strikes_exec(self, piece: PieceType, distance: usize) -> (r: bool)
        ensures
            r == self.strikes(piece, distance as int),
    {
        match self {
            AttackKind::Straight => match piece {
                PieceType::InitKing | PieceType::King => distance == 1,
                PieceType::Queen | PieceType::InitRook | PieceType::Rook => true,
                _ => false,
            },
            AttackKind::Diagonal => match piece {
                PieceType::InitKing | PieceType::King => distance == 1,
                PieceType::Queen | PieceType::Bishop => true,
                _ => false,
            },
            AttackKind::Knight => match piece {
                PieceType::Knight => true,
                _ => false,
            },
            AttackKind::Pawn => match piece {
                PieceType::InitPawn | PieceType::Pawn => true,
                _ => false,
            },
        }
    }
}

impl BoardState {
    /// Whether the first piece on the ray from `pos` in direction `d` stands
    /// at distance `k`, belongs to the other side than `defender`, and
    /// attacks in the way `kind`.
    pub open spec fn threat_at(
        self,
        pos: int,
        d: Direction,
        k: int,
        defender: Player,
        kind: AttackKind,
    ) -> bool {
        &&& self.ray_hit(pos, d, k, false, true, defender)
        &&& self.at(step_square(pos, d, k)) matches Some((piece, _)) && kind.strikes(piece, k)
    }

    /// Whether some ray from `pos` in `dirs` meets, within `max` steps, a
    /// piece that attacks `pos` in the way `kind`.
    pub open spec fn threat(
        self,
        pos: int,
        dirs: Seq<Direction>,
        max: int,
        defender: Player,
        kind: AttackKind,
    ) -> bool {
        exists|i: int, k: int|
            0 <= i < dirs.len() && 1 <= k <= max && #[trigger] self.threat_at(
                pos,
                dirs[i],
                k,
                defender,
                kind,
            )
    }

    /// Whether a piece of the other side than `defender` attacks `pos`.
    pub open spec fn under_attack(self, pos: int, defender: Player) -> bool {
        ||| self.threat(pos, STRAIGHT@, 7, defender, AttackKind::Straight)
        ||| self.threat(pos, DIAGONAL@, 7, defender, AttackKind::Diagonal)
        ||| self.threat(pos, KNIGHT@, 1, defender, AttackKind::Knight)
        ||| self.threat(pos, pawn_capture_dirs(defender), 1, defender, AttackKind::Pawn)
    }

    /// Whether the king of `player` is attacked.
    pub open spec fn in_check(self, player: Player) -> bool {
        self.under_attack(self.king_pos(player), player)
    }

    /// Whether a ray from `pos` in `directions` meets, within `max_steps`, a
    /// piece of the other side that attacks in the way `kind`.
    pub fn threatened_along(
        &self,
        pos: usize,
        directions: &[Direction],
        max_steps: usize,
        player: Player,
        kind: AttackKind,
    ) -> (r: bool)
        requires
            pos < 64,
        ensures
            r == self.threat(pos as int, directions@, max_steps as int, player, kind),
    {
        let others = self.get_far_moves(pos, directions, max_steps, false, true, player);
        proof {
            self.lemma_far_targets_members(
                pos as int,
                directions@,
                max_steps as int,
                false,
                true,
                player,
            );
        }
        let mut n: usize = 0;
        while n < others.len()
            invariant
                pos < 64,
                n <= others.len(),
                others@ == self.far_targets(
                    pos as int,
                    directions@,
                    max_steps as int,
                    false,
                    true,
                    player,
                ),
                forall|e: (usize, usize)|
                    #![trigger others@.contains(e)]
                    others@.contains(e) <==> self.far_member(
                        pos as int,
                        directions@,
                        max_steps as int,
                        false,
                        true,
                        player,
                        e,
                    ),
                forall|j: int|
                    0 <= j < n ==> !(self.at((#[trigger] others@[j]).0 as int) matches Some(
                        (piece, _),
                    ) && kind.strikes(piece, others@[j].1 as int)),
            decreases others.len() - n,
        {
            let (other_pos, distance) = others[n];
            proof {
                assert(others@.contains(others@[n as int]));
                let (i, k) = choose|i: int, k: int|
                    0 <= i < directions@.len() && 1 <= k <= max_steps && #[trigger] self.is_target(
                        pos as int,
                        directions@[i],
                        k,
                        false,
                        true,
                        player,
                        others@[n as int],
                    );
                crate::geometry::lemma_on_board_between(pos as int, directions@[i], k, k);
                if self.at(other_pos as int) matches Some((piece, _)) && kind.strikes(
                    piece,
                    distance as int,
                ) {
                    assert(self.threat_at(pos as int, directions@[i], k, player, kind));
                }
            }
            match self.fields[other_pos] {
                Some((piece, _)) => {
                    if kind.strikes_exec(piece, distance) {
                        return true;
                    }
                },
                None => {},
            }
            n = n + 1;
        }
        proof {
            if self.threat(pos as int, directions@, max_steps as int, player, kind) {
                let (i, k) = choose|i: int, k: int|
                    0 <= i < directions@.len() && 1 <= k <= max_steps && #[trigger] self.threat_at(
                        pos as int,
                        directions@[i],
                        k,
                        player,
                        kind,
                    );
                crate::geometry::lemma_on_board_between(pos as int, directions@[i], k, k);
                let e = (step_square(pos as int, directions@[i], k) as usize, k as usize);
                assert(self.is_target(pos as int, directions@[i], k, false, true, player, e));
                assert(others@.contains(e));
                let j = choose|j: int| 0 <= j < others@.len() && others@[j] == e;
                assert(others@[j].0 == e.0);
                assert(false);
            }
        }
        false
    }

    /// Whether a piece of the other side than `player` attacks `pos`.
    pub fn field_under_attack(&self, pos: usize, player: Player) -> (r: bool)
        requires
            pos < 64,
        ensures
            r == self.under_attack(pos as int, player),
    {
        if self.threatened_along(pos, &STRAIGHT, 7, player, AttackKind::Straight) {
            return true;
        }
        if self.threatened_along(pos, &DIAGONAL, 7, player, AttackKind::Diagonal) {
            return true;
        }
        if self.threatened_along(pos, &KNIGHT, 1, player, AttackKind::Knight) {
            return true;
        }
        // An attacking pawn stands where a pawn of `player` would capture
        // from `pos`, so the capture directions of `player` are probed.
        let (_, _, capture_moves) = get_pawn_moves(player);
        self.threatened_along(pos, capture_moves, 1, player, AttackKind::Pawn)
    }

    /// Whether the king of `player` is attacked.
    pub fn king_in_check(&self, player: Player) -> (r: bool)
        requires
            self.has_king(player),
        ensures
            r == self.in_check(player),
    {
        let king_pos = self.find_king(player);
        self.field_under_attack(king_pos, player)
    }
}

} // verus!
