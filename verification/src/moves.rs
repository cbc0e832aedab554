//! The moves that the geometry of the pieces allows.
//!
//! A move is given as the state it leads to, together with the square on
//! which the moved piece lands. Whether the mover's king is safe afterwards
//! is not looked at here.

use vstd::prelude::*;
use crate::game::{BoardState, EnPassantFieldInfo, GameState, PieceType, Player};
use crate::geometry::{
    final_row, get_pawn_moves, pawn_capture_dirs, pawn_move_dirs, Direction, DIAGONAL, KNIGHT,
    STRAIGHT, STRAIGHT_AND_DIAGONAL,
};

verus! {

/// The square `dist` steps from `from` towards the rook: to the left on the
/// queen's side, to the right on the king's side.
pub open spec fn castle_square(from: int, queen_side: bool, dist: int) -> int {
    if queen_side {
        from - dist
    } else {
        from + dist
    }
}

/// How far the rook stands from an unmoved king.
pub open spec fn rook_distance(queen_side: bool) -> int {
    if queen_side {
        4
    } else {
        3
    }
}

impl GameState {
    /// The state after the mover's piece on `from` has gone to `to` and
    /// stands there as `piece`: the ply advances, and the ply of the last
    /// event is set to the new ply where `to` was occupied or `piece` is a
    /// pawn.
    pub open spec fn moved(self, piece: PieceType, from: int, to: int) -> GameState {
        let cleared = self.board.put(from, None);
        GameState {
            ply: (self.ply + 1) as usize,
            fifty_move_rule_last_event: if cleared.at(to) is Some || piece == PieceType::Pawn {
                (self.ply + 1) as usize
            } else {
                self.fifty_move_rule_last_event
            },
            board: cleared.put(to, Some((piece, self.mover()))),
        }
    }

    /// The state with a double step remembered.
    pub open spec fn with_double_step(self, ply: usize, skipped: usize, target: usize) -> GameState {
        GameState {
            board: BoardState {
                en_passant_field: EnPassantFieldInfo { ply, skipped, target },
                ..self.board
            },
            ..self
        }
    }

    /// The state with square `sq` set to `piece`.
    pub open spec fn with_square(self, sq: int, piece: Option<(PieceType, Player)>) -> GameState {
        GameState { board: self.board.put(sq, piece), ..self }
    }

    /// One move for each target: the piece on `from` goes there and stands
    /// as `piece`.
    pub open spec fn plain_moves(self, piece: PieceType, from: int, targets: Seq<(usize, usize)>) -> Seq<
        (usize, GameState),
    > {
        targets.map_values(|t: (usize, usize)| (t.0, self.moved(piece, from, t.0 as int)))
    }

    /// The four promotions of a pawn of `player` that has arrived on `to` in
    /// `state`: queen, rook, bishop, knight.
    pub open spec fn promotions(state: GameState, to: usize, player: Player) -> Seq<
        (usize, GameState),
    > {
        seq![
            (to, state.with_square(to as int, Some((PieceType::Queen, player)))),
            (to, state.with_square(to as int, Some((PieceType::Rook, player)))),
            (to, state.with_square(to as int, Some((PieceType::Bishop, player)))),
            (to, state.with_square(to as int, Some((PieceType::Knight, player)))),
        ]
    }

    /// What a moved pawn's arrival on `to` gives: its four promotions on the
    /// last row, one move elsewhere.
    pub open spec fn pawn_arrival(self, from: int, to: usize) -> Seq<(usize, GameState)> {
        let state = self.moved(PieceType::Pawn, from, to as int);
        if to / 8 == final_row(self.mover()) {
            Self::promotions(state, to, self.mover())
        } else {
            seq![(to, state)]
        }
    }

    /// The arrivals of a moved pawn on each target, in the order of the
    /// targets.
    pub open spec fn pawn_moves(self, from: int, targets: Seq<(usize, usize)>) -> Seq<
        (usize, GameState),
    >
        decreases targets.len(),
    {
        if targets.len() == 0 {
            Seq::empty()
        } else {
            self.pawn_moves(from, targets.drop_last()) + self.pawn_arrival(from, targets.last().0)
        }
    }

    /// The advances of an unmoved pawn: one move for each target, and the
    /// second, which is the double step, remembers the square passed over.
    pub open spec fn first_pawn_moves(self, from: int, targets: Seq<(usize, usize)>) -> Seq<
        (usize, GameState),
    > {
        targets.map(
            |i: int, t: (usize, usize)|
                if i == 1 {
                    (
                        t.0,
                        self.moved(PieceType::Pawn, from, t.0 as int).with_double_step(
                            self.ply,
                            ((from + t.0) / 2) as usize,
                            t.0,
                        ),
                    )
                } else {
                    (t.0, self.moved(PieceType::Pawn, from, t.0 as int))
                },
        )
    }

    /// The state after the pawn on `from` has captured en passant on `to`:
    /// the pawn that made the double step leaves the board.
    pub open spec fn en_passant_capture(self, from: int, to: int) -> GameState {
        self.moved(PieceType::Pawn, from, to).with_square(
            self.board.en_passant_field.target as int,
            None,
        )
    }

    /// The captures en passant among the targets: one for each target that
    /// is the square passed over.
    pub open spec fn en_passant_moves(self, from: int, targets: Seq<(usize, usize)>) -> Seq<
        (usize, GameState),
    >
        decreases targets.len(),
    {
        if targets.len() == 0 {
            Seq::empty()
        } else {
            let before = self.en_passant_moves(from, targets.drop_last());
            let to = targets.last().0;
            if self.board.en_passant_field.skipped == to {
                before.push((to, self.en_passant_capture(from, to as int)))
            } else {
                before
            }
        }
    }

    /// Whether the remembered double step was made on the ply before this
    /// one.
    pub open spec fn en_passant_open(self) -> bool {
        self.ply == self.board.en_passant_field.ply + 1
    }

    /// Whether the unmoved king on `from` may castle to the given side: the
    /// rook of that side is unmoved, nothing stands between the two, and
    /// neither the square the king passes nor the one it lands on is
    /// attacked. That the king itself is not attacked is asked elsewhere.
    pub open spec fn can_castle(self, from: int, queen_side: bool) -> bool {
        &&& self.board.at(castle_square(from, queen_side, rook_distance(queen_side))) == Some(
            (PieceType::InitRook, self.mover()),
        )
        &&& forall|dist: int|
            1 <= dist < rook_distance(queen_side) ==> #[trigger] self.board.at(
                castle_square(from, queen_side, dist),
            ) is None
        &&& !self.board.under_attack(castle_square(from, queen_side, 1), self.mover())
        &&& !self.board.under_attack(castle_square(from, queen_side, 2), self.mover())
    }

    /// The state after castling: the king has gone two squares towards the
    /// rook, and the rook stands on the square the king passed.
    pub open spec fn castled(self, from: int, queen_side: bool) -> GameState {
        self.moved(PieceType::King, from, castle_square(from, queen_side, 2)).with_square(
            castle_square(from, queen_side, rook_distance(queen_side)),
            None,
        ).with_square(castle_square(from, queen_side, 1), Some((PieceType::Rook, self.mover())))
    }

    /// Castling to the given side, where it is allowed.
    pub open spec fn castle_option(self, from: int, queen_side: bool) -> Seq<(usize, GameState)> {
        if self.can_castle(from, queen_side) {
            seq![(castle_square(from, queen_side, 2) as usize, self.castled(from, queen_side))]
        } else {
            Seq::empty()
        }
    }

    /// The castling moves of `piece` on `from`: none unless it is an unmoved
    /// king that is not attacked; then the queen's side before the king's.
    pub open spec fn castling_moves(self, piece: PieceType, from: int) -> Seq<(usize, GameState)> {
        if piece == PieceType::InitKing && !self.board.under_attack(from, self.mover()) {
            self.castle_option(from, true) + self.castle_option(from, false)
        } else {
            Seq::empty()
        }
    }

    /// The targets of the mover's piece on `from` along `dirs`, empty squares
    /// and captures alike.
    pub open spec fn reach(self, from: int, dirs: Seq<Direction>, max: int) -> Seq<(usize, usize)> {
        self.board.far_targets(from, dirs, max, true, true, self.mover())
    }

    /// The moves of `piece` on `from` by the geometry of the piece, each
    /// with the square it lands on, in the order in which they are
    /// generated.
    pub open spec fn pseudo_legal(self, piece: PieceType, from: int) -> Seq<(usize, GameState)> {
        let mover = self.mover();
        match piece {
            PieceType::InitKing | PieceType::King => self.plain_moves(
                PieceType::King,
                from,
                self.reach(from, STRAIGHT_AND_DIAGONAL@, 1),
            ) + self.castling_moves(piece, from),
            PieceType::Queen => self.plain_moves(
                PieceType::Queen,
                from,
                self.reach(from, STRAIGHT_AND_DIAGONAL@, 7),
            ),
            PieceType::InitRook | PieceType::Rook => self.plain_moves(
                PieceType::Rook,
                from,
                self.reach(from, STRAIGHT@, 7),
            ),
            PieceType::Bishop => self.plain_moves(
                PieceType::Bishop,
                from,
                self.reach(from, DIAGONAL@, 7),
            ),
            PieceType::Knight => self.plain_moves(
                PieceType::Knight,
                from,
                self.reach(from, KNIGHT@, 1),
            ),
            PieceType::InitPawn => self.first_pawn_moves(
                from,
                self.board.far_targets(from, pawn_move_dirs(mover), 2, true, false, mover),
            ) + self.plain_moves(
                PieceType::Pawn,
                from,
                self.board.far_targets(from, pawn_capture_dirs(mover), 1, false, true, mover),
            ),
            PieceType::Pawn => self.pawn_moves(
                from,
                self.board.far_targets(from, pawn_move_dirs(mover), 1, true, false, mover),
            ) + self.pawn_moves(
                from,
                self.board.far_targets(from, pawn_capture_dirs(mover), 1, false, true, mover),
            ) + (if self.en_passant_open() {
                self.en_passant_moves(
                    from,
                    self.board.far_targets(from, pawn_capture_dirs(mover), 1, true, false, mover),
                )
            } else {
                Seq::empty()
            }),
        }
    }

    /// The state after the mover's piece on `from` has gone to `to` and
    /// stands there as `piece`, with the square it landed on.
    pub fn new_state_from_to(&self, piece: PieceType, from: usize, to: usize) -> (r: (
        usize,
        GameState,
    ))
        requires
            from < 64,
            to < 64,
            self.ply < usize::MAX,
        ensures
            r == (to, self.moved(piece, from as int, to as int)),
    {
        let mut new_state = *self;
        new_state.ply = self.ply + 1;
        new_state.board.fields[from] = None;
        let old = new_state.board.fields[to];
        new_state.board.fields[to] = Some((piece, self.turn()));
        if old.is_some() || piece == PieceType::Pawn {
            new_state.fifty_move_rule_last_event = new_state.ply;
        }
        proof {
            let m = self.moved(piece, from as int, to as int);
            assert(new_state.board.fields =~= m.board.fields);
        }
        (to, new_state)
    }

    /// Remembers in `state` that the pawn on `pos` made a double step to
    /// `new_pos` from this state.
    pub fn store_en_passant_info(&self, state: &mut GameState, pos: usize, new_pos: usize)
        requires
            pos < 64,
            new_pos < 64,
        ensures
            *final(state) == old(state).with_double_step(
                self.ply,
                ((pos + new_pos) / 2) as usize,
                new_pos,
            ),
    {
        state.board.en_passant_field = EnPassantFieldInfo {
            ply: self.ply,
            skipped: (pos + new_pos) / 2,
            target: new_pos,
        }
    }

    /// The four promotions of the mover's pawn that has arrived: the state
    /// given, with a queen, a rook, a bishop or a knight on the square of
    /// arrival and nothing else changed.
    pub fn generate_pawn_promotions(&self, pos_and_state: (usize, GameState)) -> (states: [(
        usize,
        GameState,
    ); 4])
        requires
            pos_and_state.0 < 64,
        ensures
            states@ == Self::promotions(pos_and_state.1, pos_and_state.0, self.mover()),
    {
        let new_pos = pos_and_state.0;
        let mut states = [pos_and_state;4];
        states[0].1.board.fields[new_pos] = Some((PieceType::Queen, self.turn()));
        states[1].1.board.fields[new_pos] = Some((PieceType::Rook, self.turn()));
        states[2].1.board.fields[new_pos] = Some((PieceType::Bishop, self.turn()));
        states[3].1.board.fields[new_pos] = Some((PieceType::Knight, self.turn()));
        proof {
            let want = Self::promotions(pos_and_state.1, pos_and_state.0, self.mover());
            assert(states@[0].1.board.fields =~= want[0].1.board.fields);
            assert(states@[1].1.board.fields =~= want[1].1.board.fields);
            assert(states@[2].1.board.fields =~= want[2].1.board.fields);
            assert(states@[3].1.board.fields =~= want[3].1.board.fields);
            assert(states@ =~= want);
        }
        states
    }

    /// Adds to `new_states` one move for each target: the piece on `pos`
    /// goes there and stands as `piece`.
    fn push_plain_moves(
        &self,
        new_states: &mut Vec<(usize, GameState)>,
        piece: PieceType,
        pos: usize,
        targets: &Vec<(usize, usize)>,
    )
        requires
            pos < 64,
            self.ply < usize::MAX,
            forall|n: int| 0 <= n < targets@.len() ==> (#[trigger] targets@[n]).0 < 64,
        ensures
            final(new_states)@ == old(new_states)@ + self.plain_moves(piece, pos as int, targets@),
    {
        let mut n: usize = 0;
        while n < targets.len()
            invariant
                pos < 64,
                self.ply < usize::MAX,
                n <= targets.len(),
                forall|n: int| 0 <= n < targets@.len() ==> (#[trigger] targets@[n]).0 < 64,
                new_states@ == old(new_states)@ + self.plain_moves(
                    piece,
                    pos as int,
                    targets@.take(n as int),
                ),
            decreases targets.len() - n,
        {
            let (new_pos, _) = targets[n];
            new_states.push(self.new_state_from_to(piece, pos, new_pos));
            proof {
                assert(new_states@ =~= old(new_states)@ + self.plain_moves(
                    piece,
                    pos as int,
                    targets@.take(n + 1),
                ));
            }
            n = n + 1;
        }
        assert(targets@.take(n as int) =~= targets@);
    }

    /// Adds to `new_states` the advances of the unmoved pawn on `pos`.
    fn push_first_pawn_moves(
        &self,
        new_states: &mut Vec<(usize, GameState)>,
        pos: usize,
        targets: &Vec<(usize, usize)>,
    )
        requires
            pos < 64,
            self.ply < usize::MAX,
            forall|n: int| 0 <= n < targets@.len() ==> (#[trigger] targets@[n]).0 < 64,
        ensures
            final(new_states)@ == old(new_states)@ + self.first_pawn_moves(pos as int, targets@),
    {
        let mut i: usize = 0;
        while i < targets.len()
            invariant
                pos < 64,
                self.ply < usize::MAX,
                i <= targets.len(),
                forall|n: int| 0 <= n < targets@.len() ==> (#[trigger] targets@[n]).0 < 64,
                new_states@ == old(new_states)@ + self.first_pawn_moves(
                    pos as int,
                    targets@.take(i as int),
                ),
            decreases targets.len() - i,
        {
            let (new_pos, _) = targets[i];
            let mut new_pos_and_state = self.new_state_from_to(PieceType::Pawn, pos, new_pos);
            if i == 1 {
                self.store_en_passant_info(&mut new_pos_and_state.1, pos, new_pos);
            }
            new_states.push(new_pos_and_state);
            proof {
                assert(new_states@ =~= old(new_states)@ + self.first_pawn_moves(
                    pos as int,
                    targets@.take(i + 1),
                ));
            }
            i = i + 1;
        }
        assert(targets@.take(i as int) =~= targets@);
    }

    /// Adds to `new_states` the arrivals of the moved pawn on `pos` on each
    /// target, promotions included.
    fn push_pawn_moves(
        &self,
        new_states: &mut Vec<(usize, GameState)>,
        pos: usize,
        targets: &Vec<(usize, usize)>,
    )
        requires
            pos < 64,
            self.ply < usize::MAX,
            forall|n: int| 0 <= n < targets@.len() ==> (#[trigger] targets@[n]).0 < 64,
        ensures
            final(new_states)@ == old(new_states)@ + self.pawn_moves(pos as int, targets@),
    {
        let (final_row, _, _) = get_pawn_moves(self.turn());
        let mut n: usize = 0;
        while n < targets.len()
            invariant
                pos < 64,
                self.ply < usize::MAX,
                n <= targets.len(),
                final_row == crate::geometry::final_row(self.mover()),
                forall|n: int| 0 <= n < targets@.len() ==> (#[trigger] targets@[n]).0 < 64,
                new_states@ == old(new_states)@ + self.pawn_moves(
                    pos as int,
                    targets@.take(n as int),
                ),
            decreases targets.len() - n,
        {
            let (new_pos, _) = targets[n];
            let ghost before = new_states@;
            let new_pos_and_state = self.new_state_from_to(PieceType::Pawn, pos, new_pos);
            if new_pos / 8 == final_row {
                let promoted = self.generate_pawn_promotions(new_pos_and_state);
                new_states.push(promoted[0]);
                new_states.push(promoted[1]);
                new_states.push(promoted[2]);
                new_states.push(promoted[3]);
            } else {
                new_states.push(new_pos_and_state);
            }
            proof {
                assert(targets@.take(n + 1).drop_last() =~= targets@.take(n as int));
                assert(new_states@ =~= before + self.pawn_arrival(pos as int, new_pos));
            }
            n = n + 1;
        }
        assert(targets@.take(n as int) =~= targets@);
    }

    /// Adds to `new_states` the captures en passant of the pawn on `pos`
    /// among the targets.
    fn push_en_passant_moves(
        &self,
        new_states: &mut Vec<(usize, GameState)>,
        pos: usize,
        targets: &Vec<(usize, usize)>,
    )
        requires
            pos < 64,
            self.ply < usize::MAX,
            self.board.wf(),
            forall|n: int| 0 <= n < targets@.len() ==> (#[trigger] targets@[n]).0 < 64,
        ensures
            final(new_states)@ == old(new_states)@ + self.en_passant_moves(pos as int, targets@),
    {
        let mut n: usize = 0;
        while n < targets.len()
            invariant
                pos < 64,
                self.ply < usize::MAX,
                self.board.wf(),
                n <= targets.len(),
                forall|n: int| 0 <= n < targets@.len() ==> (#[trigger] targets@[n]).0 < 64,
                new_states@ == old(new_states)@ + self.en_passant_moves(
                    pos as int,
                    targets@.take(n as int),
                ),
            decreases targets.len() - n,
        {
            let (new_pos, _) = targets[n];
            // A capture en passant ends on the fifth row, so it never promotes.
            if self.board.en_passant_field.skipped == new_pos {
                let mut new_pos_and_state = self.new_state_from_to(PieceType::Pawn, pos, new_pos);
                new_pos_and_state.1.board.fields[self.board.en_passant_field.target] = None;
                proof {
                    let want = self.en_passant_capture(pos as int, new_pos as int);
                    assert(new_pos_and_state.1.board.fields =~= want.board.fields);
                }
                new_states.push(new_pos_and_state);
            }
            proof {
                assert(targets@.take(n + 1).drop_last() =~= targets@.take(n as int));
            }
            n = n + 1;
        }
        assert(targets@.take(n as int) =~= targets@);
    }

    /// Castling of the unmoved king on `pos` to the given side, where it is
    /// allowed.
    fn castle(&self, pos: usize, queen_side: bool) -> (r: Option<(usize, GameState)>)
        requires
            pos < 64,
            pos % 8 == 4,
            self.ply < usize::MAX,
        ensures
            r is Some <==> self.can_castle(pos as int, queen_side),
            r matches Some(m) ==> m == (
                castle_square(pos as int, queen_side, 2) as usize,
                self.castled(pos as int, queen_side),
            ),
    {
        let player = self.turn();
        let (rook_pos, pass_pos, land_pos): (usize, usize, usize) = if queen_side {
            (pos - 4, pos - 1, pos - 2)
        } else {
            (pos + 3, pos + 1, pos + 2)
        };
        let rook_there = match self.board.fields[rook_pos] {
            Some((PieceType::InitRook, p)) => p == player,
            _ => false,
        };
        if !rook_there {
            return None;
        }
        if self.board.fields[pass_pos].is_some() || self.board.fields[land_pos].is_some() {
            assert(self.board.at(castle_square(pos as int, queen_side, 1)) is Some
                || self.board.at(castle_square(pos as int, queen_side, 2)) is Some);
            return None;
        }
        if queen_side && self.board.fields[pos - 3].is_some() {
            assert(self.board.at(castle_square(pos as int, queen_side, 3)) is Some);
            return None;
        }
        if self.board.field_under_attack(pass_pos, player) || self.board.field_under_attack(
            land_pos,
            player,
        ) {
            return None;
        }
        let mut new_pos_and_state = self.new_state_from_to(PieceType::King, pos, land_pos);
        new_pos_and_state.1.board.fields[rook_pos] = None;
        new_pos_and_state.1.board.fields[pass_pos] = Some((PieceType::Rook, player));
        proof {
            let want = self.castled(pos as int, queen_side);
            assert(new_pos_and_state.1.board.fields =~= want.board.fields);
            assert forall|dist: int| 1 <= dist < rook_distance(queen_side) implies #[trigger] self.board.at(
                castle_square(pos as int, queen_side, dist),
            ) is None by {
                assert(dist == 1 || dist == 2 || dist == 3);
            }
        }
        Some(new_pos_and_state)
    }

    /// The moves of `piece`, which stands on `pos` and belongs to the side to
    /// move, by the geometry of the piece: each is given as the square the
    /// piece lands on and the state that results. The mover's king may be
    /// left in check by them.
    pub fn get_pseudo_legal_moves_for_single_piece(&self, piece: PieceType, pos: usize) -> (new_states:
        Vec<(usize, GameState)>)
        requires
            pos < 64,
            self.ply < usize::MAX,
            self.board.wf(),
            self.board.at(pos as int) == Some((piece, self.mover())),
        ensures
            new_states@ == self.pseudo_legal(piece, pos as int),
    {
        let mut new_states: Vec<(usize, GameState)> = Vec::new();
        let player = self.turn();
        match piece {
            PieceType::InitKing | PieceType::King => {
                let targets = self.board.get_far_moves(
                    pos,
                    &STRAIGHT_AND_DIAGONAL,
                    1,
                    true,
                    true,
                    player,
                );
                self.push_plain_moves(&mut new_states, PieceType::King, pos, &targets);
                if piece == PieceType::InitKing && !self.board.field_under_attack(pos, player) {
                    if let Some(castling) = self.castle(pos, true) {
                        new_states.push(castling);
                    }
                    if let Some(castling) = self.castle(pos, false) {
                        new_states.push(castling);
                    }
                }
                proof {
                    assert(new_states@ =~= self.pseudo_legal(piece, pos as int));
                }
            },
            PieceType::Queen => {
                let targets = self.board.get_far_moves(
                    pos,
                    &STRAIGHT_AND_DIAGONAL,
                    7,
                    true,
                    true,
                    player,
                );
                self.push_plain_moves(&mut new_states, PieceType::Queen, pos, &targets);
            },
            PieceType::InitRook | PieceType::Rook => {
                let targets = self.board.get_far_moves(pos, &STRAIGHT, 7, true, true, player);
                self.push_plain_moves(&mut new_states, PieceType::Rook, pos, &targets);
            },
            PieceType::Bishop => {
                let targets = self.board.get_far_moves(pos, &DIAGONAL, 7, true, true, player);
                self.push_plain_moves(&mut new_states, PieceType::Bishop, pos, &targets);
            },
            PieceType::Knight => {
                let targets = self.board.get_far_moves(pos, &KNIGHT, 1, true, true, player);
                self.push_plain_moves(&mut new_states, PieceType::Knight, pos, &targets);
            },
            PieceType::InitPawn => {
                let (_, move_moves, capture_moves) = get_pawn_moves(player);
                let advances = self.board.get_far_moves(pos, move_moves, 2, true, false, player);
                self.push_first_pawn_moves(&mut new_states, pos, &advances);
                let captures = self.board.get_far_moves(pos, capture_moves, 1, false, true, player);
                self.push_plain_moves(&mut new_states, PieceType::Pawn, pos, &captures);
            },
            PieceType::Pawn => {
                let (_, move_moves, capture_moves) = get_pawn_moves(player);
                let advances = self.board.get_far_moves(pos, move_moves, 1, true, false, player);
                self.push_pawn_moves(&mut new_states, pos, &advances);
                let captures = self.board.get_far_moves(pos, capture_moves, 1, false, true, player);
                self.push_pawn_moves(&mut new_states, pos, &captures);
                if self.ply >= 1 && self.ply - 1 == self.board.en_passant_field.ply {
                    let passed = self.board.get_far_moves(
                        pos,
                        capture_moves,
                        1,
                        true,
                        false,
                        player,
                    );
                    self.push_en_passant_moves(&mut new_states, pos, &passed);
                }
            },
        }
        new_states
    }
}

} // verus!
