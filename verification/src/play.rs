//! Playing a game: how it has ended, and what a click on a square does.

use vstd::prelude::*;
use std::collections::HashSet;
use crate::game::{GameState, Player};

verus! {

broadcast use vstd::std_specs::hash::group_hash_axioms;

/// How a game has ended.
#[derive(Debug, Clone, Copy, PartialEq, Eq, Structural)]
pub enum GameResult {
    /// 150 plies have passed without a capture or a pawn move.
    QuietDraw,
    /// The other side is checkmated: this one has won.
    Win(Player),
    /// This side is to move, is not in check and has no legal move.
    Stalemate(Player),
}

/// What a click on a square does.
#[derive(Debug, Clone, Copy, PartialEq, Eq)]
pub enum Click {
    /// The selected piece moves to the square: the game goes on from the
    /// position given.
    Played(GameState),
    /// The piece on the square is selected.
    Selected(usize),
    /// Nothing is selected any more.
    Cleared,
}

/// The position after the first of the moves that lands on `clicked`.
pub open spec fn first_landing(moves: Seq<(usize, GameState)>, clicked: usize) -> Option<GameState>
    decreases moves.len(),
{
    if moves.len() == 0 {
        None
    } else if moves[0].0 == clicked {
        Some(moves[0].1)
    } else {
        first_landing(moves.drop_first(), clicked)
    }
}

/// The squares on which the moves land.
pub open spec fn landings(moves: Seq<(usize, GameState)>) -> Set<usize> {
    Set::new(|sq: usize| exists|i: int| 0 <= i < moves.len() && #[trigger] moves[i].0 == sq)
}

impl GameState {
    /// How the game has ended, if it has: by the draw after 150 quiet
    /// plies, or else, where the mover has no legal move, by checkmate or
    /// stalemate.
    pub open spec fn result_spec(self) -> Option<GameResult> {
        if self.quiet_plies() >= 150 {
            Some(GameResult::QuietDraw)
        } else if self.legal_moves().len() == 0 {
            if self.board.in_check(self.mover()) {
                Some(GameResult::Win(self.mover().other()))
            } else {
                Some(GameResult::Stalemate(self.mover()))
            }
        } else {
            None
        }
    }

    /// The legal moves of the piece on the selected square; none where no
    /// square is selected.
    pub open spec fn moves_of_selected(self, selected: Option<usize>) -> Seq<(usize, GameState)> {
        match selected {
            Some(field) => self.legal_for_piece(self.board.kind_at(field as int), field as int),
            None => Seq::empty(),
        }
    }

    /// What a click on `clicked` does while `selected` is selected: a
    /// square to which the selected piece can move is moved to, by the
    /// first such move; any other square with a piece of the mover is
    /// selected; any other click clears the selection.
    pub open spec fn click_spec(self, selected: Option<usize>, clicked: usize) -> Click {
        match first_landing(self.moves_of_selected(selected), clicked) {
            Some(next) => Click::Played(next),
            None => if self.board.owned_by(clicked as int, self.mover()) {
                Click::Selected(clicked)
            } else {
                Click::Cleared
            },
        }
    }

    /// The squares to highlight while `selected` is selected: the square
    /// itself and the squares its piece can move to.
    pub open spec fn highlights_spec(self, selected: Option<usize>) -> Set<usize> {
        match selected {
            Some(field) => landings(self.moves_of_selected(selected)).insert(field),
            None => Set::empty(),
        }
    }

    /// How the game has ended, if it has.
    pub fn result(&self) -> (r: Option<GameResult>)
        requires
            self.wf(),
            self.ply < usize::MAX,
        ensures
            r == self.result_spec(),
    {
        if self.fifty_move_rule_draw() {
            return Some(GameResult::QuietDraw);
        }
        let new_states = self.get_legal_moves();
        if new_states.len() == 0 {
            if self.board.king_in_check(self.turn()) {
                Some(GameResult::Win(self.turn().opponent()))
            } else {
                Some(GameResult::Stalemate(self.turn()))
            }
        } else {
            None
        }
    }

    /// The legal moves of the piece on the selected square.
    fn selected_moves(&self, selected: Option<usize>) -> (moves: Vec<(usize, GameState)>)
        requires
            self.wf(),
            self.ply < usize::MAX,
            selected matches Some(field) ==> field < 64 && self.board.owned_by(
                field as int,
                self.mover(),
            ),
        ensures
            moves@ == self.moves_of_selected(selected),
    {
        match selected {
            Some(field) => match self.board.fields[field] {
                Some((piece, _)) => self.get_legal_moves_for_single_piece(piece, field),
                None => Vec::new(),
            },
            None => Vec::new(),
        }
    }

    /// What a click on `clicked` does while `selected` is selected.
    pub fn click(&self, selected: Option<usize>, clicked: usize) -> (r: Click)
        requires
            self.wf(),
            self.ply < usize::MAX,
            clicked < 64,
            selected matches Some(field) ==> field < 64 && self.board.owned_by(
                field as int,
                self.mover(),
            ),
        ensures
            r == self.click_spec(selected, clicked),
    {
        let moves = self.selected_moves(selected);
        let mut n: usize = 0;
        assert(moves@.skip(0) =~= moves@);
        while n < moves.len()
            invariant
                n <= moves.len(),
                moves@ == self.moves_of_selected(selected),
                first_landing(moves@, clicked) == first_landing(moves@.skip(n as int), clicked),
            decreases moves.len() - n,
        {
            let (pos, state) = moves[n];
            proof {
                assert(moves@.skip(n as int).drop_first() =~= moves@.skip(n + 1));
                assert(moves@.skip(n as int)[0] == moves@[n as int]);
            }
            if pos == clicked {
                proof {
                    let rest = moves@.skip(n as int);
                    assert(rest.len() > 0 && rest[0] == (pos, state));
                    assert(first_landing(rest, clicked) == Some(state));
                }
                return Click::Played(state);
            }
            n = n + 1;
        }
        let own = match self.board.fields[clicked] {
            Some((_, owner)) => owner == self.turn(),
            None => false,
        };
        if own {
            Click::Selected(clicked)
        } else {
            Click::Cleared
        }
    }

    /// The squares to highlight while `selected` is selected.
    pub fn highlights(&self, selected: Option<usize>) -> (r: HashSet<usize>)
        requires
            self.wf(),
            self.ply < usize::MAX,
            selected matches Some(field) ==> field < 64 && self.board.owned_by(
                field as int,
                self.mover(),
            ),
        ensures
            r@ == self.highlights_spec(selected),
    {
        let mut r: HashSet<usize> = HashSet::new();
        let field = match selected {
            Some(field) => field,
            None => {
                return r;
            },
        };
        let moves = self.selected_moves(selected);
        let mut n: usize = 0;
        while n < moves.len()
            invariant
                n <= moves.len(),
                r@ == landings(moves@.take(n as int)),
            decreases moves.len() - n,
        {
            let (pos, _) = moves[n];
            r.insert(pos);
            proof {
                let before = moves@.take(n as int);
                let after = moves@.take(n + 1);
                assert forall|sq: usize| #[trigger]
                    landings(after).contains(sq) <==> landings(before).insert(pos).contains(
                        sq,
                    ) by {
                    if landings(after).contains(sq) {
                        let i = choose|i: int| 0 <= i < after.len() && #[trigger] after[i].0 == sq;
                        if i < n {
                            assert(before[i].0 == sq);
                        }
                    }
                    if landings(before).contains(sq) {
                        let i = choose|i: int| 0 <= i < before.len() && #[trigger] before[i].0 == sq;
                        assert(after[i].0 == sq);
                    }
                    if sq == pos {
                        assert(after[n as int].0 == sq);
                    }
                }
                assert(r@ =~= landings(after));
            }
            n = n + 1;
        }
        assert(moves@.take(n as int) =~= moves@);
        r.insert(field);
        r
    }
}

} // verus!
