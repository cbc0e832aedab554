//! Legal moves: the moves by geometry that leave the mover's king safe.

use vstd::prelude::*;
use crate::game::{GameState, PieceType, Player};

verus! {

/// The test that a move passes when it leaves the king of `mover` out of
/// check.
pub open spec fn king_safe(mover: Player) -> spec_fn((usize, GameState)) -> bool {
    |m: (usize, GameState)| !m.1.board.in_check(mover)
}

/// The states that the moves lead to.
pub open spec fn states_of(moves: Seq<(usize, GameState)>) -> Seq<GameState> {
    moves.map_values(|m: (usize, GameState)| m.1)
}

/// What passes a filter comes from the sequence filtered, and passes the
/// test.
pub proof fn lemma_filter_from<A>(s: Seq<A>, pred: spec_fn(A) -> bool)
    ensures
        forall|i: int|
            0 <= i < s.filter(pred).len() ==> s.contains(#[trigger] s.filter(pred)[i]) && pred(
                s.filter(pred)[i],
            ),
    decreases s.len(),
{
    reveal(Seq::filter);
    if s.len() > 0 {
        let front = s.drop_last();
        lemma_filter_from(front, pred);
        let kept = s.filter(pred);
        let before = front.filter(pred);
        assert forall|i: int| 0 <= i < kept.len() implies s.contains(#[trigger] kept[i]) && pred(
            kept[i],
        ) by {
            if i < before.len() {
                assert(kept[i] == before[i]);
                assert(front.contains(before[i]));
                let j = choose|j: int| 0 <= j < front.len() && front[j] == before[i];
                assert(s[j] == kept[i]);
            } else {
                assert(kept[i] == s[s.len() - 1]);
            }
        }
    }
}

impl GameState {
    /// The legal moves of `piece` on `from`: its moves by geometry, in their
    /// order, without those that leave the mover's king in check.
    pub open spec fn legal_for_piece(self, piece: PieceType, from: int) -> Seq<(usize, GameState)> {
        self.pseudo_legal(piece, from).filter(king_safe(self.mover()))
    }

    /// The states after the legal moves of the listed pieces, piece by
    /// piece.
    pub open spec fn legal_moves_of(self, pieces: Seq<(PieceType, usize)>) -> Seq<GameState>
        decreases pieces.len(),
    {
        if pieces.len() == 0 {
            Seq::empty()
        } else {
            self.legal_moves_of(pieces.drop_last()) + states_of(
                self.legal_for_piece(pieces.last().0, pieces.last().1 as int),
            )
        }
    }

    /// The states after the legal moves of the side to move, its pieces
    /// taken in the order of their squares.
    pub open spec fn legal_moves(self) -> Seq<GameState> {
        self.legal_moves_of(self.board.pieces_with_pos_below(self.mover(), 64))
    }

    /// Whether the side to move is checkmated: it has no legal move and its
    /// king is in check.
    pub open spec fn is_checkmate(self) -> bool {
        self.legal_moves().len() == 0 && self.board.in_check(self.mover())
    }

    /// Whether the side to move is stalemated: it has no legal move and its
    /// king is not in check.
    pub open spec fn is_stalemate(self) -> bool {
        self.legal_moves().len() == 0 && !self.board.in_check(self.mover())
    }

    /// Without a legal move the game is over in exactly one way: checkmate
    /// if the mover's king is in check, stalemate if it is not.
    pub proof fn lemma_no_move_is_mate_or_stalemate(self)
        requires
            self.legal_moves().len() == 0,
        ensures
            self.is_checkmate() != self.is_stalemate(),
            self.is_checkmate() == self.board.in_check(self.mover()),
            self.is_stalemate() == !self.board.in_check(self.mover()),
    {
    }

    /// A legal move of a piece leads from a well-formed position to a
    /// well-formed position one ply on.
    pub proof fn lemma_legal_for_piece_wf(self, piece: PieceType, from: int)
        requires
            self.wf(),
            0 <= from < 64,
            self.ply < usize::MAX,
            self.board.at(from) == Some((piece, self.mover())),
        ensures
            forall|i: int|
                0 <= i < self.legal_for_piece(piece, from).len() ==> {
                    &&& (#[trigger] self.legal_for_piece(piece, from)[i]).1.wf()
                    &&& self.legal_for_piece(piece, from)[i].1.ply == self.ply + 1
                    &&& self.legal_for_piece(piece, from)[i].0 < 64
                },
    {
        let all = self.pseudo_legal(piece, from);
        let kept = self.legal_for_piece(piece, from);
        self.lemma_pseudo_legal_good(piece, from);
        lemma_filter_from(all, king_safe(self.mover()));
        assert forall|i: int| 0 <= i < kept.len() implies {
            &&& (#[trigger] kept[i]).1.wf()
            &&& kept[i].1.ply == self.ply + 1
            &&& kept[i].0 < 64
        } by {
            assert(all.contains(kept[i]));
            let j = choose|j: int| 0 <= j < all.len() && all[j] == kept[i];
            assert(self.good_step(all[j]));
            assert(king_safe(self.mover())(kept[i]));
        }
    }

    /// The legal moves of pieces of the mover lead from a well-formed
    /// position to well-formed positions one ply on.
    pub proof fn lemma_legal_moves_of_wf(self, pieces: Seq<(PieceType, usize)>)
        requires
            self.wf(),
            self.ply < usize::MAX,
            forall|i: int|
                0 <= i < pieces.len() ==> {
                    let e = #[trigger] pieces[i];
                    e.1 < 64 && self.board.at(e.1 as int) == Some((e.0, self.mover()))
                },
        ensures
            forall|i: int|
                0 <= i < self.legal_moves_of(pieces).len() ==> {
                    &&& (#[trigger] self.legal_moves_of(pieces)[i]).wf()
                    &&& self.legal_moves_of(pieces)[i].ply == self.ply + 1
                },
        decreases pieces.len(),
    {
        if pieces.len() > 0 {
            let front = pieces.drop_last();
            assert forall|i: int| 0 <= i < front.len() implies {
                let e = #[trigger] front[i];
                e.1 < 64 && self.board.at(e.1 as int) == Some((e.0, self.mover()))
            } by {
                assert(front[i] == pieces[i]);
            }
            self.lemma_legal_moves_of_wf(front);
            let e = pieces.last();
            assert(e == pieces[pieces.len() - 1]);
            self.lemma_legal_for_piece_wf(e.0, e.1 as int);
            let head = self.legal_moves_of(front);
            let moves = self.legal_for_piece(e.0, e.1 as int);
            let tail = states_of(moves);
            let all = self.legal_moves_of(pieces);
            assert forall|i: int| 0 <= i < all.len() implies {
                &&& (#[trigger] all[i]).wf()
                &&& all[i].ply == self.ply + 1
            } by {
                if i < head.len() {
                    assert(all[i] == head[i]);
                } else {
                    assert(all[i] == tail[i - head.len()]);
                    assert(tail[i - head.len()] == moves[i - head.len()].1);
                }
            }
        }
    }

    /// A legal move leads from a well-formed position to a well-formed
    /// position one ply on, with the other side to move.
    pub proof fn lemma_legal_moves_wf(self)
        requires
            self.wf(),
            self.ply < usize::MAX,
        ensures
            forall|i: int|
                0 <= i < self.legal_moves().len() ==> {
                    &&& (#[trigger] self.legal_moves()[i]).wf()
                    &&& self.legal_moves()[i].ply == self.ply + 1
                    &&& self.legal_moves()[i].mover() == self.mover().other()
                },
    {
        self.board.lemma_pieces_with_pos(self.mover(), 64);
        self.lemma_legal_moves_of_wf(self.board.pieces_with_pos_below(self.mover(), 64));
    }

    /// The legal moves of `piece`, which stands on `pos` and belongs to the
    /// side to move: each is given as the square the piece lands on and the
    /// position that results, which is well formed again.
    pub fn get_legal_moves_for_single_piece(&self, piece: PieceType, pos: usize) -> (moves: Vec<
        (usize, GameState),
    >)
        requires
            self.wf(),
            pos < 64,
            self.ply < usize::MAX,
            self.board.at(pos as int) == Some((piece, self.mover())),
        ensures
            moves@ == self.legal_for_piece(piece, pos as int),
            forall|i: int|
                0 <= i < moves@.len() ==> {
                    &&& (#[trigger] moves@[i]).1.wf()
                    &&& moves@[i].1.ply == self.ply + 1
                    &&& moves@[i].0 < 64
                },
    {
        let candidates = self.get_pseudo_legal_moves_for_single_piece(piece, pos);
        let player = self.turn();
        let mut moves: Vec<(usize, GameState)> = Vec::new();
        let mut n: usize = 0;
        proof {
            self.lemma_pseudo_legal_good(piece, pos as int);
            reveal(Seq::filter);
            assert(candidates@.take(0) =~= Seq::empty());
        }
        while n < candidates.len()
            invariant
                n <= candidates.len(),
                player == self.mover(),
                self.ply < usize::MAX,
                self.all_good(candidates@),
                moves@ == candidates@.take(n as int).filter(king_safe(player)),
                forall|i: int|
                    0 <= i < moves@.len() ==> {
                        &&& (#[trigger] moves@[i]).1.wf()
                        &&& moves@[i].1.ply == self.ply + 1
                        &&& moves@[i].0 < 64
                    },
            decreases candidates.len() - n,
        {
            let candidate = candidates[n];
            proof {
                assert(self.good_step(candidates@[n as int]));
                reveal(Seq::filter);
                assert(candidates@.take(n + 1).drop_last() =~= candidates@.take(n as int));
            }
            if !candidate.1.board.king_in_check(player) {
                moves.push(candidate);
            }
            n = n + 1;
        }
        assert(candidates@.take(n as int) =~= candidates@);
        moves
    }

    /// The positions after the legal moves of the side to move, its pieces
    /// taken in the order of their squares. Each is well formed again.
    pub fn get_legal_moves(&self) -> (new_states: Vec<GameState>)
        requires
            self.wf(),
            self.ply < usize::MAX,
        ensures
            new_states@ == self.legal_moves(),
            forall|i: int|
                0 <= i < new_states@.len() ==> {
                    &&& (#[trigger] new_states@[i]).wf()
                    &&& new_states@[i].ply == self.ply + 1
                },
    {
        let mut new_states: Vec<GameState> = Vec::new();
        let pieces = self.board.get_pieces_with_pos(self.turn());
        let mut n: usize = 0;
        proof {
            self.board.lemma_pieces_with_pos(self.mover(), 64);
            assert(pieces@.take(0) =~= Seq::empty());
        }
        while n < pieces.len()
            invariant
                n <= pieces.len(),
                self.wf(),
                self.ply < usize::MAX,
                pieces@ == self.board.pieces_with_pos_below(self.mover(), 64),
                forall|i: int|
                    0 <= i < pieces@.len() ==> {
                        let e = #[trigger] pieces@[i];
                        e.1 < 64 && self.board.at(e.1 as int) == Some((e.0, self.mover()))
                    },
                new_states@ == self.legal_moves_of(pieces@.take(n as int)),
                forall|i: int|
                    0 <= i < new_states@.len() ==> {
                        &&& (#[trigger] new_states@[i]).wf()
                        &&& new_states@[i].ply == self.ply + 1
                    },
            decreases pieces.len() - n,
        {
            let (piece, pos) = pieces[n];
            let moves = self.get_legal_moves_for_single_piece(piece, pos);
            let ghost before = new_states@;
            let mut i: usize = 0;
            while i < moves.len()
                invariant
                    i <= moves.len(),
                    new_states@ == before + states_of(moves@.take(i as int)),
                    forall|j: int|
                        0 <= j < moves@.len() ==> {
                            &&& (#[trigger] moves@[j]).1.wf()
                            &&& moves@[j].1.ply == self.ply + 1
                        },
                    forall|j: int|
                        0 <= j < new_states@.len() ==> {
                            &&& (#[trigger] new_states@[j]).wf()
                            &&& new_states@[j].ply == self.ply + 1
                        },
                decreases moves.len() - i,
            {
                let (_new_pos, new_state) = moves[i];
                new_states.push(new_state);
                proof {
                    assert(new_states@ =~= before + states_of(moves@.take(i + 1)));
                }
                i = i + 1;
            }
            proof {
                assert(moves@.take(i as int) =~= moves@);
                assert(pieces@.take(n + 1).drop_last() =~= pieces@.take(n as int));
                assert(pieces@.take(n + 1).last() == pieces@[n as int]);
            }
            n = n + 1;
        }
        assert(pieces@.take(n as int) =~= pieces@);
        new_states
    }
}

} // verus!
