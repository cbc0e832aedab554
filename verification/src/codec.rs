//! A position as a list of numbers, and back.
//!
//! The list holds the ply, the ply of the last event and the remembered
//! double step, and then one number for each square. Unmoved pieces have
//! numbers of their own, so castling rights and the right to a double step
//! survive the round trip.

use vstd::prelude::*;
use crate::game::{BoardState, EnPassantFieldInfo, GameState, PieceType, Player};

verus! {

/// How many numbers encode a position.
pub const ENCODED_LEN: usize = 69;

/// The number of a kind of piece.
pub open spec fn kind_code(kind: PieceType) -> int {
    match kind {
        PieceType::InitKing => 0,
        PieceType::King => 1,
        PieceType::Queen => 2,
        PieceType::InitRook => 3,
        PieceType::Rook => 4,
        PieceType::Bishop => 5,
        PieceType::Knight => 6,
        PieceType::InitPawn => 7,
        PieceType::Pawn => 8,
    }
}

/// The number of what stands on a square: 0 for nothing, else one more
/// than twice the number of the kind, and one more again for White.
pub open spec fn square_code(square: Option<(PieceType, Player)>) -> u64 {
    match square {
        None => 0,
        Some((kind, Player::Black)) => (1 + 2 * kind_code(kind)) as u64,
        Some((kind, Player::White)) => (2 + 2 * kind_code(kind)) as u64,
    }
}

/// The numbers that encode a position.
pub open spec fn encode_spec(g: GameState) -> Seq<u64> {
    seq![
        g.ply as u64,
        g.fifty_move_rule_last_event as u64,
        g.board.en_passant_field.ply as u64,
        g.board.en_passant_field.skipped as u64,
        g.board.en_passant_field.target as u64,
    ] + Seq::new(64, |i: int| square_code(g.board.at(i)))
}

/// The position that the numbers encode, if they encode one.
pub open spec fn decode_spec(numbers: Seq<u64>) -> Option<GameState> {
    if exists|g: GameState| encode_spec(g) == numbers {
        Some(choose|g: GameState| encode_spec(g) == numbers)
    } else {
        None
    }
}

/// Different positions have different numbers.
pub proof fn lemma_encode_injective(a: GameState, b: GameState)
    requires
        encode_spec(a) == encode_spec(b),
    ensures
        a == b,
{
    let s = encode_spec(a);
    let t = encode_spec(b);
    assert(s[0] == t[0] && s[1] == t[1] && s[2] == t[2] && s[3] == t[3] && s[4] == t[4]);
    assert forall|i: int| 0 <= i < 64 implies a.board.fields[i] == b.board.fields[i] by {
        assert(s[5 + i] == square_code(a.board.at(i)));
        assert(t[5 + i] == square_code(b.board.at(i)));
    }
    assert(a.board.fields =~= b.board.fields);
}

/// Decoding the numbers of a position gives the position back: the ply
/// counters, the remembered double step, and every piece with its mark of
/// not having moved.
pub proof fn lemma_decode_encode(g: GameState)
    ensures
        decode_spec(encode_spec(g)) == Some(g),
{
    let back = choose|x: GameState| encode_spec(x) == encode_spec(g);
    lemma_encode_injective(back, g);
}

/// The number of what stands on a square.
pub fn encode_square(square: Option<(PieceType, Player)>) -> (code: u64)
    ensures
        code == square_code(square),
        code <= 18,
{
    match square {
        None => 0,
        Some((kind, player)) => {
            let k: u64 = match kind {
                PieceType::InitKing => 0,
                PieceType::King => 1,
                PieceType::Queen => 2,
                PieceType::InitRook => 3,
                PieceType::Rook => 4,
                PieceType::Bishop => 5,
                PieceType::Knight => 6,
                PieceType::InitPawn => 7,
                PieceType::Pawn => 8,
            };
            match player {
                Player::Black => 1 + 2 * k,
                Player::White => 2 + 2 * k,
            }
        },
    }
}

/// What the number stands for on a square, if it is the number of
/// anything.
pub fn decode_square(code: u64) -> (r: Option<Option<(PieceType, Player)>>)
    ensures
        r matches Some(square) ==> square_code(square) == code,
        r is None ==> forall|square: Option<(PieceType, Player)>| square_code(square) != code,
{
    if code == 0 {
        return Some(None);
    }
    if code > 18 {
        return None;
    }
    let player = if code % 2 == 1 {
        Player::Black
    } else {
        Player::White
    };
    let kind = match (code - 1) / 2 {
        0 => PieceType::InitKing,
        1 => PieceType::King,
        2 => PieceType::Queen,
        3 => PieceType::InitRook,
        4 => PieceType::Rook,
        5 => PieceType::Bishop,
        6 => PieceType::Knight,
        7 => PieceType::InitPawn,
        _ => PieceType::Pawn,
    };
    Some(Some((kind, player)))
}

/// A number of the list as an index or a ply, if it is small enough for
/// this machine.
fn decode_number(number: u64) -> (r: Option<usize>)
    ensures
        r matches Some(n) ==> n as u64 == number,
        r is None ==> number > usize::MAX,
{
    if number > usize::MAX as u64 {
        None
    } else {
        Some(number as usize)
    }
}

impl GameState {
    /// The numbers that encode the position.
    pub fn encode(&self) -> (numbers: Vec<u64>)
        ensures
            numbers@ == encode_spec(*self),
    {
        let mut numbers: Vec<u64> = Vec::with_capacity(ENCODED_LEN);
        numbers.push(self.ply as u64);
        numbers.push(self.fifty_move_rule_last_event as u64);
        numbers.push(self.board.en_passant_field.ply as u64);
        numbers.push(self.board.en_passant_field.skipped as u64);
        numbers.push(self.board.en_passant_field.target as u64);
        let mut pos: usize = 0;
        while pos < 64
            invariant
                pos <= 64,
                numbers@.len() == 5 + pos,
                numbers@[0] == self.ply as u64,
                numbers@[1] == self.fifty_move_rule_last_event as u64,
                numbers@[2] == self.board.en_passant_field.ply as u64,
                numbers@[3] == self.board.en_passant_field.skipped as u64,
                numbers@[4] == self.board.en_passant_field.target as u64,
                forall|i: int| 0 <= i < pos ==> numbers@[5 + i] == square_code(self.board.at(i)),
            decreases 64 - pos,
        {
            numbers.push(encode_square(self.board.fields[pos]));
            pos = pos + 1;
        }
        assert(numbers@ =~= encode_spec(*self));
        numbers
    }

    /// The position that the numbers encode, if they encode one.
    pub fn decode(numbers: &Vec<u64>) -> (r: Option<GameState>)
        ensures
            r == decode_spec(numbers@),
    {
        if numbers.len() != ENCODED_LEN {
            assert forall|g: GameState| encode_spec(g) != numbers@ by {
                assert(encode_spec(g).len() == 69);
            }
            return None;
        }
        let head = (
            decode_number(numbers[0]),
            decode_number(numbers[1]),
            decode_number(numbers[2]),
            decode_number(numbers[3]),
            decode_number(numbers[4]),
        );
        let (ply, last, double_ply, skipped, target) = match head {
            (Some(a), Some(b), Some(c), Some(d), Some(e)) => (a, b, c, d, e),
            _ => {
                assert forall|g: GameState| encode_spec(g) != numbers@ by {
                    let s = encode_spec(g);
                    assert(s[0] == g.ply as u64);
                    assert(s[1] == g.fifty_move_rule_last_event as u64);
                    assert(s[2] == g.board.en_passant_field.ply as u64);
                    assert(s[3] == g.board.en_passant_field.skipped as u64);
                    assert(s[4] == g.board.en_passant_field.target as u64);
                }
                return None;
            },
        };
        let mut fields: [Option<(PieceType, Player)>; 64] = [None;64];
        let mut pos: usize = 0;
        while pos < 64
            invariant
                pos <= 64,
                numbers@.len() == 69,
                forall|i: int| 0 <= i < pos ==> square_code(#[trigger] fields@[i]) == numbers@[5 + i],
            decreases 64 - pos,
        {
            match decode_square(numbers[5 + pos]) {
                Some(square) => {
                    fields[pos] = square;
                },
                None => {
                    assert forall|g: GameState| encode_spec(g) != numbers@ by {
                        assert(encode_spec(g)[5 + pos] == square_code(g.board.at(pos as int)));
                    }
                    return None;
                },
            }
            pos = pos + 1;
        }
        let game = GameState {
            ply,
            fifty_move_rule_last_event: last,
            board: BoardState {
                fields,
                en_passant_field: EnPassantFieldInfo { ply: double_ply, skipped, target },
            },
        };
        proof {
            assert(encode_spec(game) =~= numbers@);
            let found = choose|g: GameState| encode_spec(g) == numbers@;
            lemma_encode_injective(found, game);
        }
        Some(game)
    }
}

} // verus!
