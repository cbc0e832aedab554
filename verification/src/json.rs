//! Positions as JSON text, and the three calls that speak JSON: a new
//! game, the legal moves of a piece, and the engine's move.
//!
//! A position travels as a JSON list of the numbers that encode it. The
//! text is written and read by serde_json; what the numbers mean is this
//! crate's own.

use vstd::prelude::*;
use crate::codec::{decode_spec, encode_spec};
use crate::game::GameState;
use crate::minimax::{
    alphabeta_init, alphabeta_init_spec, lemma_material_is_heuristic, material_fn,
    weighted_piececount,
};
use crate::util::pick;

verus! {

/// The error of serde_json.
#[verifier::external_type_specification]
#[verifier::external_body]
pub struct ExJsonError(serde_json::Error);

/// The JSON text that serde_json writes for a list of numbers, or nothing
/// where it fails.
pub uninterp spec fn json_text(numbers: Seq<u64>) -> Option<Seq<char>>;

/// The list of numbers that serde_json reads from a text, or nothing where
/// it fails.
pub uninterp spec fn json_numbers(text: Seq<char>) -> Option<Seq<u64>>;

/// `serde_json::to_string` on a list of numbers. What it gives depends on
/// the numbers alone; the text it writes is `json_text` of them.
#[verifier::external_body]
fn numbers_to_json(numbers: &Vec<u64>) -> (r: Result<String, serde_json::Error>)
    ensures
        match r {
            Ok(text) => json_text(numbers@) == Some(text@),
            Err(_) => json_text(numbers@) is None,
        },
{
    serde_json::to_string(numbers)
}

/// `serde_json::from_str` for a list of numbers. What it gives depends on
/// the text alone; the numbers it reads are `json_numbers` of the text.
#[verifier::external_body]
fn numbers_from_json(text: &str) -> (r: Result<Vec<u64>, serde_json::Error>)
    ensures
        match r {
            Ok(numbers) => json_numbers(text@) == Some(numbers@),
            Err(_) => json_numbers(text@) is None,
        },
{
    serde_json::from_str(text)
}

/// Why a call that speaks JSON gives no answer.
#[derive(Debug, Clone, Copy, PartialEq, Eq, Structural)]
pub enum JsonError {
    /// The text is no JSON list of numbers.
    NotJson,
    /// The numbers do not encode a position.
    NotAPosition,
    /// The position is not well formed, or its ply counter is at its end.
    NotPlayable,
    /// The square asked for is off the board, or holds no piece of the side
    /// to move.
    NoPiece,
    /// The game is over: there is no move to make.
    NoMove,
    /// The answer could not be written as JSON.
    NotWritten,
}

/// The numbers for a list of moves: for each move the square the piece
/// lands on, and then the numbers of the position.
pub open spec fn encode_moves_spec(moves: Seq<(usize, GameState)>) -> Seq<u64>
    decreases moves.len(),
{
    if moves.len() == 0 {
        Seq::empty()
    } else {
        encode_moves_spec(moves.drop_last()).push(moves.last().0 as u64) + encode_spec(
            moves.last().1,
        )
    }
}

/// What reading a position from `text` gives: the position that the
/// numbers in the text encode.
pub open spec fn from_json_spec(text: Seq<char>) -> Result<GameState, JsonError> {
    match json_numbers(text) {
        None => Err(JsonError::NotJson),
        Some(numbers) => match decode_spec(numbers) {
            None => Err(JsonError::NotAPosition),
            Some(game) => Ok(game),
        },
    }
}

/// What writing numbers as JSON gives.
pub open spec fn write_spec(numbers: Seq<u64>, text: Result<String, JsonError>) -> bool {
    match text {
        Ok(t) => json_text(numbers) == Some(t@),
        Err(e) => e == JsonError::NotWritten && json_text(numbers) is None,
    }
}

/// What reading a position that can be played on gives: as `from_json_spec`,
/// but only a well-formed position that has `plies` plies left on its
/// counter is let through.
pub open spec fn playable_spec(text: Seq<char>, plies: int) -> Result<GameState, JsonError> {
    match from_json_spec(text) {
        Err(e) => Err(e),
        Ok(game) => if game.wf() && game.ply + plies <= usize::MAX {
            Ok(game)
        } else {
            Err(JsonError::NotPlayable)
        },
    }
}

/// The depth to which the engine searches for its move.
pub const SEARCH_DEPTH: usize = 3;

/// JSON text for a list of numbers.
fn write(numbers: &Vec<u64>) -> (r: Result<String, JsonError>)
    ensures
        write_spec(numbers@, r),
{
    match numbers_to_json(numbers) {
        Ok(text) => Ok(text),
        Err(_) => Err(JsonError::NotWritten),
    }
}

/// The position as JSON text.
pub fn to_json(game: &GameState) -> (r: Result<String, JsonError>)
    ensures
        write_spec(encode_spec(*game), r),
{
    let numbers = game.encode();
    write(&numbers)
}

/// The position that a JSON text holds.
pub fn from_json(text: &str) -> (r: Result<GameState, JsonError>)
    ensures
        r == from_json_spec(text@),
{
    match numbers_from_json(text) {
        Err(_) => Err(JsonError::NotJson),
        Ok(numbers) => match GameState::decode(&numbers) {
            None => Err(JsonError::NotAPosition),
            Some(game) => Ok(game),
        },
    }
}

/// The position that a JSON text holds, if it can be played on for
/// `plies` plies.
fn playable(text: &str, plies: usize) -> (r: Result<GameState, JsonError>)
    ensures
        r == playable_spec(text@, plies as int),
{
    match from_json(text) {
        Err(e) => Err(e),
        Ok(game) => {
            if game.is_well_formed() && game.ply <= usize::MAX - plies {
                Ok(game)
            } else {
                Err(JsonError::NotPlayable)
            }
        },
    }
}

/// The numbers for a list of moves.
pub fn encode_moves(moves: &Vec<(usize, GameState)>) -> (numbers: Vec<u64>)
    ensures
        numbers@ == encode_moves_spec(moves@),
{
    let mut numbers: Vec<u64> = Vec::new();
    let mut n: usize = 0;
    assert(moves@.take(0) =~= Seq::empty());
    while n < moves.len()
        invariant
            n <= moves.len(),
            numbers@ == encode_moves_spec(moves@.take(n as int)),
        decreases moves.len() - n,
    {
        let (pos, state) = moves[n];
        let ghost before = numbers@;
        numbers.push(pos as u64);
        let encoded = state.encode();
        let mut i: usize = 0;
        while i < encoded.len()
            invariant
                i <= encoded.len(),
                numbers@ == before.push(pos as u64) + encoded@.take(i as int),
            decreases encoded.len() - i,
        {
            numbers.push(encoded[i]);
            assert(numbers@ =~= before.push(pos as u64) + encoded@.take(i + 1));
            i = i + 1;
        }
        proof {
            assert(encoded@.take(i as int) =~= encoded@);
            assert(moves@.take(n + 1).drop_last() =~= moves@.take(n as int));
        }
        n = n + 1;
    }
    assert(moves@.take(n as int) =~= moves@);
    numbers
}

/// The start of a game as JSON text.
pub fn new_game() -> (r: Result<String, JsonError>)
    ensures
        exists|game: GameState| game.is_start() && write_spec(encode_spec(game), r),
{
    let game = GameState::new();
    to_json(&game)
}

/// What the legal moves of the piece on `field` come to: the moves, or the
/// reason why there are none to give.
pub open spec fn legal_moves_request(text: Seq<char>, field: usize) -> Result<
    Seq<(usize, GameState)>,
    JsonError,
> {
    match playable_spec(text, 1) {
        Err(e) => Err(e),
        Ok(game) => if field < 64 && game.board.owned_by(field as int, game.mover()) {
            Ok(game.legal_for_piece(game.board.kind_at(field as int), field as int))
        } else {
            Err(JsonError::NoPiece)
        },
    }
}

/// The legal moves of the piece on `field` in the position that
/// `json_game` holds, as JSON text: for each move the square the piece
/// lands on and the position that results.
pub fn get_legal_moves_for_single_piece(json_game: String, field: usize) -> (r: Result<
    String,
    JsonError,
>)
    ensures
        match legal_moves_request(json_game@, field) {
            Err(e) => r == Err::<String, JsonError>(e),
            Ok(moves) => write_spec(encode_moves_spec(moves), r),
        },
{
    let game = match playable(json_game.as_str(), 1) {
        Err(e) => {
            return Err(e);
        },
        Ok(game) => game,
    };
    if field >= 64 {
        return Err(JsonError::NoPiece);
    }
    let piece = match game.board.fields[field] {
        Some((piece, owner)) => {
            if owner != game.turn() {
                return Err(JsonError::NoPiece);
            }
            piece
        },
        None => {
            return Err(JsonError::NoPiece);
        },
    };
    let moves = game.get_legal_moves_for_single_piece(piece, field);
    let numbers = encode_moves(&moves);
    write(&numbers)
}

/// The successors that the engine holds to be best: those that an
/// alpha-beta search to depth 3 with the balance of material finds.
pub open spec fn engine_choices(game: GameState) -> Seq<GameState> {
    alphabeta_init_spec(material_fn(), game, SEARCH_DEPTH as nat).best
}

/// The engine's move in a position: one of the successors that it holds
/// to be best, drawn at random, or nothing where there is none.
pub fn minimax_move(game: GameState) -> (r: Option<GameState>)
    requires
        game.wf(),
        game.ply + SEARCH_DEPTH <= usize::MAX,
    ensures
        r is None <==> engine_choices(game).len() == 0,
        r matches Some(next) ==> engine_choices(game).contains(next),
{
    proof {
        lemma_material_is_heuristic();
        crate::bounds::lemma_tree_fits(game, SEARCH_DEPTH as nat);
    }
    let alphabeta_res = alphabeta_init(game, SEARCH_DEPTH, &weighted_piececount);
    let new_states = alphabeta_res.1;
    pick(new_states)
}

/// The engine's move in the position that `json_game` holds, as JSON text
/// of the position after it.
pub fn get_minimax_move(json_game: String) -> (r: Result<String, JsonError>)
    ensures
        match playable_spec(json_game@, SEARCH_DEPTH as int) {
            Err(e) => r == Err::<String, JsonError>(e),
            Ok(game) => if engine_choices(game).len() == 0 {
                r == Err::<String, JsonError>(JsonError::NoMove)
            } else {
                exists|next: GameState|
                    engine_choices(game).contains(next) && write_spec(encode_spec(next), r)
            },
        },
{
    let game = match playable(json_game.as_str(), SEARCH_DEPTH) {
        Err(e) => {
            return Err(e);
        },
        Ok(game) => game,
    };
    match minimax_move(game) {
        None => Err(JsonError::NoMove),
        Some(next) => to_json(&next),
    }
}

} // verus!
