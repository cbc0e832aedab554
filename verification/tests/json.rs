use chaichess::codec::{decode_square, encode_square};
use chaichess::game::{BoardState, EnPassantFieldInfo, GameState, PieceType, Player};
use chaichess::json::{encode_moves, from_json, to_json, JsonError};
use chaichess::{get_legal_moves_for_single_piece, get_minimax_move, new_game};

fn follow(game: &GameState, from: usize, to: usize) -> GameState {
    let piece = game.board.fields[from].unwrap().0;
    let moves = game.get_legal_moves_for_single_piece(piece, from);
    moves.into_iter().find(|m| m.0 == to).expect("a legal move").1
}

fn after_double_step() -> GameState {
    let mut game = GameState::new();
    for &(from, to) in &[(15, 23), (51, 35), (23, 31), (35, 27), (12, 28)] {
        game = follow(&game, from, to);
    }
    game
}

fn mated() -> GameState {
    let mut game = GameState::new();
    for &(from, to) in &[(13, 21), (52, 36), (14, 30), (59, 31)] {
        game = follow(&game, from, to);
    }
    game
}

fn numbers_of(text: &str) -> Vec<u64> {
    serde_json::from_str(text).expect("a JSON list of numbers")
}

#[test]
fn squares_have_numbers_of_their_own() {
    assert_eq!(encode_square(None), 0);
    assert_eq!(encode_square(Some((PieceType::InitKing, Player::Black))), 1);
    assert_eq!(encode_square(Some((PieceType::InitKing, Player::White))), 2);
    assert_eq!(encode_square(Some((PieceType::King, Player::Black))), 3);
    assert_eq!(encode_square(Some((PieceType::Queen, Player::White))), 6);
    assert_eq!(encode_square(Some((PieceType::InitRook, Player::Black))), 7);
    assert_eq!(encode_square(Some((PieceType::Rook, Player::Black))), 9);
    assert_eq!(encode_square(Some((PieceType::Bishop, Player::White))), 12);
    assert_eq!(encode_square(Some((PieceType::Knight, Player::Black))), 13);
    assert_eq!(encode_square(Some((PieceType::InitPawn, Player::White))), 16);
    assert_eq!(encode_square(Some((PieceType::Pawn, Player::Black))), 17);
    assert_eq!(encode_square(Some((PieceType::Pawn, Player::White))), 18);
    for code in 0..=18 {
        let square = decode_square(code).expect("a square");
        assert_eq!(encode_square(square), code);
    }
    assert_eq!(decode_square(19), None);
    assert_eq!(decode_square(u64::MAX), None);
}

#[test]
fn numbers_of_the_start() {
    let numbers = GameState::new().encode();
    assert_eq!(numbers.len(), 69);
    assert_eq!(&numbers[..5], &[0, 0, 0, 255, 255]);
    assert_eq!(&numbers[5..13], &[8, 14, 12, 6, 2, 12, 14, 8]);
    assert_eq!(&numbers[13..21], &[16; 8]);
    assert_eq!(&numbers[21..53], &[0; 32]);
    assert_eq!(&numbers[53..61], &[15; 8]);
    assert_eq!(&numbers[61..69], &[7, 13, 11, 5, 1, 11, 13, 7]);
}

#[test]
fn numbers_round_trip() {
    let mut games = vec![GameState::new(), after_double_step(), mated()];
    games.push(GameState {
        ply: usize::MAX,
        fifty_move_rule_last_event: 17,
        board: BoardState {
            fields: [Some((PieceType::Pawn, Player::Black)); 64],
            en_passant_field: EnPassantFieldInfo { ply: 3, skipped: 0, target: usize::MAX },
        },
    });
    for game in games {
        let back = GameState::decode(&game.encode()).expect("a position");
        assert_eq!(back, game);
        assert_eq!(back.board.en_passant_field, game.board.en_passant_field);
        assert_eq!(back.encode(), game.encode());
    }
    let moved = after_double_step();
    let back = GameState::decode(&moved.encode()).unwrap();
    assert_eq!(back.board.en_passant_field, EnPassantFieldInfo { ply: 4, skipped: 20, target: 28 });
    assert_eq!(back.board.fields[4], Some((PieceType::InitKing, Player::White)));
    assert_eq!(back.board.fields[28], Some((PieceType::Pawn, Player::White)));
    assert_eq!(back.board.fields[8], Some((PieceType::InitPawn, Player::White)));
}

#[test]
fn numbers_that_encode_nothing() {
    assert_eq!(GameState::decode(&vec![]), None);
    assert_eq!(GameState::decode(&vec![0; 68]), None);
    assert_eq!(GameState::decode(&vec![0; 70]), None);
    assert!(GameState::decode(&vec![0; 69]).is_some());
    let mut numbers = GameState::new().encode();
    numbers[68] = 19;
    assert_eq!(GameState::decode(&numbers), None);
    numbers[68] = 18;
    assert!(GameState::decode(&numbers).is_some());
    numbers[5] = 1000;
    assert_eq!(GameState::decode(&numbers), None);
}

#[test]
fn json_round_trip() {
    for game in [GameState::new(), after_double_step(), mated()] {
        let text = to_json(&game).expect("JSON text");
        assert_eq!(from_json(&text), Ok(game));
        assert_eq!(numbers_of(&text), game.encode());
    }
    let text = to_json(&GameState::new()).unwrap();
    assert!(text.starts_with("[0,0,0,255,255,8,14,12,6,2,12,14,8,16,"));
    assert!(text.ends_with(",7,13,11,5,1,11,13,7]"));
    // Unmoved kings, rooks and pawns stay unmoved.
    let back = from_json(&text).unwrap();
    assert_eq!(back.get_legal_moves().len(), 20);
    assert_eq!(back.board.fields[0], Some((PieceType::InitRook, Player::White)));
}

#[test]
fn json_that_holds_no_position() {
    assert_eq!(from_json("hello"), Err(JsonError::NotJson));
    assert_eq!(from_json(""), Err(JsonError::NotJson));
    assert_eq!(from_json("{\"ply\": 0}"), Err(JsonError::NotJson));
    assert_eq!(from_json("[1, -2, 3]"), Err(JsonError::NotJson));
    assert_eq!(from_json("[1, 2.5]"), Err(JsonError::NotJson));
    assert_eq!(from_json("[1, 2, 3]"), Err(JsonError::NotAPosition));
    assert_eq!(from_json("[]"), Err(JsonError::NotAPosition));
    let mut numbers = GameState::new().encode();
    numbers[10] = 99;
    let text = serde_json::to_string(&numbers).unwrap();
    assert_eq!(from_json(&text), Err(JsonError::NotAPosition));
    let spaced = format!(" {} ", to_json(&GameState::new()).unwrap().replace(",", " , "));
    assert_eq!(from_json(&spaced), Ok(GameState::new()));
}

#[test]
fn a_new_game_as_json() {
    let text = new_game().expect("JSON text");
    assert_eq!(from_json(&text), Ok(GameState::new()));
    assert_eq!(Ok(text), to_json(&GameState::new()));
}

#[test]
fn legal_moves_of_a_piece_as_json() {
    let start = new_game().unwrap();
    let text = get_legal_moves_for_single_piece(start.clone(), 12).expect("JSON text");
    let numbers = numbers_of(&text);
    assert_eq!(numbers.len(), 2 * 70);
    let game = GameState::new();
    let moves = game.get_legal_moves_for_single_piece(PieceType::InitPawn, 12);
    assert_eq!(numbers, encode_moves(&moves));
    assert_eq!(numbers[0], 20);
    assert_eq!(GameState::decode(&numbers[1..70].to_vec()), Some(moves[0].1));
    assert_eq!(numbers[70], 28);
    assert_eq!(GameState::decode(&numbers[71..].to_vec()), Some(moves[1].1));
    assert_eq!(get_legal_moves_for_single_piece(start.clone(), 0), Ok("[]".to_string()));
    assert_eq!(encode_moves(&vec![]), Vec::<u64>::new());
}

#[test]
fn legal_moves_asked_for_in_vain() {
    let start = new_game().unwrap();
    assert_eq!(get_legal_moves_for_single_piece(start.clone(), 30), Err(JsonError::NoPiece));
    assert_eq!(get_legal_moves_for_single_piece(start.clone(), 52), Err(JsonError::NoPiece));
    assert_eq!(get_legal_moves_for_single_piece(start.clone(), 64), Err(JsonError::NoPiece));
    assert_eq!(
        get_legal_moves_for_single_piece("no json".to_string(), 12),
        Err(JsonError::NotJson)
    );
    assert_eq!(
        get_legal_moves_for_single_piece("[1,2]".to_string(), 12),
        Err(JsonError::NotAPosition)
    );
    let no_kings = to_json(&GameState::decode(&vec![0; 69]).unwrap()).unwrap();
    assert_eq!(get_legal_moves_for_single_piece(no_kings, 12), Err(JsonError::NotPlayable));
    let at_the_end = to_json(&GameState { ply: usize::MAX, ..GameState::new() }).unwrap();
    assert_eq!(get_legal_moves_for_single_piece(at_the_end, 12), Err(JsonError::NotPlayable));
}

#[test]
fn the_engine_answers_in_json() {
    let start = new_game().unwrap();
    let text = get_minimax_move(start).expect("JSON text");
    let next = from_json(&text).expect("a position");
    assert_eq!(next.ply, 1);
    assert!(GameState::new().get_legal_moves().contains(&next));
    assert_eq!(
        get_minimax_move(to_json(&mated()).unwrap()),
        Err(JsonError::NoMove)
    );
    assert_eq!(get_minimax_move("[".to_string()), Err(JsonError::NotJson));
    assert_eq!(get_minimax_move("[0]".to_string()), Err(JsonError::NotAPosition));
    let too_late = to_json(&GameState {
        ply: usize::MAX - 2,
        fifty_move_rule_last_event: usize::MAX - 2,
        ..GameState::new()
    })
    .unwrap();
    assert_eq!(get_minimax_move(too_late), Err(JsonError::NotPlayable));
}
