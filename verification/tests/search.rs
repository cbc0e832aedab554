use chaichess::game::{BoardState, EnPassantFieldInfo, GameState, PieceType, Player};
use chaichess::json::minimax_move;
use chaichess::minimax::{alphabeta, alphabeta_init, minimax, weighted_piececount};
use chaichess::util::pick;

fn opening() -> GameState {
    GameState::new()
}

fn position(ply: usize, pieces: &[(usize, PieceType, Player)]) -> GameState {
    let mut board = BoardState {
        fields: [None; 64],
        en_passant_field: EnPassantFieldInfo { ply: 0, skipped: 0xFF, target: 0xFF },
    };
    for &(pos, piece, player) in pieces {
        board.fields[pos] = Some((piece, player));
    }
    GameState { ply, fifty_move_rule_last_event: 0, board }
}

fn advance(game: &GameState, from: usize, to: usize) -> GameState {
    let piece = game.board.fields[from].unwrap().0;
    let moves = game.get_legal_moves_for_single_piece(piece, from);
    moves.into_iter().find(|m| m.0 == to).expect("a legal move").1
}

fn checkmated() -> GameState {
    let mut game = opening();
    for &(from, to) in &[(13, 21), (52, 36), (14, 30), (59, 31)] {
        game = advance(&game, from, to);
    }
    game
}

fn some_positions() -> Vec<GameState> {
    let mut games = vec![opening()];
    let mut game = opening();
    for &(from, to) in &[(12, 28), (52, 36), (6, 21), (57, 42), (5, 26), (61, 34), (3, 12)] {
        game = advance(&game, from, to);
        games.push(game);
    }
    games.push(position(
        0,
        &[
            (4, PieceType::InitKing, Player::White),
            (7, PieceType::InitRook, Player::White),
            (60, PieceType::King, Player::Black),
            (48, PieceType::Pawn, Player::White),
            (9, PieceType::Pawn, Player::Black),
            (35, PieceType::Queen, Player::Black),
        ],
    ));
    games.push(position(
        1,
        &[
            (63, PieceType::King, Player::Black),
            (46, PieceType::King, Player::White),
            (8, PieceType::Rook, Player::White),
            (18, PieceType::Knight, Player::Black),
        ],
    ));
    games
}

#[test]
fn material_balance() {
    assert_eq!(weighted_piececount(opening()), 0);
    let mut game = opening();
    game.board.fields[59] = None;
    assert_eq!(weighted_piececount(game), 90);
    game.board.fields[0] = None;
    assert_eq!(weighted_piececount(game), 40);
    game.board.fields[1] = None;
    game.board.fields[2] = None;
    assert_eq!(weighted_piececount(game), -20);
    game.board.fields[48] = None;
    assert_eq!(weighted_piececount(game), -10);
    game.board.fields[4] = None;
    assert_eq!(weighted_piececount(game), -10);
    let all_white = position(
        0,
        &[
            (0, PieceType::King, Player::White),
            (1, PieceType::Queen, Player::White),
            (2, PieceType::Rook, Player::White),
            (3, PieceType::InitRook, Player::White),
            (4, PieceType::Bishop, Player::White),
            (5, PieceType::Knight, Player::White),
            (6, PieceType::Pawn, Player::White),
            (7, PieceType::InitPawn, Player::White),
            (8, PieceType::InitKing, Player::White),
        ],
    );
    assert_eq!(weighted_piececount(all_white), 90 + 50 + 50 + 30 + 30 + 10 + 10);
    let only_black = position(0, &[(1, PieceType::Queen, Player::Black)]);
    assert_eq!(weighted_piececount(only_black), -90);
}

#[test]
fn depth_zero_gives_the_heuristic_value() {
    let mut game = opening();
    game.board.fields[59] = None;
    assert_eq!(minimax(game, 0, &weighted_piececount), (90, vec![], 1));
    assert_eq!(alphabeta_init(game, 0, &weighted_piececount), (90, vec![], 1));
    assert_eq!(alphabeta(game, 0, 5, -5, &weighted_piececount), (90, vec![], 1));
    let constant = |_: GameState| 7;
    assert_eq!(minimax(game, 0, &constant), (7, vec![], 1));
}

#[test]
fn a_quiet_draw_overrides_the_depth() {
    let game = GameState { ply: 150, ..opening() };
    assert_eq!(minimax(game, 3, &weighted_piececount), (0, vec![], 1));
    assert_eq!(alphabeta_init(game, 3, &weighted_piececount), (0, vec![], 1));
    let mut uneven = game;
    uneven.board.fields[59] = None;
    assert_eq!(minimax(uneven, 2, &weighted_piececount), (0, vec![], 1));
    assert_eq!(minimax(uneven, 0, &weighted_piececount), (90, vec![], 1));
}

#[test]
fn a_checkmated_side_gets_the_extreme_value() {
    let game = checkmated();
    assert_eq!(game.turn(), Player::White);
    assert_eq!(minimax(game, 1, &weighted_piececount), (i32::MIN, vec![], 1));
    assert_eq!(minimax(game, 3, &weighted_piececount), (i32::MIN, vec![], 1));
    assert_eq!(alphabeta_init(game, 2, &weighted_piececount), (i32::MIN, vec![], 1));
    // Black checkmated: White rooks on the two last rows.
    let black = position(
        1,
        &[
            (60, PieceType::King, Player::Black),
            (56, PieceType::Rook, Player::White),
            (48, PieceType::Rook, Player::White),
            (4, PieceType::King, Player::White),
        ],
    );
    assert!(black.is_well_formed());
    assert_eq!(minimax(black, 2, &weighted_piececount), (i32::MAX, vec![], 1));
    assert_eq!(alphabeta_init(black, 2, &weighted_piececount), (i32::MAX, vec![], 1));
}

#[test]
fn a_stalemated_side_gets_a_draw() {
    let game = position(
        1,
        &[
            (63, PieceType::King, Player::Black),
            (53, PieceType::King, Player::White),
            (46, PieceType::Queen, Player::White),
        ],
    );
    assert_eq!(minimax(game, 2, &weighted_piececount), (0, vec![], 1));
    assert_eq!(alphabeta_init(game, 2, &weighted_piececount), (0, vec![], 1));
}

#[test]
fn minimax_counts_every_position() {
    let (value, best, nodes) = minimax(opening(), 1, &weighted_piececount);
    assert_eq!(value, 0);
    assert_eq!(nodes, 21);
    assert_eq!(best, opening().get_legal_moves());
    let (value, best, nodes) = minimax(opening(), 2, &weighted_piececount);
    assert_eq!(value, 0);
    assert_eq!(nodes, 421);
    assert_eq!(best.len(), 20);
    let (_, _, nodes) = minimax(opening(), 3, &weighted_piececount);
    assert_eq!(nodes, 1 + 20 + 400 + 8902);
}

#[test]
fn the_mover_takes_what_is_hanging() {
    // White to move takes the queen with the rook.
    let game = position(
        0,
        &[
            (4, PieceType::King, Player::White),
            (0, PieceType::Rook, Player::White),
            (56, PieceType::Queen, Player::Black),
            (62, PieceType::King, Player::Black),
        ],
    );
    assert!(game.is_well_formed());
    let (value, best, _) = minimax(game, 1, &weighted_piececount);
    assert_eq!(value, 50);
    assert_eq!(best, vec![advance(&game, 0, 56)]);
    // Black to move takes the rook with the queen.
    let reply = GameState { ply: 1, ..game };
    let (value, best, _) = minimax(reply, 1, &weighted_piececount);
    assert_eq!(value, -90);
    assert_eq!(best, vec![advance(&reply, 56, 0)]);
    assert_eq!(alphabeta_init(reply, 1, &weighted_piececount).0, -90);
}

#[test]
fn alphabeta_agrees_with_minimax() {
    for game in some_positions() {
        assert!(game.is_well_formed());
        for depth in 0..=3 {
            let full = minimax(game, depth, &weighted_piececount);
            let pruned = alphabeta_init(game, depth, &weighted_piececount);
            assert_eq!(pruned.0, full.0, "value at depth {}", depth);
            for state in &pruned.1 {
                assert!(full.1.contains(state), "best successor at depth {}", depth);
            }
            assert!(pruned.2 <= full.2);
            assert!(pruned.2 >= 1);
        }
    }
}

#[test]
fn alphabeta_prunes_at_depth_three() {
    let full = minimax(opening(), 3, &weighted_piececount);
    let pruned = alphabeta_init(opening(), 3, &weighted_piececount);
    assert_eq!(pruned.0, full.0);
    assert!(pruned.2 < full.2);
    let white = alphabeta(opening(), 3, i32::MIN, i32::MAX, &weighted_piececount);
    assert_eq!(white, pruned);
}

#[test]
fn search_is_deterministic() {
    let game = some_positions()[3];
    assert_eq!(
        minimax(game, 2, &weighted_piececount),
        minimax(game, 2, &weighted_piececount)
    );
    assert_eq!(
        alphabeta_init(game, 3, &weighted_piececount),
        alphabeta_init(game, 3, &weighted_piececount)
    );
}

#[test]
fn picking_takes_one_of_the_elements() {
    assert_eq!(pick(Vec::<u8>::new()), None);
    assert_eq!(pick(vec![7u8]), Some(7));
    let mut seen = [false; 4];
    for _ in 0..400 {
        let x = pick(vec![0usize, 1, 2, 3]).unwrap();
        assert!(x < 4);
        seen[x] = true;
    }
    assert_eq!(seen, [true; 4]);
}

#[test]
fn the_engine_moves_to_one_of_the_best() {
    let game = some_positions()[2];
    let best = alphabeta_init(game, 3, &weighted_piececount).1;
    for _ in 0..3 {
        let next = minimax_move(game).unwrap();
        assert!(best.contains(&next));
    }
    assert_eq!(minimax_move(checkmated()), None);
}
