use chaichess::attack::AttackKind;
use chaichess::game::{
    get_steps, pos_from_rowcol, BoardState, EnPassantFieldInfo, GameState, PieceType, Player,
};
use chaichess::geometry::{get_pawn_moves, DIAGONAL, KNIGHT, STRAIGHT, STRAIGHT_AND_DIAGONAL};
use chaichess::play::{Click, GameResult};

fn start() -> GameState {
    GameState { ply: 0, fifty_move_rule_last_event: 0, board: BoardState::new() }
}

fn empty_board() -> BoardState {
    BoardState {
        fields: [None; 64],
        en_passant_field: EnPassantFieldInfo { ply: 0, skipped: 0xFF, target: 0xFF },
    }
}

fn board_with(pieces: &[(usize, PieceType, Player)]) -> BoardState {
    let mut board = empty_board();
    for &(pos, piece, player) in pieces {
        board.fields[pos] = Some((piece, player));
    }
    board
}

fn game_at(ply: usize, pieces: &[(usize, PieceType, Player)]) -> GameState {
    GameState { ply, fifty_move_rule_last_event: 0, board: board_with(pieces) }
}

/// Plays the legal move of the piece on `from` that lands on `to`.
fn play(game: &GameState, from: usize, to: usize) -> GameState {
    assert!(game.is_well_formed());
    let piece = game.board.fields[from].expect("a piece to move").0;
    let moves = game.get_legal_moves_for_single_piece(piece, from);
    let found: Vec<GameState> =
        moves.into_iter().filter(|m| m.0 == to).map(|m| m.1).collect();
    assert_eq!(found.len(), 1, "one legal move from {} to {}", from, to);
    found[0]
}

fn count_pieces(board: &BoardState) -> usize {
    board.get_pieces().len()
}

#[test]
fn initial_position_has_twenty_moves() {
    let game = start();
    assert!(game.is_well_formed());
    let moves = game.get_legal_moves();
    assert_eq!(moves.len(), 20);
    let mut pawn_moves = 0;
    let mut knight_moves = 0;
    for pos in 0..64 {
        if let Some((piece, Player::White)) = game.board.fields[pos] {
            let n = game.get_legal_moves_for_single_piece(piece, pos).len();
            match piece {
                PieceType::InitPawn => pawn_moves += n,
                PieceType::Knight => knight_moves += n,
                _ => assert_eq!(n, 0),
            }
        }
    }
    assert_eq!(pawn_moves, 16);
    assert_eq!(knight_moves, 4);
    for next in &moves {
        assert_eq!(next.ply, 1);
        assert_eq!(next.turn(), Player::Black);
        assert!(next.is_well_formed());
    }
}

#[test]
fn new_game_state_is_the_start() {
    assert_eq!(GameState::new(), start());
    assert_eq!(GameState::new().turn(), Player::White);
    assert_eq!(Player::White.opponent(), Player::Black);
    assert_eq!(Player::Black.opponent(), Player::White);
}

#[test]
fn initial_board_layout() {
    let board = BoardState::new();
    let home = [
        PieceType::InitRook,
        PieceType::Knight,
        PieceType::Bishop,
        PieceType::Queen,
        PieceType::InitKing,
        PieceType::Bishop,
        PieceType::Knight,
        PieceType::InitRook,
    ];
    for col in 0..8 {
        assert_eq!(board.fields[col], Some((home[col], Player::White)));
        assert_eq!(board.fields[8 + col], Some((PieceType::InitPawn, Player::White)));
        assert_eq!(board.fields[48 + col], Some((PieceType::InitPawn, Player::Black)));
        assert_eq!(board.fields[56 + col], Some((home[col], Player::Black)));
    }
    for pos in 16..48 {
        assert_eq!(board.fields[pos], None);
    }
    assert_eq!(board.en_passant_field, EnPassantFieldInfo { ply: 0, skipped: 0xFF, target: 0xFF });
    assert_eq!(board.get_pieces().len(), 32);
    assert_eq!(board.get_pieces()[0], (PieceType::InitRook, Player::White));
    assert_eq!(board.get_pieces()[31], (PieceType::InitRook, Player::Black));
    let black = board.get_pieces_with_pos(Player::Black);
    assert_eq!(black.len(), 16);
    assert_eq!(black[0], (PieceType::InitPawn, 48));
    assert_eq!(black[15], (PieceType::InitRook, 63));
    assert_eq!(board.find_king(Player::White), 4);
    assert_eq!(board.find_king(Player::Black), 60);
    assert_eq!(board.only_king(Player::White), Some(4));
    assert!(!board.king_in_check(Player::White));
    assert!(!board.king_in_check(Player::Black));
}

#[test]
fn squares_from_row_and_column() {
    assert_eq!(pos_from_rowcol(0, 0), Some(0));
    assert_eq!(pos_from_rowcol(7, 7), Some(63));
    assert_eq!(pos_from_rowcol(3, 4), Some(28));
    assert_eq!(pos_from_rowcol(-1, 4), None);
    assert_eq!(pos_from_rowcol(8, 0), None);
    assert_eq!(pos_from_rowcol(0, 8), None);
    assert_eq!(pos_from_rowcol(2, -1), None);
}

#[test]
fn steps_end_at_the_edge_of_the_board() {
    assert_eq!(get_steps(0, (1, 0), 7), vec![(8, 1), (16, 2), (24, 3), (32, 4), (40, 5), (48, 6), (56, 7)]);
    assert_eq!(get_steps(0, (1, 1), 3), vec![(9, 1), (18, 2), (27, 3)]);
    assert_eq!(get_steps(61, (1, 0), 7), vec![]);
    assert_eq!(get_steps(7, (0, 1), 7), vec![]);
    assert_eq!(get_steps(6, (0, 1), 7), vec![(7, 1)]);
    assert_eq!(get_steps(27, (2, 1), 1), vec![(44, 1)]);
    assert_eq!(get_steps(27, (-2, -1), 7), vec![(10, 1)]);
    assert_eq!(get_steps(27, (1, 0), 0), vec![]);
    assert_eq!(get_steps(27, (0, 0), 2), vec![(27, 1), (27, 2)]);
    assert_eq!(get_steps(27, (isize::MAX, isize::MIN), 5), vec![]);
}

#[test]
fn pawn_directions_of_both_sides() {
    let white = get_pawn_moves(Player::White);
    assert_eq!(white.0, 7);
    assert_eq!(white.1, &[(1, 0)]);
    assert_eq!(white.2, &[(1, 1), (1, -1)]);
    let black = get_pawn_moves(Player::Black);
    assert_eq!(black.0, 0);
    assert_eq!(black.1, &[(-1, 0)]);
    assert_eq!(black.2, &[(-1, 1), (-1, -1)]);
}

#[test]
fn far_moves_stop_at_the_first_piece() {
    let board = board_with(&[
        (0, PieceType::Rook, Player::White),
        (24, PieceType::Pawn, Player::Black),
        (3, PieceType::Pawn, Player::White),
    ]);
    // Up the column the black pawn can be taken; along the row the white
    // pawn blocks.
    assert_eq!(
        board.get_far_moves(0, &STRAIGHT, 7, true, true, Player::White),
        vec![(8, 1), (16, 2), (24, 3), (1, 1), (2, 2)]
    );
    assert_eq!(
        board.get_far_moves(0, &STRAIGHT, 7, false, true, Player::White),
        vec![(24, 3)]
    );
    assert_eq!(
        board.get_far_moves(0, &STRAIGHT, 7, true, false, Player::White),
        vec![(8, 1), (16, 2), (1, 1), (2, 2)]
    );
    assert_eq!(
        board.get_far_moves(0, &STRAIGHT, 2, true, true, Player::White),
        vec![(8, 1), (16, 2), (1, 1), (2, 2)]
    );
    assert_eq!(board.get_far_moves(0, &DIAGONAL, 7, true, true, Player::White).len(), 7);
    assert_eq!(board.get_far_moves(0, &KNIGHT, 1, true, true, Player::White), vec![(17, 1), (10, 1)]);
    assert_eq!(board.get_far_moves(0, &[], 7, true, true, Player::White), vec![]);
}

#[test]
fn queen_in_the_corner_of_an_empty_board() {
    let game = game_at(0, &[(0, PieceType::Queen, Player::White)]);
    let moves = game.get_pseudo_legal_moves_for_single_piece(PieceType::Queen, 0);
    assert_eq!(moves.len(), 21);
    assert_eq!(moves[0].0, 8);
    assert_eq!(moves[0].1.ply, 1);
    assert_eq!(moves[0].1.fifty_move_rule_last_event, 0);
    assert_eq!(moves[0].1.board.fields[0], None);
    assert_eq!(moves[0].1.board.fields[8], Some((PieceType::Queen, Player::White)));
    assert_eq!(count_pieces(&moves[0].1.board), 1);
    assert_eq!(
        game.board.get_far_moves(0, &STRAIGHT_AND_DIAGONAL, 7, true, true, Player::White).len(),
        21
    );
}

#[test]
fn a_capture_resets_the_count_of_quiet_plies() {
    let game = GameState {
        ply: 10,
        fifty_move_rule_last_event: 4,
        board: board_with(&[
            (0, PieceType::InitRook, Player::White),
            (16, PieceType::Knight, Player::Black),
        ]),
    };
    let moves = game.get_pseudo_legal_moves_for_single_piece(PieceType::InitRook, 0);
    // One step up is quiet, two steps up take the knight.
    assert_eq!(moves[0].0, 8);
    assert_eq!(moves[0].1.fifty_move_rule_last_event, 4);
    assert_eq!(moves[0].1.board.fields[8], Some((PieceType::Rook, Player::White)));
    assert_eq!(moves[1].0, 16);
    assert_eq!(moves[1].1.fifty_move_rule_last_event, 11);
    assert_eq!(moves[1].1.ply, 11);
    assert_eq!(count_pieces(&moves[1].1.board), 1);
    let plain = game.new_state_from_to(PieceType::Rook, 0, 8);
    assert_eq!(plain, moves[0]);
}

#[test]
fn attack_by_each_kind_of_piece() {
    let lone = |piece, pos| board_with(&[(pos, piece, Player::Black)]);
    // Rook and queen along a column, from far away.
    assert!(lone(PieceType::Rook, 59).field_under_attack(3, Player::White));
    assert!(lone(PieceType::InitRook, 59).field_under_attack(3, Player::White));
    assert!(lone(PieceType::Queen, 59).field_under_attack(3, Player::White));
    assert!(!lone(PieceType::Bishop, 59).field_under_attack(3, Player::White));
    // Bishop and queen along a diagonal.
    assert!(lone(PieceType::Bishop, 63).field_under_attack(0, Player::White));
    assert!(lone(PieceType::Queen, 63).field_under_attack(0, Player::White));
    assert!(!lone(PieceType::Rook, 63).field_under_attack(0, Player::White));
    // A king only next to the square.
    assert!(lone(PieceType::King, 9).field_under_attack(0, Player::White));
    assert!(lone(PieceType::InitKing, 8).field_under_attack(0, Player::White));
    assert!(!lone(PieceType::King, 16).field_under_attack(0, Player::White));
    assert!(!lone(PieceType::King, 18).field_under_attack(0, Player::White));
    // A knight at its leap.
    assert!(lone(PieceType::Knight, 17).field_under_attack(0, Player::White));
    assert!(!lone(PieceType::Knight, 16).field_under_attack(0, Player::White));
    // A black pawn attacks downwards, a white pawn upwards.
    assert!(lone(PieceType::Pawn, 36).field_under_attack(27, Player::White));
    assert!(lone(PieceType::InitPawn, 34).field_under_attack(27, Player::White));
    assert!(!lone(PieceType::Pawn, 20).field_under_attack(27, Player::White));
    let white_pawn = board_with(&[(20, PieceType::Pawn, Player::White)]);
    assert!(white_pawn.field_under_attack(27, Player::Black));
    assert!(white_pawn.field_under_attack(29, Player::Black));
    assert!(!white_pawn.field_under_attack(28, Player::Black));
    // One's own pieces do not attack, and a piece in between shields.
    assert!(!white_pawn.field_under_attack(27, Player::White));
    let shielded = board_with(&[
        (59, PieceType::Rook, Player::Black),
        (27, PieceType::Pawn, Player::White),
    ]);
    assert!(!shielded.field_under_attack(3, Player::White));
    assert!(shielded.field_under_attack(27, Player::White));
    assert!(shielded.threatened_along(27, &STRAIGHT, 7, Player::White, AttackKind::Straight));
    assert!(!shielded.threatened_along(27, &STRAIGHT, 3, Player::White, AttackKind::Straight));
    assert!(!shielded.threatened_along(27, &STRAIGHT, 7, Player::White, AttackKind::Diagonal));
    assert!(AttackKind::Knight.strikes_exec(PieceType::Knight, 1));
    assert!(!AttackKind::Pawn.strikes_exec(PieceType::Knight, 1));
}

#[test]
fn fools_mate_is_checkmate() {
    let mut game = start();
    for &(from, to) in &[(13, 21), (52, 36), (14, 30), (59, 31)] {
        assert_eq!(game.result(), None);
        game = play(&game, from, to);
    }
    assert_eq!(game.turn(), Player::White);
    assert_eq!(game.get_legal_moves().len(), 0);
    assert!(game.board.king_in_check(Player::White));
    assert_eq!(game.result(), Some(GameResult::Win(Player::Black)));
}

#[test]
fn cornered_king_is_stalemate() {
    let game = game_at(
        1,
        &[
            (63, PieceType::King, Player::Black),
            (53, PieceType::King, Player::White),
            (46, PieceType::Queen, Player::White),
        ],
    );
    assert!(game.is_well_formed());
    assert_eq!(game.turn(), Player::Black);
    assert_eq!(game.get_legal_moves().len(), 0);
    assert!(!game.board.king_in_check(Player::Black));
    assert_eq!(game.result(), Some(GameResult::Stalemate(Player::Black)));
}

#[test]
fn no_move_means_exactly_one_of_checkmate_and_stalemate() {
    let mated = {
        let mut game = start();
        for &(from, to) in &[(13, 21), (52, 36), (14, 30), (59, 31)] {
            game = play(&game, from, to);
        }
        game
    };
    let stuck = game_at(
        1,
        &[
            (63, PieceType::King, Player::Black),
            (53, PieceType::King, Player::White),
            (46, PieceType::Queen, Player::White),
        ],
    );
    for game in [mated, stuck] {
        assert!(game.get_legal_moves().is_empty());
        let in_check = game.board.king_in_check(game.turn());
        let checkmate = game.result() == Some(GameResult::Win(game.turn().opponent()));
        let stalemate = game.result() == Some(GameResult::Stalemate(game.turn()));
        assert!(checkmate != stalemate);
        assert_eq!(checkmate, in_check);
    }
}

#[test]
fn a_move_must_not_leave_the_king_in_check() {
    // The white bishop is pinned on the column of its king by the rook.
    let game = game_at(
        0,
        &[
            (4, PieceType::King, Player::White),
            (12, PieceType::Bishop, Player::White),
            (52, PieceType::Rook, Player::Black),
            (63, PieceType::King, Player::Black),
        ],
    );
    assert!(game.is_well_formed());
    assert!(game.get_pseudo_legal_moves_for_single_piece(PieceType::Bishop, 12).len() > 0);
    assert_eq!(game.get_legal_moves_for_single_piece(PieceType::Bishop, 12).len(), 0);
    // The king may leave the column, but not walk along it.
    let king_moves = game.get_legal_moves_for_single_piece(PieceType::King, 4);
    let mut landings: Vec<usize> = king_moves.iter().map(|m| m.0).collect();
    landings.sort();
    assert_eq!(landings, vec![3, 5, 11, 13]);
}

#[test]
fn draw_after_150_quiet_plies() {
    let mut game = game_at(
        0,
        &[
            (4, PieceType::King, Player::White),
            (60, PieceType::King, Player::Black),
            (1, PieceType::Knight, Player::White),
            (57, PieceType::Knight, Player::Black),
        ],
    );
    let round = [(1, 18), (57, 42), (18, 1), (42, 57)];
    for ply in 0..150 {
        assert_eq!(game.ply, ply);
        assert!(!game.fifty_move_rule_draw());
        assert_eq!(game.result(), None);
        let (from, to) = round[ply % 4];
        game = play(&game, from, to);
        assert_eq!(game.fifty_move_rule_last_event, 0);
    }
    assert_eq!(game.ply, 150);
    assert!(game.fifty_move_rule_draw());
    assert_eq!(game.result(), Some(GameResult::QuietDraw));
    let later = GameState { ply: 151, ..game };
    assert!(later.fifty_move_rule_draw());
    let after_event = GameState { ply: 200, fifty_move_rule_last_event: 51, ..game };
    assert!(!after_event.fifty_move_rule_draw());
    let at_the_limit = GameState { ply: 200, fifty_move_rule_last_event: 50, ..game };
    assert!(at_the_limit.fifty_move_rule_draw());
}

#[test]
fn a_pawn_move_resets_the_count_of_quiet_plies() {
    let mut game = start();
    game = play(&game, 1, 18);
    game = play(&game, 57, 42);
    assert_eq!(game.ply, 2);
    assert_eq!(game.fifty_move_rule_last_event, 0);
    game = play(&game, 12, 20);
    assert_eq!(game.fifty_move_rule_last_event, 3);
    game = play(&game, 42, 57);
    assert_eq!(game.fifty_move_rule_last_event, 3);
}

#[test]
fn en_passant_right_after_the_double_step_only() {
    let mut game = start();
    for &(from, to) in &[(15, 23), (51, 35), (23, 31), (35, 27)] {
        game = play(&game, from, to);
    }
    // White steps e2-e4, next to the black pawn on d4.
    game = play(&game, 12, 28);
    assert_eq!(game.board.fields[28], Some((PieceType::Pawn, Player::White)));
    assert_eq!(game.board.en_passant_field, EnPassantFieldInfo { ply: 4, skipped: 20, target: 28 });
    let replies = game.get_legal_moves_for_single_piece(PieceType::Pawn, 27);
    let taking: Vec<&(usize, GameState)> = replies.iter().filter(|m| m.0 == 20).collect();
    assert_eq!(taking.len(), 1);
    let after = taking[0].1;
    assert_eq!(after.board.fields[20], Some((PieceType::Pawn, Player::Black)));
    assert_eq!(after.board.fields[27], None);
    assert_eq!(after.board.fields[28], None);
    assert_eq!(count_pieces(&after.board), 31);
    assert_eq!(after.fifty_move_rule_last_event, 6);
    assert!(game.get_legal_moves().contains(&after));

    // Black plays something else; one move later the capture is gone.
    let later = play(&play(&game, 48, 40), 8, 16);
    assert_eq!(later.turn(), Player::Black);
    assert_eq!(later.board.fields[28], Some((PieceType::Pawn, Player::White)));
    let replies = later.get_legal_moves_for_single_piece(PieceType::Pawn, 27);
    assert!(replies.iter().all(|m| m.0 != 20));
    assert!(later.get_legal_moves().iter().all(|s| s.board.fields[28].is_some()));
}

#[test]
fn the_first_pawn_move_may_be_a_double_step() {
    let game = start();
    let moves = game.get_pseudo_legal_moves_for_single_piece(PieceType::InitPawn, 12);
    assert_eq!(moves.len(), 2);
    assert_eq!(moves[0].0, 20);
    assert_eq!(moves[0].1.board.en_passant_field, game.board.en_passant_field);
    assert_eq!(moves[1].0, 28);
    assert_eq!(
        moves[1].1.board.en_passant_field,
        EnPassantFieldInfo { ply: 0, skipped: 20, target: 28 }
    );
    assert_eq!(moves[1].1.board.fields[28], Some((PieceType::Pawn, Player::White)));
    // A moved pawn steps once only.
    let moved = play(&play(&game, 12, 20), 52, 44);
    assert_eq!(moved.get_legal_moves_for_single_piece(PieceType::Pawn, 20).len(), 1);
    // A piece in the way stops the double step, and one right in front
    // stops both.
    let mut blocked = game;
    blocked.board.fields[28] = Some((PieceType::Knight, Player::Black));
    assert_eq!(blocked.get_pseudo_legal_moves_for_single_piece(PieceType::InitPawn, 12).len(), 1);
    blocked.board.fields[20] = Some((PieceType::Knight, Player::Black));
    let moves = blocked.get_pseudo_legal_moves_for_single_piece(PieceType::InitPawn, 12);
    assert_eq!(moves.len(), 0);
    let mut remembered = GameState { ply: 0, ..game };
    game.store_en_passant_info(&mut remembered, 12, 28);
    assert_eq!(remembered, moves_with_double_step(&game));
}

fn moves_with_double_step(game: &GameState) -> GameState {
    let mut state = *game;
    state.board.en_passant_field = EnPassantFieldInfo { ply: game.ply, skipped: 20, target: 28 };
    state
}

fn castling_position() -> GameState {
    game_at(
        0,
        &[
            (4, PieceType::InitKing, Player::White),
            (0, PieceType::InitRook, Player::White),
            (7, PieceType::InitRook, Player::White),
            (60, PieceType::King, Player::Black),
        ],
    )
}

fn castlings(game: &GameState) -> Vec<usize> {
    assert!(game.is_well_formed());
    let piece = game.board.fields[4].unwrap().0;
    game.get_legal_moves_for_single_piece(piece, 4)
        .iter()
        .filter(|m| m.0 == 2 || m.0 == 6)
        .map(|m| m.0)
        .collect()
}

#[test]
fn castling_to_both_sides() {
    let game = castling_position();
    assert_eq!(castlings(&game), vec![2, 6]);
    let moves = game.get_legal_moves_for_single_piece(PieceType::InitKing, 4);
    assert_eq!(moves.len(), 7);
    let short = moves.iter().find(|m| m.0 == 6).unwrap().1;
    assert_eq!(short.board.fields[6], Some((PieceType::King, Player::White)));
    assert_eq!(short.board.fields[5], Some((PieceType::Rook, Player::White)));
    assert_eq!(short.board.fields[4], None);
    assert_eq!(short.board.fields[7], None);
    assert_eq!(short.board.fields[0], Some((PieceType::InitRook, Player::White)));
    assert_eq!(short.ply, 1);
    assert_eq!(short.fifty_move_rule_last_event, 0);
    let long = moves.iter().find(|m| m.0 == 2).unwrap().1;
    assert_eq!(long.board.fields[2], Some((PieceType::King, Player::White)));
    assert_eq!(long.board.fields[3], Some((PieceType::Rook, Player::White)));
    assert_eq!(long.board.fields[0], None);
    assert_eq!(long.board.fields[1], None);
    assert_eq!(long.board.fields[4], None);
    assert_eq!(long.board.fields[7], Some((PieceType::InitRook, Player::White)));
}

#[test]
fn castling_needs_unmoved_king_and_rook() {
    let mut game = castling_position();
    game.board.fields[7] = Some((PieceType::Rook, Player::White));
    assert_eq!(castlings(&game), vec![2]);
    game.board.fields[0] = None;
    assert_eq!(castlings(&game), Vec::<usize>::new());
    let mut game = castling_position();
    game.board.fields[4] = Some((PieceType::King, Player::White));
    assert_eq!(castlings(&game), Vec::<usize>::new());
    let mut game = castling_position();
    game.board.fields[7] = Some((PieceType::Knight, Player::White));
    assert_eq!(castlings(&game), vec![2]);
    // A black rook in the corner is no partner, and gives check besides.
    let mut game = castling_position();
    game.board.fields[7] = Some((PieceType::InitRook, Player::Black));
    assert_eq!(castlings(&game), Vec::<usize>::new());
}

#[test]
fn castling_needs_empty_squares_between() {
    for &(blocked, left) in &[(5, 2), (6, 2), (1, 6), (2, 6), (3, 6)] {
        let mut game = castling_position();
        game.board.fields[blocked] = Some((PieceType::Bishop, Player::White));
        assert_eq!(castlings(&game), vec![left], "with square {} blocked", blocked);
        game.board.fields[blocked] = Some((PieceType::Bishop, Player::Black));
        assert_eq!(castlings(&game), vec![left], "with square {} blocked", blocked);
    }
}

#[test]
fn castling_needs_safe_squares() {
    // A rook on the f-file bears on the square the king passes.
    let mut game = castling_position();
    game.board.fields[61] = Some((PieceType::Rook, Player::Black));
    assert_eq!(castlings(&game), vec![2]);
    // On the g-file: on the square the king lands on.
    let mut game = castling_position();
    game.board.fields[62] = Some((PieceType::Rook, Player::Black));
    assert_eq!(castlings(&game), vec![2]);
    // On the d-file and on the c-file: the same on the queen's side.
    let mut game = castling_position();
    game.board.fields[59] = Some((PieceType::Rook, Player::Black));
    assert_eq!(castlings(&game), vec![6]);
    let mut game = castling_position();
    game.board.fields[58] = Some((PieceType::Rook, Player::Black));
    assert_eq!(castlings(&game), vec![6]);
    // On the b-file the rook passes an attacked square, which is allowed.
    let mut game = castling_position();
    game.board.fields[57] = Some((PieceType::Rook, Player::Black));
    assert_eq!(castlings(&game), vec![2, 6]);
    // A king in check does not castle at all.
    let mut game = castling_position();
    game.board.fields[36] = Some((PieceType::Rook, Player::Black));
    assert!(game.board.king_in_check(Player::White));
    assert_eq!(castlings(&game), Vec::<usize>::new());
}

#[test]
fn promotion_gives_four_successors() {
    let game = game_at(
        6,
        &[
            (48, PieceType::Pawn, Player::White),
            (4, PieceType::King, Player::White),
            (62, PieceType::King, Player::Black),
        ],
    );
    assert!(game.is_well_formed());
    let moves = game.get_legal_moves_for_single_piece(PieceType::Pawn, 48);
    assert_eq!(moves.len(), 4);
    let kinds = [PieceType::Queen, PieceType::Rook, PieceType::Bishop, PieceType::Knight];
    for (m, kind) in moves.iter().zip(kinds.iter()) {
        assert_eq!(m.0, 56);
        assert_eq!(m.1.board.fields[56], Some((*kind, Player::White)));
        let mut same = m.1;
        same.board.fields[56] = moves[0].1.board.fields[56];
        assert_eq!(same, moves[0].1);
        assert_eq!(m.1.board.fields[48], None);
        assert_eq!(m.1.ply, 7);
        assert_eq!(m.1.fifty_move_rule_last_event, 7);
    }
    let arrived = game.new_state_from_to(PieceType::Pawn, 48, 56);
    let promoted = game.generate_pawn_promotions(arrived);
    assert_eq!(promoted.to_vec(), moves);
}

#[test]
fn promotion_by_capture_and_for_black() {
    let game = game_at(
        7,
        &[
            (9, PieceType::Pawn, Player::Black),
            (0, PieceType::Rook, Player::White),
            (1, PieceType::Knight, Player::White),
            (6, PieceType::King, Player::White),
            (62, PieceType::King, Player::Black),
        ],
    );
    assert!(game.is_well_formed());
    let moves = game.get_legal_moves_for_single_piece(PieceType::Pawn, 9);
    // Straight ahead the knight blocks; the rook can be taken.
    assert_eq!(moves.len(), 4);
    for m in &moves {
        assert_eq!(m.0, 0);
        assert_eq!(count_pieces(&m.1.board), 4);
    }
    assert_eq!(moves[3].1.board.fields[0], Some((PieceType::Knight, Player::Black)));
}

#[test]
fn well_formed_positions_are_told_from_others() {
    assert!(start().is_well_formed());
    assert!(start().board.is_well_formed());
    // No kings at all.
    assert!(!game_at(0, &[(0, PieceType::Queen, Player::White)]).is_well_formed());
    // Two white kings.
    let two = game_at(
        0,
        &[
            (4, PieceType::King, Player::White),
            (5, PieceType::King, Player::White),
            (60, PieceType::King, Player::Black),
        ],
    );
    assert_eq!(two.board.only_king(Player::White), None);
    assert!(!two.is_well_formed());
    // The side that has just moved is in check.
    let exposed = game_at(
        0,
        &[
            (4, PieceType::King, Player::White),
            (60, PieceType::King, Player::Black),
            (3, PieceType::Rook, Player::White),
            (59, PieceType::Rook, Player::White),
        ],
    );
    assert!(!exposed.is_well_formed());
    assert!(GameState { ply: 1, ..exposed }.is_well_formed());
    // The last event lies in the future.
    assert!(!GameState { fifty_move_rule_last_event: 1, ..start() }.is_well_formed());
    // An unmoved king off the king's column.
    let astray = game_at(
        0,
        &[(3, PieceType::InitKing, Player::White), (60, PieceType::King, Player::Black)],
    );
    assert!(!astray.board.is_well_formed());
    assert!(!astray.is_well_formed());
    // A remembered double step that names no pawn.
    let mut odd = start();
    odd.ply = 3;
    odd.board.en_passant_field = EnPassantFieldInfo { ply: 2, skipped: 20, target: 28 };
    assert!(!odd.is_well_formed());
    odd.board.en_passant_field = EnPassantFieldInfo { ply: 2, skipped: 20, target: 64 };
    assert!(!odd.board.is_well_formed());
    odd.board.en_passant_field = EnPassantFieldInfo { ply: 1, skipped: 20, target: 28 };
    assert!(odd.is_well_formed());
}

#[test]
fn clicks_select_move_and_clear() {
    let game = start();
    assert_eq!(game.click(None, 12), Click::Selected(12));
    assert_eq!(game.click(None, 30), Click::Cleared);
    assert_eq!(game.click(None, 52), Click::Cleared);
    assert_eq!(game.click(Some(12), 1), Click::Selected(1));
    assert_eq!(game.click(Some(12), 36), Click::Cleared);
    assert_eq!(game.click(Some(12), 28), Click::Played(play(&game, 12, 28)));
    let mut lit: Vec<usize> = game.highlights(Some(12)).into_iter().collect();
    lit.sort();
    assert_eq!(lit, vec![12, 20, 28]);
    assert!(game.highlights(None).is_empty());
    let mut lit: Vec<usize> = game.highlights(Some(0)).into_iter().collect();
    lit.sort();
    assert_eq!(lit, vec![0]);
    // Of several moves to one square the first is played: the queen.
    let promoting = game_at(
        6,
        &[
            (48, PieceType::Pawn, Player::White),
            (4, PieceType::King, Player::White),
            (62, PieceType::King, Player::Black),
        ],
    );
    match promoting.click(Some(48), 56) {
        Click::Played(next) => {
            assert_eq!(next.board.fields[56], Some((PieceType::Queen, Player::White)))
        }
        other => panic!("no move played: {:?}", other),
    }
}
