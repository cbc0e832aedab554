use chaichess::game::{BoardState, EnPassantFieldInfo, GameState, PieceType, Player};
use chaichess::minimax::{minimax, weighted_piececount};

/// Sets up a position from its notation: the rows from the eighth to the
/// first, the side to move, the castling rights and the square passed over
/// by a double step. Kings and rooks count as unmoved where they may still
/// castle, pawns where they stand on their first row.
fn set_up(notation: &str) -> GameState {
    let parts: Vec<&str> = notation.split_whitespace().collect();
    let (rows, side, rights, passed) = (parts[0], parts[1], parts[2], parts[3]);
    let mut fields = [None; 64];
    for (n, row) in rows.split('/').enumerate() {
        let mut col = 0;
        for c in row.chars() {
            if let Some(gap) = c.to_digit(10) {
                col += gap as usize;
                continue;
            }
            let player = if c.is_uppercase() { Player::White } else { Player::Black };
            let kind = match c.to_ascii_lowercase() {
                'k' => PieceType::King,
                'q' => PieceType::Queen,
                'r' => PieceType::Rook,
                'b' => PieceType::Bishop,
                'n' => PieceType::Knight,
                _ => PieceType::Pawn,
            };
            fields[(7 - n) * 8 + col] = Some((kind, player));
            col += 1;
        }
    }
    for pos in 0..64 {
        let first_row = match fields[pos] {
            Some((PieceType::Pawn, Player::White)) => pos / 8 == 1,
            Some((PieceType::Pawn, Player::Black)) => pos / 8 == 6,
            _ => false,
        };
        if first_row {
            fields[pos] = fields[pos].map(|(_, player)| (PieceType::InitPawn, player));
        }
    }
    for (right, king, rook, player) in [
        ('K', 4, 7, Player::White),
        ('Q', 4, 0, Player::White),
        ('k', 60, 63, Player::Black),
        ('q', 60, 56, Player::Black),
    ] {
        if rights.contains(right) {
            fields[king] = Some((PieceType::InitKing, player));
            fields[rook] = Some((PieceType::InitRook, player));
        }
    }
    let ply = if side == "w" { 2 } else { 3 };
    let mut double_step = EnPassantFieldInfo { ply: 0, skipped: 0xFF, target: 0xFF };
    if passed != "-" {
        let bytes = passed.as_bytes();
        let skipped = (bytes[1] - b'1') as usize * 8 + (bytes[0] - b'a') as usize;
        let target = if side == "w" { skipped - 8 } else { skipped + 8 };
        double_step = EnPassantFieldInfo { ply: ply - 1, skipped, target };
    }
    let game = GameState {
        ply,
        fifty_move_rule_last_event: 0,
        board: BoardState { fields, en_passant_field: double_step },
    };
    assert!(game.is_well_formed(), "{}", notation);
    game
}

/// The number of positions that a search to `depth` looks at.
fn positions(game: GameState, depth: usize) -> u64 {
    minimax(game, depth, &weighted_piececount).2
}

#[test]
fn move_counts_from_the_start() {
    let game = GameState::new();
    assert_eq!(positions(game, 0), 1);
    assert_eq!(positions(game, 1), 1 + 20);
    assert_eq!(positions(game, 2), 1 + 20 + 400);
    assert_eq!(positions(game, 3), 1 + 20 + 400 + 8902);
    assert_eq!(set_up("rnbqkbnr/pppppppp/8/8/8/8/PPPPPPPP/RNBQKBNR w KQkq -").board, game.board);
}

#[test]
fn move_counts_with_castling_on_both_sides() {
    let game = set_up("r3k2r/p1ppqpb1/bn2pnp1/3PN3/1p2P3/2N2Q1p/PPPBBPPP/R3K2R w KQkq -");
    assert_eq!(game.get_legal_moves().len(), 48);
    assert_eq!(positions(game, 2), 1 + 48 + 2039);
}

#[test]
fn move_counts_in_a_rook_ending() {
    let game = set_up("8/2p5/3p4/KP5r/1R3p1k/8/4P1P1/8 w - -");
    assert_eq!(game.get_legal_moves().len(), 14);
    assert_eq!(positions(game, 2), 1 + 14 + 191);
    assert_eq!(positions(game, 3), 1 + 14 + 191 + 2812);
}

#[test]
fn move_counts_with_promotions() {
    let game = set_up("r3k2r/Pppp1ppp/1b3nbN/nP6/BBP1P3/q4N2/Pp1P2PP/R2Q1RK1 w kq -");
    assert_eq!(game.get_legal_moves().len(), 6);
    assert_eq!(positions(game, 2), 1 + 6 + 264);
    assert_eq!(positions(game, 3), 1 + 6 + 264 + 9467);
}

#[test]
fn move_counts_with_a_pawn_about_to_promote() {
    let game = set_up("rnbq1k1r/pp1Pbppp/2p5/8/2B5/8/PPP1NnPP/RNBQK2R w KQ -");
    assert_eq!(game.get_legal_moves().len(), 44);
    assert_eq!(positions(game, 2), 1 + 44 + 1486);
}

#[test]
fn move_counts_after_a_double_step() {
    // Black has just played d7-d5 next to the white pawn on e5.
    let game = set_up("rnbqkbnr/ppp1pppp/8/3pP3/8/8/PPPP1PPP/RNBQKBNR w KQkq d6");
    let moves = game.get_legal_moves();
    assert_eq!(moves.len(), 31);
    assert_eq!(moves.iter().filter(|m| m.board.fields[35].is_none()).count(), 1);
}
