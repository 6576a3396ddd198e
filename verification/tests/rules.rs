use chess_logic::{
    available_moves_for_piece, fen_can_be_loaded, init_game, load_position_from_fen,
    move_piece_from_to, promote_pawn, GAME,
};

fn blank_game() -> GAME {
    GAME {
        computed_distances: GAME::tiles_to_the_edge(),
        board: GAME::generate_board_array(),
        turn: chess_logic::WHITE,
        moves: Vec::new(),
        tile_available_to_un_passant: chess_logic::NO_SQUARE,
        potential_tile_to_un_passant: chess_logic::NO_SQUARE,
        chastling_ability: vec![false, false, false, false],
        check: false,
        draw: false,
        check_mate: false,
        promoting: chess_logic::NO_SQUARE,
    }
}

fn load(fen: &str) -> GAME {
    let mut game = blank_game();
    assert!(fen_can_be_loaded(fen));
    let (board, un_passant) = load_position_from_fen(fen, &mut game);
    game.board = board;
    game.tile_available_to_un_passant = un_passant;
    game
}

#[test]
fn rejected_move_leaves_the_state_unchanged() {
    let mut game = init_game();
    let board = game.get_board();
    let rights = game.chastling_ability.clone();
    let turn = game.turn;
    let un_passant = game.tile_available_to_un_passant;
    // Three rejections: an illegal stride, the wrong color, an empty square.
    assert!(!move_piece_from_to("e2", "e5", &mut game));
    assert!(!move_piece_from_to("e7", "e5", &mut game));
    assert!(!move_piece_from_to("e4", "e5", &mut game));
    assert_eq!(game.get_board(), board);
    assert_eq!(game.chastling_ability, rights);
    assert_eq!(game.turn, turn);
    assert_eq!(game.tile_available_to_un_passant, un_passant);
    assert_eq!(game.get_played_moves().len(), 0);
}

#[test]
fn move_into_check_is_rejected_without_effect() {
    // The black rook on f8 covers f1: the white king may not step there.
    let mut game = load("4kr2/8/8/8/8/8/8/4K3 w - - 0 1");
    let board = game.get_board();
    assert!(!move_piece_from_to("e1", "f1", &mut game));
    assert_eq!(game.get_board(), board);
    assert!(game.is_whites_turn());
    // The same step away from the rook's file is accepted.
    assert!(move_piece_from_to("e1", "d1", &mut game));
}

#[test]
fn castling_destination_vanishes_when_the_path_is_attacked() {
    // Rights are set and the path is empty, but f1 is covered by the rook.
    let mut game = load("4kr2/8/8/8/8/8/8/4K2R w K - 0 1");
    let king = game.board[60];
    let mask = available_moves_for_piece(king, 60, &mut game);
    assert!(!mask[62]);
    // With the attacker gone the destination reappears.
    let mut game = load("4k3/8/8/8/8/8/8/4K2R w K - 0 1");
    let mask = available_moves_for_piece(king, 60, &mut game);
    assert!(mask[62]);
}

#[test]
fn castling_relocates_king_and_rook_and_spends_the_right() {
    let mut game = load("4k3/8/8/8/8/8/8/4K2R w K - 0 1");
    assert!(move_piece_from_to("e1", "g1", &mut game));
    assert_eq!(game.board[60], 0);
    assert_eq!(game.board[61], 8 + 64);
    assert_eq!(game.board[62], 32 + 64);
    assert_eq!(game.board[63], 0);
    assert_eq!(game.chastling_ability, vec![false, false, false, false]);
}

#[test]
fn castling_is_refused_without_the_right() {
    let mut game = load("4k3/8/8/8/8/8/8/4K2R w - - 0 1");
    let king = game.board[60];
    let mask = available_moves_for_piece(king, 60, &mut game);
    assert!(!mask[62]);
    assert!(!move_piece_from_to("e1", "g1", &mut game));
}

#[test]
fn queen_side_castling_relocates_across_the_board() {
    let mut game = load("4k3/8/8/8/8/8/8/R3K3 w Q - 0 1");
    assert!(move_piece_from_to("e1", "c1", &mut game));
    assert_eq!(game.board[56], 0);
    assert_eq!(game.board[59], 8 + 64);
    assert_eq!(game.board[58], 32 + 64);
    assert_eq!(game.board[60], 0);
    assert_eq!(game.chastling_ability, vec![false, false, false, false]);

    let mut game = load("r3k3/8/8/8/8/8/8/4K3 b q - 0 1");
    assert!(move_piece_from_to("e8", "c8", &mut game));
    assert_eq!(game.board[0], 0);
    assert_eq!(game.board[3], 8 + 128);
    assert_eq!(game.board[2], 32 + 128);
    assert_eq!(game.board[4], 0);
}

#[test]
fn black_king_side_castling() {
    let mut game = load("4k2r/8/8/8/8/8/8/4K3 b k - 0 1");
    assert!(move_piece_from_to("e8", "g8", &mut game));
    assert_eq!(game.board[4], 0);
    assert_eq!(game.board[5], 8 + 128);
    assert_eq!(game.board[6], 32 + 128);
    assert_eq!(game.board[7], 0);
}

#[test]
fn moving_a_rook_spends_only_its_own_right() {
    let mut game = load("r3k2r/8/8/8/8/8/8/R3K2R w KQkq - 0 1");
    assert!(move_piece_from_to("h1", "h2", &mut game));
    assert_eq!(game.chastling_ability, vec![false, true, true, true]);
}

#[test]
fn king_attack_mask_carries_no_castling_destination() {
    let mut game = load("4k3/8/8/8/8/8/8/4K2R w K - 0 1");
    let king = game.board[60];
    let moves = chess_logic::king_movement_from_tile(&mut game, king, 60);
    let attacks = chess_logic::king_attacks_from_tile(&mut game, king, 60);
    assert!(moves[62]);
    assert!(!attacks[62]);
    // The one-step squares agree between the two variants.
    assert_eq!(moves[61], attacks[61]);
    assert_eq!(moves[59], attacks[59]);
    assert_eq!(moves[52], attacks[52]);
}

#[test]
fn en_passant_capture_takes_the_passed_pawn() {
    // Black pawn on d4; white double-pushes e2 to e4 beside it.
    let mut game = load("rnbqkbnr/ppp1pppp/8/8/3p4/8/PPPPPPPP/RNBQKBNR w KQkq - 0 1");
    assert!(move_piece_from_to("e2", "e4", &mut game));
    // The skip square e3 is now the en-passant target.
    assert_eq!(game.tile_available_to_un_passant, 44);
    let mask = available_moves_for_piece(game.board[35], 35, &mut game);
    assert!(mask[44]);
    assert!(move_piece_from_to("d4", "e3", &mut game));
    // The captured pawn leaves e4, one rank behind the capture target.
    assert_eq!(game.board[36], 0);
    assert_eq!(game.board[44], 1 + 128);
    assert_eq!(game.board[35], 0);
}

#[test]
fn en_passant_skip_square_is_out_of_reach_without_adjacency() {
    // The black pawn stands on c5, too far from the double push to take it.
    let mut game = load("rnbqkbnr/pp2pppp/8/2p5/8/8/PPPPPPPP/RNBQKBNR w KQkq - 0 1");
    assert!(move_piece_from_to("e2", "e4", &mut game));
    assert_eq!(game.tile_available_to_un_passant, 44);
    let mask = available_moves_for_piece(game.board[26], 26, &mut game);
    assert!(!mask[44]);
}

#[test]
fn en_passant_target_expires_after_one_move() {
    let mut game = load("rnbqkbnr/ppp1pppp/8/8/3p4/8/PPPPPPPP/RNBQKBNR w KQkq - 0 1");
    assert!(move_piece_from_to("e2", "e4", &mut game));
    assert_eq!(game.tile_available_to_un_passant, 44);
    // Black plays something else; the target is gone.
    assert!(move_piece_from_to("g8", "f6", &mut game));
    assert_eq!(
        game.tile_available_to_un_passant,
        chess_logic::NO_SQUARE
    );
}

#[test]
fn promotion_blocks_moves_until_resolved() {
    let mut game = load("8/P6k/8/8/8/8/7K/8 w - - 0 1");
    assert!(move_piece_from_to("a7", "a8", &mut game));
    assert_eq!(game.promoting, 0);
    // Every further move request is refused while the promotion is pending.
    assert!(!move_piece_from_to("h7", "h6", &mut game));
    assert_eq!(game.board[0], 1 + 64);
    // An unknown selector is refused and keeps the promotion pending.
    assert!(!promote_pawn("x", &mut game));
    assert_eq!(game.promoting, 0);
    // Resolving with a queen replaces the pawn and unblocks the game.
    assert!(promote_pawn("q", &mut game));
    assert_eq!(game.board[0], 16 + 64);
    assert_eq!(game.promoting, chess_logic::NO_SQUARE);
    assert!(move_piece_from_to("h7", "h6", &mut game));
}

#[test]
fn promotion_without_pending_square_is_refused() {
    let mut game = init_game();
    let board = game.get_board();
    assert!(!promote_pawn("q", &mut game));
    assert_eq!(game.get_board(), board);
    assert!(game.is_whites_turn());
}

#[test]
fn check_flag_follows_the_king_under_attack() {
    let mut game = load("4k3/8/8/8/8/8/8/4KR2 w - - 0 1");
    assert!(move_piece_from_to("f1", "f8", &mut game));
    // The side to move, black, stands in check from the rook on f8.
    assert!(game.is_check());
    let status = game.get_game_status();
    assert_eq!(status, (false, true, false, false));
}
