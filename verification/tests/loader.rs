use chess_logic::{
    algebraic_notation_to_memory_location, fen_can_be_loaded, load_position_from_fen, GAME,
};

fn blank_game() -> GAME {
    GAME {
        computed_distances: GAME::tiles_to_the_edge(),
        board: GAME::generate_board_array(),
        turn: chess_logic::WHITE,
        moves: Vec::new(),
        tile_available_to_un_passant: chess_logic::NO_SQUARE,
        potential_tile_to_un_passant: chess_logic::NO_SQUARE,
        chastling_ability: vec![false, false, false, false],
        check: false,
        draw: false,
        check_mate: false,
        promoting: chess_logic::NO_SQUARE,
    }
}

fn load(fen: &str) -> GAME {
    let mut game = blank_game();
    assert!(fen_can_be_loaded(fen));
    let (board, un_passant) = load_position_from_fen(fen, &mut game);
    game.board = board;
    game.tile_available_to_un_passant = un_passant;
    game
}

const STANDARD: &str = "rnbqkbnr/pppppppp/8/8/8/8/PPPPPPPP/RNBQKBNR w KQkq - 0 1";

#[test]
fn standard_position_has_rooks_in_the_corners() {
    let game = load(STANDARD);
    // square 0 holds a black rook, square 63 a white rook.
    assert_eq!(game.board[0], 8 + 128);
    assert_eq!(game.board[63], 8 + 64);
}

#[test]
fn standard_position_loads_the_full_array() {
    let game = load(STANDARD);
    let expected = [
        136, 130, 132, 144, 160, 132, 130, 136, 129, 129, 129, 129, 129, 129, 129, 129, 0, 0, 0,
        0, 0, 0, 0, 0, 0, 0, 0, 0, 0, 0, 0, 0, 0, 0, 0, 0, 0, 0, 0, 0, 0, 0, 0, 0, 0, 0, 0, 0,
        65, 65, 65, 65, 65, 65, 65, 65, 72, 66, 68, 80, 96, 68, 66, 72,
    ];
    assert_eq!(game.board, expected.to_vec());
}

#[test]
fn loader_reads_turn_rights_and_en_passant() {
    let game = load("8/8/8/8/8/8/8/8 b Kq 44 0 1");
    assert_eq!(game.turn, chess_logic::BLACK);
    assert_eq!(game.chastling_ability, vec![true, false, false, true]);
    assert_eq!(game.tile_available_to_un_passant, 44);
    assert!(!game.is_whites_turn());
}

#[test]
fn loader_dash_means_no_en_passant_target() {
    let game = load(STANDARD);
    assert_eq!(game.tile_available_to_un_passant, chess_logic::NO_SQUARE);
}

#[test]
fn loader_rejects_garbled_placement() {
    assert!(!fen_can_be_loaded("rnbqkbnr/ppxppppp/8/8/8/8/PPPPPPPP/RNBQKBNR w KQkq - 0 1"));
    // A ninth rank would place a piece outside the board.
    assert!(!fen_can_be_loaded("8/8/8/8/8/8/8/8/r w - - 0 1"));
    assert!(fen_can_be_loaded(STANDARD));
}

#[test]
fn init_game_loads_the_starting_position() {
    let game = chess_logic::init_game();
    assert_eq!(game.board[0], 136);
    assert_eq!(game.board[63], 72);
    assert!(game.is_whites_turn());
    assert_eq!(game.chastling_ability, vec![true, true, true, true]);
    assert!(!game.is_check());
    assert!(!game.is_draw());
    assert!(!game.is_check_mate());
    assert_eq!(game.get_played_moves().len(), 0);
    let status = game.get_game_status();
    assert_eq!(status, (true, false, false, false));
}

#[test]
fn algebraic_notation_maps_the_corners() {
    assert_eq!(algebraic_notation_to_memory_location("a8"), 0);
    assert_eq!(algebraic_notation_to_memory_location("h8"), 7);
    assert_eq!(algebraic_notation_to_memory_location("a1"), 56);
    assert_eq!(algebraic_notation_to_memory_location("h1"), 63);
    assert_eq!(algebraic_notation_to_memory_location("e2"), 52);
    assert_eq!(algebraic_notation_to_memory_location("E2"), 52);
    assert_eq!(algebraic_notation_to_memory_location("e4"), 36);
}
