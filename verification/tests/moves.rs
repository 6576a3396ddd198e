use chess_logic::movement::rook_movement_from_tile;
use chess_logic::{
    available_attacks_for_piece, available_moves_for_piece, get_all_attacked_squares, init_game,
    move_piece_from_to, GAME,
};

#[test]
fn example_end_to_end_pawn_push() {
    let mut game = init_game();
    let accepted = move_piece_from_to("e2", "e4", &mut game);
    assert!(accepted);
    assert!(!game.is_whites_turn());
    assert_eq!(game.board[52], 0);
    assert_eq!(game.board[36], 1 + 64);
    assert_eq!(game.get_played_moves(), &vec![[52u8, 36u8]]);
}

#[test]
fn accepted_plain_move_changes_exactly_two_squares() {
    let mut game = init_game();
    let before = game.get_board();
    assert!(move_piece_from_to("g1", "f3", &mut game));
    let after = game.get_board();
    let mut changed = Vec::new();
    for i in 0..64 {
        if before[i] != after[i] {
            changed.push(i);
        }
    }
    assert_eq!(changed, vec![45, 62]);
    assert_eq!(after[62], 0);
    assert_eq!(after[45], before[62]);
}

#[test]
fn knight_moves_from_the_start_rank() {
    let mut game = init_game();
    // White knight on b1 may leap to a3 and c3; every other square is out.
    let mask = available_moves_for_piece(game.board[57], 57, &mut game);
    for t in 0..64 {
        assert_eq!(mask[t], t == 40 || t == 42);
    }
}

#[test]
fn rook_rays_stop_at_the_first_piece() {
    let game = init_game();
    // A lone white rook on an otherwise empty board sweeps rank and file.
    let empty = GAME::generate_board_array();
    let mask = rook_movement_from_tile(&empty, 8 + 64, 0, &game.computed_distances);
    for t in 0..64 {
        assert_eq!(mask[t], (t > 0 && t < 8) || (t % 8 == 0 && t != 0));
    }
    // From its start square the rook is walled in by its own pieces.
    let mask = rook_movement_from_tile(&game.board, game.board[63], 63, &game.computed_distances);
    for t in 0..64 {
        assert!(!mask[t]);
    }
}

#[test]
fn pawn_attacks_cover_diagonals_even_when_empty() {
    let mut game = init_game();
    // The white pawn on b2 threatens a3 and c3 although both are empty.
    let mask = available_attacks_for_piece(game.board[49], 49, &mut game);
    for t in 0..64 {
        assert_eq!(mask[t], t == 40 || t == 42);
    }
    // Its move mask holds only the forward pushes.
    let moves = available_moves_for_piece(game.board[49], 49, &mut game);
    for t in 0..64 {
        assert_eq!(moves[t], t == 41 || t == 33);
    }
}

#[test]
fn attacked_squares_union_all_pieces() {
    let mut game = init_game();
    let att = get_all_attacked_squares(chess_logic::WHITE, &mut game);
    // Every square of rank 3 is threatened by a white pawn on rank 2.
    for t in 40..48 {
        assert!(att[t]);
    }
    // Squares deep in black's half are not reached at the start.
    for t in 0..16 {
        assert!(!att[t]);
    }
}
