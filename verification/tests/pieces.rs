use chess_logic::pieces;

#[test]
fn flags_are_distinct_powers_of_two() {
    let kinds = [
        pieces::pawn(),
        pieces::rook(),
        pieces::kight(),
        pieces::bishop(),
        pieces::queen(),
        pieces::king(),
    ];
    assert_eq!(kinds, [1, 2, 4, 8, 16, 32]);
    assert_eq!(pieces::black(), 64);
    assert_eq!(pieces::white(), 128);
}

#[test]
fn colored_pieces_combine_kind_and_color() {
    assert_eq!(pieces::get_white_pawn(), 1 + 128);
    assert_eq!(pieces::get_white_rook(), 2 + 128);
    assert_eq!(pieces::get_white_knight(), 4 + 128);
    assert_eq!(pieces::get_white_bishop(), 8 + 128);
    assert_eq!(pieces::get_white_queen(), 16 + 128);
    assert_eq!(pieces::get_white_king(), 32 + 128);
    assert_eq!(pieces::get_black_pawn(), 1 + 64);
    assert_eq!(pieces::get_black_rook(), 2 + 64);
    assert_eq!(pieces::get_black_knight(), 4 + 64);
    assert_eq!(pieces::get_black_bishop(), 8 + 64);
    assert_eq!(pieces::get_black_queen(), 16 + 64);
    assert_eq!(pieces::get_black_king(), 32 + 64);
}

#[test]
fn is_black_tests_the_black_flag() {
    assert!(pieces::is_black(pieces::get_black_queen()));
    assert!(!pieces::is_black(pieces::get_white_queen()));
    assert!(!pieces::is_black(0));
}

#[test]
fn all_twelve_pieces_in_order() {
    let all = pieces::generate_array_of_all_pieces();
    assert_eq!(all, vec![129, 130, 132, 136, 144, 160, 65, 66, 68, 72, 80, 96]);
}

#[test]
fn engine_piece_predicates_match_their_flags() {
    assert!(chess_logic::is_black_rook(8 + 128));
    assert!(chess_logic::is_white_rook(8 + 64));
    assert!(chess_logic::is_white_pawn(1 + 64));
    assert!(chess_logic::is_black_pawn(1 + 128));
    assert!(chess_logic::is_white_king(32 + 64));
    assert!(chess_logic::is_black_king(32 + 128));
    assert!(chess_logic::is_white_queen(16 + 64));
    assert!(chess_logic::is_black_queen(16 + 128));
    assert!(chess_logic::is_white_knight(2 + 64));
    assert!(chess_logic::is_black_knight(2 + 128));
    assert!(chess_logic::is_white_bishop(4 + 64));
    assert!(chess_logic::is_black_bishop(4 + 128));
    assert!(!chess_logic::is_white_rook(8 + 128));
    assert!(!chess_logic::is_black_rook(0));
}
