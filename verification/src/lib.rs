//! A chess rules engine: it owns the board state, enumerates legal moves per
//! piece, detects check, and enforces the legality of castling, en passant and
//! promotion.
//!
//! A board is a sequence of 64 squares indexed `rank * 8 + file`, rank 0 at the
//! top of the textual layout. A square holds 0 when empty, or the sum of one
//! piece-kind flag and one color flag.
use vstd::prelude::*;

pub mod codec;
pub mod movement;
pub mod pieces;

verus! {

/// Flag for a pawn in a board entry.
pub const PAWN: u8 = 1;
/// Flag for a knight in a board entry.
pub const KNIGHT: u8 = 2;
/// Flag for a bishop in a board entry.
pub const BISHOP: u8 = 4;
/// Flag for a rook in a board entry.
pub const ROOK: u8 = 8;
/// Flag for a queen in a board entry.
pub const QUEEN: u8 = 16;
/// Flag for a king in a board entry.
pub const KING: u8 = 32;
/// Color flag for white, also the white-to-move marker.
pub const WHITE: u8 = 64;
/// Color flag for black, also the black-to-move marker.
pub const BLACK: u8 = 128;

/// Sentinel square index meaning "no square": valid indices are 0..=63.
pub const NO_SQUARE: u8 = 100;

/// A board entry is empty, or the sum of exactly one kind flag and exactly
/// one color flag.
pub open spec fn valid_entry(p: u8) -> bool {
    ||| p == 0
    ||| p == 65
    ||| p == 66
    ||| p == 68
    ||| p == 72
    ||| p == 80
    ||| p == 96
    ||| p == 129
    ||| p == 130
    ||| p == 132
    ||| p == 136
    ||| p == 144
    ||| p == 160
}

/// On a valid board entry, each flag test picks out exactly the entries made
/// from that flag.
pub proof fn lemma_entry_bits(p: u8)
    by (bit_vector)
    requires
        p == 0 || p == 65 || p == 66 || p == 68 || p == 72 || p == 80 || p == 96 || p == 129 || p
            == 130 || p == 132 || p == 136 || p == 144 || p == 160,
    ensures
        p & 1 > 0 <==> (p == 65 || p == 129),
        p & 2 > 0 <==> (p == 66 || p == 130),
        p & 4 > 0 <==> (p == 68 || p == 132),
        p & 8 > 0 <==> (p == 72 || p == 136),
        p & 16 > 0 <==> (p == 80 || p == 144),
        p & 32 > 0 <==> (p == 96 || p == 160),
        p & 64 > 0 <==> (p == 65 || p == 66 || p == 68 || p == 72 || p == 80 || p == 96),
        p & 128 > 0 <==> (p == 129 || p == 130 || p == 132 || p == 136 || p == 144 || p == 160),
{
}

/// Color flag opposite to `color`.
pub open spec fn opposite(color: u8) -> u8 {
    if color == WHITE {
        BLACK
    } else {
        WHITE
    }
}

/// The piece belongs to the side to move.
pub open spec fn piece_of_turn(turn: u8, piece: u8) -> bool {
    (turn & WHITE > 0 && piece & WHITE > 0) || (turn & BLACK > 0 && piece & BLACK > 0)
}

/// The move is a diagonal pawn move from the proper rank onto the current
/// en-passant target.
pub open spec fn is_ep_capture(ep: u8, piece: u8, from: int, to: int) -> bool {
    piece & PAWN > 0 && to == ep as int && ((piece & WHITE > 0 && 24 <= from <= 31 && (to == from
        - 7 || to == from - 9)) || (piece & WHITE == 0 && piece & BLACK > 0 && 32 <= from <= 39 && (
    to == from + 7 || to == from + 9)))
}

/// Square of the pawn removed by an en-passant capture: one rank behind the
/// capture target, from the mover's point of view.
pub open spec fn ep_captured_square(piece: u8, to: int) -> int {
    if piece & WHITE > 0 {
        to + 8
    } else {
        to - 8
    }
}

/// The board after the en-passant bookkeeping of a move: the captured pawn
/// removed when the move is an en-passant capture, else unchanged.
pub open spec fn board_after_ep(board: Seq<u8>, ep: u8, piece: u8, from: int, to: int) -> Seq<u8> {
    if is_ep_capture(ep, piece, from, to) {
        board.update(ep_captured_square(piece, to), 0)
    } else {
        board
    }
}

/// En-passant target offered to the next move: the skip square when this move
/// was a double pawn push, else none.
pub open spec fn ep_target_after(piece: u8, from: int, to: int) -> u8 {
    if piece & PAWN > 0 && piece & WHITE > 0 {
        if to == from - 16 {
            (from - 8) as u8
        } else {
            NO_SQUARE
        }
    } else if piece & PAWN > 0 && piece & WHITE == 0 && piece & BLACK > 0 {
        if to == from + 16 {
            (from + 8) as u8
        } else {
            NO_SQUARE
        }
    } else {
        NO_SQUARE
    }
}

/// Promotion square after a move: the destination when a pawn reached its
/// last rank, else none.
pub open spec fn promoting_after(piece: u8, to: int) -> u8 {
    if piece & PAWN > 0 && piece & WHITE > 0 && to <= 7 {
        to as u8
    } else if piece & PAWN > 0 && piece & WHITE == 0 && piece & BLACK > 0 && 56 <= to <= 63 {
        to as u8
    } else {
        NO_SQUARE
    }
}

/// The move matches the white king-side castling pattern: rights set, the
/// white king moving from its home square onto the fixed destination, the
/// unmoved white rook still on its corner.
pub open spec fn white_ks_castle(board: Seq<u8>, rights: Seq<bool>, piece: u8, from: int, to: int) -> bool {
    rights[0] && to == 62 && from == 60 && piece & KING > 0 && piece & WHITE > 0 && board[63] & ROOK
        > 0 && board[63] & WHITE > 0
}

/// The white queen-side castling pattern.
pub open spec fn white_qs_castle(board: Seq<u8>, rights: Seq<bool>, piece: u8, from: int, to: int) -> bool {
    rights[1] && to == 58 && from == 60 && piece & KING > 0 && piece & WHITE > 0 && board[56] & ROOK
        > 0 && board[56] & WHITE > 0
}

/// The black king-side castling pattern.
pub open spec fn black_ks_castle(board: Seq<u8>, rights: Seq<bool>, piece: u8, from: int, to: int) -> bool {
    rights[2] && to == 6 && from == 4 && piece & KING > 0 && piece & BLACK > 0 && board[7] & ROOK
        > 0 && board[7] & BLACK > 0
}

/// The black queen-side castling pattern.
pub open spec fn black_qs_castle(board: Seq<u8>, rights: Seq<bool>, piece: u8, from: int, to: int) -> bool {
    rights[3] && to == 2 && from == 4 && piece & KING > 0 && piece & BLACK > 0 && board[0] & ROOK
        > 0 && board[0] & BLACK > 0
}

/// The board after relocating the moved piece: the king and rook together
/// when the move matches a castling pattern, else origin emptied and the
/// piece placed on the destination.
pub open spec fn board_after_relocation(
    board: Seq<u8>,
    rights: Seq<bool>,
    piece: u8,
    from: int,
    to: int,
) -> Seq<u8> {
    if white_ks_castle(board, rights, piece, from, to) {
        board.update(60, 0u8).update(61, (ROOK + WHITE) as u8).update(62, piece).update(63, 0u8)
    } else if white_qs_castle(board, rights, piece, from, to) {
        board.update(56, 0u8).update(59, (ROOK + WHITE) as u8).update(58, piece).update(60, 0u8)
    } else if black_ks_castle(board, rights, piece, from, to) {
        board.update(4, 0u8).update(5, (ROOK + BLACK) as u8).update(6, piece).update(7, 0u8)
    } else if black_qs_castle(board, rights, piece, from, to) {
        board.update(0, 0u8).update(3, (ROOK + BLACK) as u8).update(2, piece).update(4, 0u8)
    } else {
        board.update(from, 0u8).update(to, piece)
    }
}

/// The whole board mutation of a move: en-passant bookkeeping first, then the
/// relocation of the moved piece.
pub open spec fn board_after_move(
    board: Seq<u8>,
    rights: Seq<bool>,
    ep: u8,
    piece: u8,
    from: int,
    to: int,
) -> Seq<u8> {
    board_after_relocation(board_after_ep(board, ep, piece, from, to), rights, piece, from, to)
}

/// Castling rights after a move: a right is lost when its king or rook start
/// square was vacated or landed on.
pub open spec fn rights_after(rights: Seq<bool>, from: int, to: int) -> Seq<bool> {
    seq![
        rights[0] && !(from == 63 || to == 63) && !(from == 60 || to == 60),
        rights[1] && !(from == 56 || to == 56) && !(from == 60 || to == 60),
        rights[2] && !(from == 7 || to == 7) && !(from == 4 || to == 4),
        rights[3] && !(from == 0 || to == 0) && !(from == 4 || to == 4),
    ]
}

/// The king of `color` stands on a square attacked by the other color.
pub open spec fn in_check(board: Seq<u8>, color: u8) -> bool {
    exists|t: int|
        0 <= t < 64 && board[t] & KING > 0 && board[t] & color > 0 && #[trigger] movement::attacked(
            board,
            opposite(color),
            t,
        )
}

/// A move request (from, to) is accepted: no promotion is pending, the piece
/// on the origin belongs to the side to move, the destination is in its
/// pseudo-legal move mask, and the fully applied move does not leave the
/// mover's own king attacked.
pub open spec fn move_accepted(g: GAME, from: int, to: int) -> bool {
    let piece = g.board@[from];
    &&& g.promoting == NO_SQUARE
    &&& piece_of_turn(g.turn, piece)
    &&& movement::piece_move_target(
        g.board@,
        g.chastling_ability@,
        g.tile_available_to_un_passant,
        piece,
        from,
        to,
    )
    &&& !in_check(
        board_after_move(
            g.board@,
            g.chastling_ability@,
            g.tile_available_to_un_passant,
            piece,
            from,
            to,
        ),
        g.turn,
    )
}

/// The whole state of one game: the board, whose turn it is, the history of
/// played moves, en-passant and promotion bookkeeping, castling rights, and
/// the status flags.
///
/// The fields are public so that contracts can speak of them directly; mutate
/// a game only through the engine's functions, which keep [`GAME::wf`].
#[derive(Clone)]
pub struct GAME {
    /// Edge distances, square-major: entry `square * 8 + direction`.
    pub computed_distances: Vec<u8>,
    /// 64 squares, each 0 or one kind flag plus one color flag.
    pub board: Vec<u8>,
    /// Color flag of the side to move.
    pub turn: u8,
    /// Accepted moves, oldest first, as (from, to) square pairs.
    pub moves: Vec<[u8; 2]>,
    /// Square a capturing pawn may land on for en passant, or [`NO_SQUARE`].
    pub tile_available_to_un_passant: u8,
    /// Skip square recorded while generating a double-push option, or
    /// [`NO_SQUARE`].
    pub potential_tile_to_un_passant: u8,
    /// Castling rights, in order: white king-side, white queen-side,
    /// black king-side, black queen-side.
    pub chastling_ability: Vec<bool>,
    /// Whether the side to move is in check.
    pub check: bool,
    /// Whether the game is drawn (never set by the engine itself).
    pub draw: bool,
    /// Whether the side to move is checkmated (never set by the engine
    /// itself).
    pub check_mate: bool,
    /// Square with an unresolved pawn promotion, or [`NO_SQUARE`].
    pub promoting: u8,
}

impl GAME {
    /// Structural validity: sizes of the state vectors, a correct geometry
    /// table, and a color flag as the side to move.
    pub open spec fn wf(&self) -> bool {
        &&& self.board@.len() == 64
        &&& forall|i: int| 0 <= i < 64 ==> valid_entry(#[trigger] self.board@[i])
        &&& movement::dist_table_wf(self.computed_distances@)
        &&& self.chastling_ability@.len() == 4
        &&& (self.turn == WHITE || self.turn == BLACK)
    }

    /// The edge-distance table: for each square, the distance to the board
    /// edge along the eight ray directions, diagonals as the minimum of their
    /// two component orthogonal distances.
    pub fn tiles_to_the_edge() -> (table: Vec<u8>)
        ensures
            movement::dist_table_wf(table@),
    {
        let mut table: Vec<u8> = Vec::new();
        let mut tile: usize = 0;
        while tile < 64
            invariant
                tile <= 64,
                table@.len() == 8 * tile,
                forall|t: int, d: int|
                    0 <= t < tile && 0 <= d < 8 ==> #[trigger] movement::dist_at(table@, t, d)
                        == movement::edge_dist(t, d),
            decreases 64 - tile,
        {
            let rank: u8 = (tile / 8) as u8;
            let file: u8 = (tile % 8) as u8;
            let north: u8 = rank;
            let south: u8 = 7 - rank;
            let west: u8 = file;
            let east: u8 = 7 - file;
            let ghost old_table = table@;
            table.push(north);
            table.push(south);
            table.push(west);
            table.push(east);
            table.push(if north < west { north } else { west });
            table.push(if south < east { south } else { east });
            table.push(if north < east { north } else { east });
            table.push(if south < west { south } else { west });
            proof {
                assert forall|t: int, d: int| 0 <= t < tile + 1 && 0 <= d < 8 implies #[trigger] movement::dist_at(
                    table@,
                    t,
                    d,
                ) == movement::edge_dist(t, d) by {
                    if t < tile {
                        assert(table@[t * 8 + d] == old_table[t * 8 + d]);
                        assert(movement::dist_at(old_table, t, d) == movement::edge_dist(t, d));
                    } else {
                        assert(t == tile);
                        assert(table@[t * 8 + d] == table@[old_table.len() + d]);
                    }
                }
            }
            tile = tile + 1;
        }
        table
    }

    /// Empty board: 64 empty squares.
    pub fn generate_board_array() -> (board: Vec<u8>)
        ensures
            board@.len() == 64,
            forall|i: int| 0 <= i < 64 ==> board@[i] == 0,
    {
        let mut board: Vec<u8> = Vec::new();
        let mut i: usize = 0;
        while i < 64
            invariant
                i <= 64,
                board@.len() == i,
                forall|j: int| 0 <= j < i ==> board@[j] == 0,
            decreases 64 - i,
        {
            board.push(0);
            i = i + 1;
        }
        board
    }

    /// Snapshot of the 64-square board.
    pub fn get_board(&self) -> (board: Vec<u8>)
        ensures
            board@ == self.board@,
    {
        let mut board: Vec<u8> = Vec::new();
        let mut i: usize = 0;
        while i < self.board.len()
            invariant
                i <= self.board@.len(),
                board@ == self.board@.subrange(0, i as int),
            decreases self.board@.len() - i,
        {
            board.push(self.board[i]);
            i = i + 1;
        }
        proof {
            assert(board@ =~= self.board@);
        }
        board
    }

    /// The moves accepted so far, oldest first, as (from, to) square pairs.
    pub fn get_played_moves(&self) -> (moves: &Vec<[u8; 2]>)
        ensures
            moves@ == self.moves@,
    {
        &self.moves
    }

    /// Whether the side to move is in check.
    pub fn is_check(&self) -> (r: bool)
        ensures
            r == self.check,
    {
        self.check
    }

    /// Whether the side to move is checkmated.
    pub fn is_check_mate(&self) -> (r: bool)
        ensures
            r == self.check_mate,
    {
        self.check_mate
    }

    /// Whether the game is drawn.
    pub fn is_draw(&self) -> (r: bool)
        ensures
            r == self.draw,
    {
        self.draw
    }

    /// Whether white is the side to move.
    pub fn is_whites_turn(&self) -> (r: bool)
        ensures
            r == (self.turn & WHITE > 0),
    {
        if self.turn & WHITE > 0 {
            return true;
        } else {
            false
        }
    }

    /// Status snapshot: whose turn, in check, drawn, checkmated.
    pub fn get_game_status(&self) -> (r: (bool, bool, bool, bool))
        ensures
            r == (self.turn & WHITE > 0, self.check, self.draw, self.check_mate),
    {
        (self.is_whites_turn(), self.is_check(), self.is_draw(), self.is_check_mate())
    }
}

/// Zero-based file of a square-name letter, or 8 for any other character.
pub open spec fn letter_index(c: char) -> int {
    if c == 'a' || c == 'A' {
        0
    } else if c == 'b' || c == 'B' {
        1
    } else if c == 'c' || c == 'C' {
        2
    } else if c == 'd' || c == 'D' {
        3
    } else if c == 'e' || c == 'E' {
        4
    } else if c == 'f' || c == 'F' {
        5
    } else if c == 'g' || c == 'G' {
        6
    } else if c == 'h' || c == 'H' {
        7
    } else {
        8
    }
}

/// The string is a square name in algebraic notation: a file letter then a
/// rank digit, `a1` through `h8`.
pub open spec fn valid_square_name(s: Seq<char>) -> bool {
    s.len() == 2 && letter_index(s[0]) < 8 && 49 <= s[1] as int <= 56
}

/// Square index named by an algebraic square name: rank 8 is at the top of
/// the board array, so the index is `(8 - digit) * 8 + file`.
pub open spec fn alg_index(s: Seq<char>) -> int {
    (8 - (s[1] as int - 48)) * 8 + letter_index(s[0])
}

/// Converts an algebraic square name (`a1`..`h8`, either letter case) to the
/// index of that square in the board array.
pub fn algebraic_notation_to_memory_location(algebraic_notation: &str) -> (r: usize)
    requires
        valid_square_name(algebraic_notation@),
    ensures
        r == alg_index(algebraic_notation@),
        r < 64,
{
    let letter = algebraic_notation.get_char(0);
    let digit = algebraic_notation.get_char(1);
    let file: usize = if letter == 'a' || letter == 'A' {
        0
    } else if letter == 'b' || letter == 'B' {
        1
    } else if letter == 'c' || letter == 'C' {
        2
    } else if letter == 'd' || letter == 'D' {
        3
    } else if letter == 'e' || letter == 'E' {
        4
    } else if letter == 'f' || letter == 'F' {
        5
    } else if letter == 'g' || letter == 'G' {
        6
    } else {
        7
    };
    let code = digit as u32;
    let rank: usize = (8 - (code - 48)) as usize;
    rank * 8 + file
}

/// Color flag opposite to `color`.
fn other_color(color: u8) -> (r: u8)
    ensures
        r == opposite(color),
{
    if color == WHITE {
        BLACK
    } else {
        WHITE
    }
}

/// The king of `color` stands on a square below `n` that the other color
/// attacks.
spec fn king_checked_below(board: Seq<u8>, color: u8, n: int) -> bool {
    exists|t: int|
        0 <= t < n && board[t] & KING > 0 && board[t] & color > 0 && #[trigger] movement::attacked(
            board,
            opposite(color),
            t,
        )
}

/// Whether the king of `color` is attacked by the other color on this board.
fn king_is_checked(board: &Vec<u8>, color: u8, precomputed_distances: &Vec<u8>) -> (r: bool)
    requires
        board@.len() == 64,
        movement::dist_table_wf(precomputed_distances@),
    ensures
        r == in_check(board@, color),
{
    let attacker = other_color(color);
    let att = movement::attacked_squares_on_board(board, attacker, precomputed_distances);
    let mut found = false;
    let mut t: usize = 0;
    while t < 64
        invariant
            board@.len() == 64,
            att@.len() == 64,
            t <= 64,
            forall|x: int| 0 <= x < 64 ==> att@[x] == movement::attacked(board@, opposite(color), x),
            found == king_checked_below(board@, color, t as int),
        decreases 64 - t,
    {
        let ghost pre_found = found;
        if board[t] & KING > 0 && board[t] & color > 0 && att[t] {
            found = true;
        }
        proof {
            if board@[t as int] & KING > 0 && board@[t as int] & color > 0 && movement::attacked(
                board@,
                opposite(color),
                t as int,
            ) {
                assert(king_checked_below(board@, color, t as int + 1));
            } else {
                if king_checked_below(board@, color, t as int + 1) {
                    let w = choose|w: int|
                        0 <= w < t + 1 && board@[w] & KING > 0 && board@[w] & color > 0
                            && #[trigger] movement::attacked(board@, opposite(color), w);
                    assert(w < t);
                    assert(king_checked_below(board@, color, t as int));
                }
                if king_checked_below(board@, color, t as int) {
                    assert(king_checked_below(board@, color, t as int + 1));
                }
            }
        }
        t = t + 1;
    }
    proof {
        if in_check(board@, color) {
            let w = choose|w: int|
                0 <= w < 64 && board@[w] & KING > 0 && board@[w] & color > 0
                    && #[trigger] movement::attacked(board@, opposite(color), w);
            assert(king_checked_below(board@, color, 64));
        }
        if king_checked_below(board@, color, 64) {
            assert(in_check(board@, color));
        }
    }
    found
}

/// Attack mask of a king standing on `tile`: one step in each direction,
/// without castling destinations.
pub fn king_attacks_from_tile(game: &mut GAME, piece: u8, tile: usize) -> (mask: Vec<bool>)
    requires
        old(game).wf(),
        tile < 64,
    ensures
        *final(game) == *old(game),
        mask@.len() == 64,
        forall|x: int|
            0 <= x < 64 ==> mask@[x] == movement::king_step_target(
                old(game).board@,
                piece,
                tile as int,
                x,
            ),
{
    movement::king_step_mask(&game.board, piece, tile, &game.computed_distances)
}

/// Move mask of a king standing on `tile`: one step in each direction, plus
/// the open castling destinations.
pub fn king_movement_from_tile(game: &mut GAME, piece: u8, tile: usize) -> (mask: Vec<bool>)
    requires
        old(game).wf(),
        tile < 64,
    ensures
        *final(game) == *old(game),
        mask@.len() == 64,
        forall|x: int|
            0 <= x < 64 ==> mask@[x] == movement::king_move_target(
                old(game).board@,
                old(game).chastling_ability@,
                piece,
                tile as int,
                x,
            ),
{
    movement::king_movement_on_board(
        &game.board,
        &game.chastling_ability,
        piece,
        tile,
        &game.computed_distances,
    )
}

/// Pseudo-legal move mask of a piece standing on `from_tile`, dispatched by
/// its kind flag. While generating pawn moves, an open double push records
/// its skip square as the en-passant skip candidate.
pub fn available_moves_for_piece(piece_to_move: u8, from_tile: usize, game: &mut GAME) -> (mask: Vec<
    bool,
>)
    requires
        old(game).wf(),
        from_tile < 64,
    ensures
        (*final(game) == (GAME {
            potential_tile_to_un_passant: (if movement::dispatched_to_pawn(piece_to_move)
                && movement::double_push_available(
                old(game).board@,
                piece_to_move,
                from_tile as int,
            ) {
                movement::skip_square(piece_to_move, from_tile as int) as u8
            } else {
                old(game).potential_tile_to_un_passant
            }),
            ..(*old(game))
        })),
        mask@.len() == 64,
        forall|x: int|
            0 <= x < 64 ==> mask@[x] == movement::piece_move_target(
                old(game).board@,
                old(game).chastling_ability@,
                old(game).tile_available_to_un_passant,
                piece_to_move,
                from_tile as int,
                x,
            ),
{
    let r = movement::moves_for_piece_on_board(
        &game.board,
        &game.chastling_ability,
        game.tile_available_to_un_passant,
        piece_to_move,
        from_tile,
        &game.computed_distances,
    );
    let mask = r.0;
    match r.1 {
        Some(skip) => {
            game.potential_tile_to_un_passant = skip;
        },
        None => {},
    }
    mask
}

/// Attack mask of a piece standing on `from_tile`, dispatched by its kind
/// flag: for sliders and knights the same as the move mask; for a pawn, its
/// two forward diagonals whatever stands there; for a king, one step around
/// without castling destinations.
pub fn available_attacks_for_piece(piece_to_move: u8, from_tile: usize, game: &mut GAME) -> (mask:
    Vec<bool>)
    requires
        old(game).wf(),
        from_tile < 64,
    ensures
        *final(game) == *old(game),
        mask@.len() == 64,
        forall|x: int|
            0 <= x < 64 ==> mask@[x] == movement::piece_attacks(
                old(game).board@,
                piece_to_move,
                from_tile as int,
                x,
            ),
{
    movement::attacks_for_piece_on_board(
        &game.board,
        piece_to_move,
        from_tile,
        &game.computed_distances,
    )
}

/// Union of the attack masks of every piece of `enemy_color`: the squares
/// that color attacks, the primitive behind check detection and castling
/// vetoes.
pub fn get_all_attacked_squares(enemy_color: u8, game: &mut GAME) -> (mask: Vec<bool>)
    requires
        old(game).wf(),
    ensures
        *final(game) == *old(game),
        mask@.len() == 64,
        forall|x: int|
            0 <= x < 64 ==> mask@[x] == movement::attacked(old(game).board@, enemy_color, x),
{
    movement::attacked_squares_on_board(&game.board, enemy_color, &game.computed_distances)
}

/// Keeps the move request valid only when the piece belongs to the side to
/// move.
fn piece_is_correct_color(game: &mut GAME, piece_to_move: u8, if_valid_move: bool) -> (r: bool)
    ensures
        *final(game) == *old(game),
        r == (if_valid_move && piece_of_turn(old(game).turn, piece_to_move)),
{
    let mut if_valid_move = if_valid_move;
    if if_valid_move {
        if ((game.turn & WHITE) > 0) && ((piece_to_move & WHITE) > 0) {
            if_valid_move = true;
        } else if ((game.turn & BLACK) > 0) && ((piece_to_move & BLACK) > 0) {
            if_valid_move = true;
        } else {
            if_valid_move = false;
        }
    }
    if_valid_move
}

/// Keeps the move request valid only when the destination is in the piece's
/// pseudo-legal move mask.
fn is_legal_move_for_piece(
    game: &mut GAME,
    piece_to_move: u8,
    from_tile: usize,
    to_tile: usize,
    if_valid_move: bool,
) -> (r: bool)
    requires
        old(game).wf(),
        from_tile < 64,
        to_tile < 64,
    ensures
        (*final(game) == (GAME {
            potential_tile_to_un_passant: (if movement::dispatched_to_pawn(piece_to_move)
                && movement::double_push_available(
                old(game).board@,
                piece_to_move,
                from_tile as int,
            ) {
                movement::skip_square(piece_to_move, from_tile as int) as u8
            } else {
                old(game).potential_tile_to_un_passant
            }),
            ..(*old(game))
        })),
        r == (if_valid_move && movement::piece_move_target(
            old(game).board@,
            old(game).chastling_ability@,
            old(game).tile_available_to_un_passant,
            piece_to_move,
            from_tile as int,
            to_tile as int,
        )),
{
    let moves = available_moves_for_piece(piece_to_move, from_tile, game);
    if moves[to_tile] && if_valid_move {
        true
    } else {
        false
    }
}

/// En-passant target refresh mirroring the executor: the skip candidate on a
/// double push, cleared on any other pawn move, kept on a colorless pawn,
/// cleared otherwise.
spec fn ep_refresh(piece: u8, from: int, to: int, potential: u8, old_tile: u8) -> u8 {
    if piece & PAWN > 0 && piece & WHITE > 0 {
        if to == from - 16 {
            potential
        } else {
            NO_SQUARE
        }
    } else if piece & PAWN > 0 && piece & WHITE == 0 && piece & BLACK > 0 {
        if to == from + 16 {
            potential
        } else {
            NO_SQUARE
        }
    } else if piece & PAWN > 0 {
        old_tile
    } else {
        NO_SQUARE
    }
}

/// En-passant bookkeeping of an accepted move: removes the pawn captured en
/// passant, and sets the en-passant target offered to the next move.
fn handle_un_passant_logic(game: &mut GAME, piece_to_move: u8, from_tile: usize, to_tile: usize)
    requires
        old(game).board@.len() == 64,
        from_tile < 64,
        to_tile < 64,
    ensures
        final(game).board@ == board_after_ep(
            old(game).board@,
            old(game).tile_available_to_un_passant,
            piece_to_move,
            from_tile as int,
            to_tile as int,
        ),
        (*final(game) == (GAME {
            board: final(game).board,
            tile_available_to_un_passant: ep_refresh(
                piece_to_move,
                from_tile as int,
                to_tile as int,
                old(game).potential_tile_to_un_passant,
                old(game).tile_available_to_un_passant,
            ),
            ..(*old(game))
        })),
{
    if piece_to_move & PAWN > 0 {
        if piece_to_move & WHITE > 0 {
            if from_tile >= 24 && from_tile <= 31 && (to_tile == from_tile - 7 || to_tile
                == from_tile - 9) && to_tile == game.tile_available_to_un_passant as usize {
                let captured = to_tile + 8;
                game.board[captured] = 0;
            }
            if from_tile >= 16 && to_tile == from_tile - 16 {
                game.tile_available_to_un_passant = game.potential_tile_to_un_passant;
            } else {
                game.tile_available_to_un_passant = NO_SQUARE;
            }
        } else if piece_to_move & BLACK > 0 {
            if from_tile >= 32 && from_tile <= 39 && (to_tile == from_tile + 7 || to_tile
                == from_tile + 9) && to_tile == game.tile_available_to_un_passant as usize {
                let captured = to_tile - 8;
                game.board[captured] = 0;
            }
            if to_tile == from_tile + 16 {
                game.tile_available_to_un_passant = game.potential_tile_to_un_passant;
            } else {
                game.tile_available_to_un_passant = NO_SQUARE;
            }
        }
    } else {
        game.tile_available_to_un_passant = NO_SQUARE;
    }
}

/// Promotion square refresh mirroring the executor: set when a pawn reached
/// its last rank, kept on any other pawn move, cleared otherwise.
spec fn promote_refresh(piece: u8, to: int, old_promoting: u8) -> u8 {
    if piece & PAWN > 0 {
        if piece & WHITE > 0 {
            if to <= 7 {
                to as u8
            } else {
                old_promoting
            }
        } else if piece & BLACK > 0 {
            if 56 <= to <= 63 {
                to as u8
            } else {
                old_promoting
            }
        } else {
            old_promoting
        }
    } else {
        NO_SQUARE
    }
}

/// Promotion bookkeeping of an accepted move: records the destination as the
/// pending-promotion square when a pawn reached its last rank.
fn handle_promote_logic(game: &mut GAME, piece_to_move: u8, to_tile: usize)
    requires
        to_tile < 64,
    ensures
        (*final(game) == (GAME {
            promoting: promote_refresh(piece_to_move, to_tile as int, old(game).promoting),
            ..(*old(game))
        })),
{
    if piece_to_move & PAWN > 0 {
        if piece_to_move & WHITE > 0 {
            if to_tile <= 7 {
                game.promoting = to_tile as u8;
            }
        } else if piece_to_move & BLACK > 0 {
            if to_tile >= 56 && to_tile <= 63 {
                game.promoting = to_tile as u8;
            }
        }
    } else {
        game.promoting = NO_SQUARE;
    }
}

/// Applies the board mutation of an accepted move: king and rook together on
/// a recognized castling pattern, else the plain relocation of the piece.
fn move_the_piece(game: &mut GAME, piece_to_move: u8, from_tile: usize, to_tile: usize)
    requires
        old(game).board@.len() == 64,
        old(game).chastling_ability@.len() == 4,
        from_tile < 64,
        to_tile < 64,
    ensures
        final(game).board@ == board_after_relocation(
            old(game).board@,
            old(game).chastling_ability@,
            piece_to_move,
            from_tile as int,
            to_tile as int,
        ),
        (*final(game) == (GAME { board: final(game).board, ..(*old(game)) })),
{
    if game.chastling_ability[0] && to_tile == 62 && from_tile == 60 && piece_to_move & KING > 0
        && game.board[63] & ROOK > 0 && piece_to_move & WHITE > 0 && game.board[63] & WHITE > 0 {
        game.board[60] = 0;
        game.board[61] = ROOK + WHITE;
        game.board[62] = piece_to_move;
        game.board[63] = 0;
    } else if game.chastling_ability[1] && to_tile == 58 && from_tile == 60 && piece_to_move & KING
        > 0 && game.board[56] & ROOK > 0 && piece_to_move & WHITE > 0 && game.board[56] & WHITE
        > 0 {
        game.board[56] = 0;
        game.board[59] = ROOK + WHITE;
        game.board[58] = piece_to_move;
        game.board[60] = 0;
    } else if game.chastling_ability[2] && to_tile == 6 && from_tile == 4 && piece_to_move & KING
        > 0 && game.board[7] & ROOK > 0 && piece_to_move & BLACK > 0 && game.board[7] & BLACK > 0 {
        game.board[4] = 0;
        game.board[5] = ROOK + BLACK;
        game.board[6] = piece_to_move;
        game.board[7] = 0;
    } else if game.chastling_ability[3] && to_tile == 2 && from_tile == 4 && piece_to_move & KING
        > 0 && game.board[0] & ROOK > 0 && piece_to_move & BLACK > 0 && game.board[0] & BLACK > 0 {
        game.board[0] = 0;
        game.board[3] = ROOK + BLACK;
        game.board[2] = piece_to_move;
        game.board[4] = 0;
    } else {
        game.board[from_tile] = 0;
        game.board[to_tile] = piece_to_move;
    }
}

/// Clears every castling right whose king or rook start square was vacated
/// or landed on by the move.
fn update_chastling_ability(game: &mut GAME, from_tile: usize, to_tile: usize)
    requires
        old(game).chastling_ability@.len() == 4,
    ensures
        final(game).chastling_ability@ == rights_after(
            old(game).chastling_ability@,
            from_tile as int,
            to_tile as int,
        ),
        (*final(game) == (GAME { chastling_ability: final(game).chastling_ability, ..(*old(game)) })),
{
    if from_tile == 63 || to_tile == 63 {
        game.chastling_ability[0] = false;
    }
    if from_tile == 56 || to_tile == 56 {
        game.chastling_ability[1] = false;
    }
    if from_tile == 60 || to_tile == 60 {
        game.chastling_ability[0] = false;
        game.chastling_ability[1] = false;
    }
    if from_tile == 7 || to_tile == 7 {
        game.chastling_ability[2] = false;
    }
    if from_tile == 0 || to_tile == 0 {
        game.chastling_ability[3] = false;
    }
    if from_tile == 4 || to_tile == 4 {
        game.chastling_ability[2] = false;
        game.chastling_ability[3] = false;
    }
    proof {
        assert(final(game).chastling_ability@ =~= rights_after(
            old(game).chastling_ability@,
            from_tile as int,
            to_tile as int,
        ));
    }
}

/// Recomputes the check flag after a committed move: whether the king of the
/// side about to move stands attacked by the side that just moved.
fn check_if_enemy_king_is_checked(game: &mut GAME)
    requires
        old(game).wf(),
    ensures
        (*final(game) == (GAME {
            check: in_check(old(game).board@, opposite(old(game).turn)),
            ..(*old(game))
        })),
{
    let checkable = other_color(game.turn);
    let checked = king_is_checked(&game.board, checkable, &game.computed_distances);
    game.check = checked;
}

/// Flips the side to move.
fn swap_turn(game: &mut GAME)
    ensures
        (*final(game) == (GAME { turn: opposite(old(game).turn), ..(*old(game)) })),
{
    if game.turn == WHITE {
        game.turn = BLACK;
    } else {
        game.turn = WHITE;
    }
}

/// Element-wise copy of a vector of plain values.
fn copy_vec<T: Copy>(v: &Vec<T>) -> (r: Vec<T>)
    ensures
        r@ == v@,
{
    let mut r: Vec<T> = Vec::new();
    let mut i: usize = 0;
    while i < v.len()
        invariant
            i <= v@.len(),
            r@ == v@.subrange(0, i as int),
        decreases v@.len() - i,
    {
        r.push(v[i]);
        i = i + 1;
    }
    proof {
        assert(r@ =~= v@);
    }
    r
}

/// Disposable duplicate of the game state, used to test king safety of a
/// candidate move without touching the authoritative state.
fn clone_for_validation(game: &GAME) -> (r: GAME)
    ensures
        r.computed_distances@ == game.computed_distances@,
        r.board@ == game.board@,
        r.turn == game.turn,
        r.moves@ == game.moves@,
        r.tile_available_to_un_passant == game.tile_available_to_un_passant,
        r.potential_tile_to_un_passant == game.potential_tile_to_un_passant,
        r.chastling_ability@ == game.chastling_ability@,
        r.check == game.check,
        r.draw == game.draw,
        r.check_mate == game.check_mate,
        r.promoting == game.promoting,
{
    GAME {
        computed_distances: copy_vec(&game.computed_distances),
        board: copy_vec(&game.board),
        turn: game.turn,
        moves: copy_vec(&game.moves),
        tile_available_to_un_passant: game.tile_available_to_un_passant,
        potential_tile_to_un_passant: game.potential_tile_to_un_passant,
        chastling_ability: copy_vec(&game.chastling_ability),
        check: game.check,
        draw: game.draw,
        check_mate: game.check_mate,
        promoting: game.promoting,
    }
}

/// The whole board mutation of a move keeps every entry valid.
proof fn lemma_board_after_move_valid(
    board: Seq<u8>,
    rights: Seq<bool>,
    ep: u8,
    piece: u8,
    from: int,
    to: int,
)
    requires
        board.len() == 64,
        forall|i: int| 0 <= i < 64 ==> valid_entry(#[trigger] board[i]),
        valid_entry(piece),
        0 <= from < 64,
        0 <= to < 64,
    ensures
        board_after_move(board, rights, ep, piece, from, to).len() == 64,
        forall|i: int|
            0 <= i < 64 ==> valid_entry(
                #[trigger] board_after_move(board, rights, ep, piece, from, to)[i],
            ),
{
    let b1 = board_after_ep(board, ep, piece, from, to);
    assert(b1.len() == 64);
    assert forall|i: int| 0 <= i < 64 implies valid_entry(#[trigger] b1[i]) by {
        assert(valid_entry(board[i]));
    }
    let b2 = board_after_relocation(b1, rights, piece, from, to);
    assert forall|i: int| 0 <= i < 64 implies valid_entry(#[trigger] b2[i]) by {
        assert(valid_entry(b1[i]));
        assert(valid_entry(0u8));
        assert(valid_entry((ROOK + WHITE) as u8));
        assert(valid_entry((ROOK + BLACK) as u8));
    }
}

/// A pseudo-legal move never keeps the piece on its own square.
proof fn lemma_move_target_moves(
    board: Seq<u8>,
    rights: Seq<bool>,
    ep: u8,
    piece: u8,
    from: int,
    to: int,
)
    requires
        movement::piece_move_target(board, rights, ep, piece, from, to),
    ensures
        from != to,
{
    if piece & KING > 0 {
        if movement::king_step_target(board, piece, from, to) {
            let d = choose|d: int|
                0 <= d < 8 && #[trigger] movement::edge_dist(from, d) > 0 && to == from
                    + movement::dir_offset(d) && board[to] & movement::own_color(piece) == 0;
            assert(movement::dir_offset(d) != 0);
        }
    } else if piece & QUEEN > 0 || piece & ROOK > 0 || piece & BISHOP > 0 {
        let d = choose|d: int|
            0 <= d < 8 && #[trigger] movement::ray_target(
                board,
                piece,
                from,
                d,
                movement::edge_dist(from, d),
                to,
            );
        movement::lemma_ray_offset(board, piece, from, d, movement::edge_dist(from, d), to);
        let k = choose|k: int|
            1 <= k <= movement::edge_dist(from, d) && #[trigger] movement::ray_displacement(
                from,
                d,
                k,
                to,
            );
        assert(k * movement::dir_offset(d) != 0) by {
            let off = movement::dir_offset(d);
            assert(off != 0);
            assert(k >= 1 && off != 0 ==> k * off != 0) by (nonlinear_arith);
        }
    } else if piece & KNIGHT > 0 {
        let i = choose|i: int|
            0 <= i < 8 && #[trigger] movement::knight_fits(from, i) && to == from
                + movement::knight_offset(i) && board[to] & movement::own_color(piece) == 0;
        assert(movement::knight_offset(i) != 0);
    }
}

/// Law: the board mutation of an accepted move that matches no castling
/// pattern and captures no pawn en passant changes exactly two squares: the
/// origin, now empty, and the destination, now holding the moved piece.
///
/// An en-passant capture also empties the square of the captured pawn, and
/// castling relocates the rook beside the king; those moves are left out
/// here.
pub proof fn lemma_simple_move_changes_two_squares(g: GAME, from: int, to: int)
    requires
        g.wf(),
        0 <= from < 64,
        0 <= to < 64,
        move_accepted(g, from, to),
        !is_ep_capture(g.tile_available_to_un_passant, g.board@[from], from, to),
        !white_ks_castle(g.board@, g.chastling_ability@, g.board@[from], from, to),
        !white_qs_castle(g.board@, g.chastling_ability@, g.board@[from], from, to),
        !black_ks_castle(g.board@, g.chastling_ability@, g.board@[from], from, to),
        !black_qs_castle(g.board@, g.chastling_ability@, g.board@[from], from, to),
    ensures
        ({
            let after = board_after_move(
                g.board@,
                g.chastling_ability@,
                g.tile_available_to_un_passant,
                g.board@[from],
                from,
                to,
            );
            &&& after.len() == 64
            &&& from != to
            &&& after[from] == 0
            &&& after[to] == g.board@[from]
            &&& after[to] != 0
            &&& forall|i: int| 0 <= i < 64 && i != from && i != to ==> after[i] == g.board@[i]
        }),
{
    let piece = g.board@[from];
    lemma_move_target_moves(
        g.board@,
        g.chastling_ability@,
        g.tile_available_to_un_passant,
        piece,
        from,
        to,
    );
    lemma_entry_bits(piece);
    assert(piece != 0);
}

/// Law: an en-passant capture removes the passed pawn from the square one
/// rank behind the capture target, not from the capture target itself.
pub proof fn lemma_ep_capture_removes_passed_pawn(g: GAME, from: int, to: int)
    requires
        g.wf(),
        0 <= from < 64,
        0 <= to < 64,
        move_accepted(g, from, to),
        is_ep_capture(g.tile_available_to_un_passant, g.board@[from], from, to),
    ensures
        ({
            let after = board_after_move(
                g.board@,
                g.chastling_ability@,
                g.tile_available_to_un_passant,
                g.board@[from],
                from,
                to,
            );
            let captured = ep_captured_square(g.board@[from], to);
            &&& captured == (if g.board@[from] & WHITE > 0 {
                to + 8
            } else {
                to - 8
            })
            &&& captured != to
            &&& after[captured] == 0
            &&& after[to] == g.board@[from]
        }),
{
    let piece = g.board@[from];
    lemma_entry_bits(piece);
}

/// Law: while a promotion is pending, every move request is rejected.
pub proof fn lemma_pending_promotion_blocks_moves(g: GAME, from: int, to: int)
    requires
        g.promoting != NO_SQUARE,
    ensures
        !move_accepted(g, from, to),
{
}

/// Requests the move named by two algebraic square names for the side to
/// move.
///
/// The request is rejected, leaving the whole state unchanged apart from the
/// en-passant skip candidate scratch field, if a promotion is pending, the
/// origin square does not hold a piece of the side to move, the destination
/// is not in that piece's pseudo-legal move mask, or the fully applied move
/// would leave the mover's own king attacked; king safety is tested on a
/// disposable duplicate of the state. On acceptance the board mutation is
/// committed together with its en-passant, promotion and castling-rights
/// bookkeeping, the move is recorded, the side to move flips, and the check
/// flag says whether the new side to move stands in check.
pub fn move_piece_from_to(from_tile: &str, to_tile: &str, game: &mut GAME) -> (r: bool)
    requires
        old(game).wf(),
        valid_square_name(from_tile@),
        valid_square_name(to_tile@),
    ensures
        final(game).wf(),
        r == move_accepted(*old(game), alg_index(from_tile@), alg_index(to_tile@)),
        final(game).potential_tile_to_un_passant == (if movement::dispatched_to_pawn(
            old(game).board@[alg_index(from_tile@)],
        ) && movement::double_push_available(
            old(game).board@,
            old(game).board@[alg_index(from_tile@)],
            alg_index(from_tile@),
        ) {
            movement::skip_square(old(game).board@[alg_index(from_tile@)], alg_index(from_tile@))
                as u8
        } else {
            old(game).potential_tile_to_un_passant
        }),
        !r ==> (*final(game) == (GAME {
            potential_tile_to_un_passant: final(game).potential_tile_to_un_passant,
            ..(*old(game))
        })),
        r ==> final(game).board@ == board_after_move(
            old(game).board@,
            old(game).chastling_ability@,
            old(game).tile_available_to_un_passant,
            old(game).board@[alg_index(from_tile@)],
            alg_index(from_tile@),
            alg_index(to_tile@),
        ),
        r ==> final(game).turn == opposite(old(game).turn),
        r ==> final(game).chastling_ability@ == rights_after(
            old(game).chastling_ability@,
            alg_index(from_tile@),
            alg_index(to_tile@),
        ),
        r ==> final(game).tile_available_to_un_passant == ep_target_after(
            old(game).board@[alg_index(from_tile@)],
            alg_index(from_tile@),
            alg_index(to_tile@),
        ),
        r ==> final(game).promoting == promoting_after(
            old(game).board@[alg_index(from_tile@)],
            alg_index(to_tile@),
        ),
        r ==> final(game).check == in_check(final(game).board@, opposite(old(game).turn)),
        r ==> final(game).moves@ == old(game).moves@.push(
            [alg_index(from_tile@) as u8, alg_index(to_tile@) as u8],
        ),
        r ==> final(game).draw == old(game).draw && final(game).check_mate == old(
            game,
        ).check_mate && final(game).computed_distances@ == old(game).computed_distances@,
{
    let from_tile = algebraic_notation_to_memory_location(from_tile);
    let to_tile = algebraic_notation_to_memory_location(to_tile);
    let piece_to_move = game.board[from_tile];
    let mut if_valid_move = false;

    if game.promoting == NO_SQUARE {
        if_valid_move = true;
    }

    if_valid_move = piece_is_correct_color(game, piece_to_move, if_valid_move);

    if_valid_move = is_legal_move_for_piece(game, piece_to_move, from_tile, to_tile, if_valid_move);

    if if_valid_move {
        let mut game_clone = clone_for_validation(game);
        handle_un_passant_logic(&mut game_clone, piece_to_move, from_tile, to_tile);
        handle_promote_logic(&mut game_clone, piece_to_move, to_tile);
        move_the_piece(&mut game_clone, piece_to_move, from_tile, to_tile);
        proof {
            assert(game_clone.board@ == board_after_move(
                old(game).board@,
                old(game).chastling_ability@,
                old(game).tile_available_to_un_passant,
                piece_to_move,
                from_tile as int,
                to_tile as int,
            ));
        }
        let allied_checked = king_is_checked(&game_clone.board, game.turn, &game.computed_distances);

        if allied_checked {
            if_valid_move = false;
        } else {
            handle_un_passant_logic(game, piece_to_move, from_tile, to_tile);
            handle_promote_logic(game, piece_to_move, to_tile);
            move_the_piece(game, piece_to_move, from_tile, to_tile);
            proof {
                lemma_board_after_move_valid(
                    old(game).board@,
                    old(game).chastling_ability@,
                    old(game).tile_available_to_un_passant,
                    piece_to_move,
                    from_tile as int,
                    to_tile as int,
                );
            }
            update_chastling_ability(game, from_tile, to_tile);
            check_if_enemy_king_is_checked(game);
            game.moves.push([from_tile as u8, to_tile as u8]);
            swap_turn(game);
            proof {
                lemma_entry_bits(piece_to_move);
            }
        }
    }
    if_valid_move
}

/// Kind flag chosen by a one-character promotion selector: `q`, `r`, `b` or
/// `k`, or 0 for any other string.
pub open spec fn selector_kind(s: Seq<char>) -> u8 {
    if s.len() == 1 {
        if s[0] == 'q' {
            QUEEN
        } else if s[0] == 'r' {
            ROOK
        } else if s[0] == 'b' {
            BISHOP
        } else if s[0] == 'k' {
            KNIGHT
        } else {
            0
        }
    } else {
        0
    }
}

/// Resolves a pending pawn promotion with a one-character piece selector:
/// `q` queen, `r` rook, `b` bishop, `k` knight.
///
/// Succeeds only while a promotion is pending and the selector is
/// recognized; the promoted piece takes the color of the side that just
/// moved, the opposite of the side to move. Any other request reports
/// failure and leaves the state unchanged.
pub fn promote_pawn(new_type: &str, game: &mut GAME) -> (r: bool)
    requires
        old(game).wf(),
    ensures
        final(game).wf(),
        r == (old(game).promoting <= 63 && selector_kind(new_type@) != 0),
        r ==> final(game).board@ == old(game).board@.update(
            old(game).promoting as int,
            (selector_kind(new_type@) + (if old(game).turn & WHITE > 0 {
                BLACK
            } else {
                WHITE
            })) as u8,
        ),
        r ==> (*final(game) == (GAME {
            board: final(game).board,
            promoting: NO_SQUARE,
            ..(*old(game))
        })),
        !r ==> *final(game) == *old(game),
{
    let mut if_valid_move = false;
    if game.promoting <= 63 {
        let promotiong_piece_color: u8 = if (game.turn & WHITE) > 0 {
            BLACK
        } else {
            WHITE
        };
        let tile_promoting = game.promoting as usize;

        if new_type.unicode_len() == 1 {
            let selector = new_type.get_char(0);
            if selector == 'q' {
                game.board[tile_promoting] = QUEEN + promotiong_piece_color;
                game.promoting = NO_SQUARE;
                if_valid_move = true;
            } else if selector == 'r' {
                game.board[tile_promoting] = ROOK + promotiong_piece_color;
                game.promoting = NO_SQUARE;
                if_valid_move = true;
            } else if selector == 'b' {
                game.board[tile_promoting] = BISHOP + promotiong_piece_color;
                game.promoting = NO_SQUARE;
                if_valid_move = true;
            } else if selector == 'k' {
                game.board[tile_promoting] = KNIGHT + promotiong_piece_color;
                game.promoting = NO_SQUARE;
                if_valid_move = true;
            }
        }
    }
    if_valid_move
}

/// Whitespace for the purpose of splitting a position string into fields.
pub open spec fn is_ws(c: char) -> bool {
    c == ' ' || c == '\t' || c == '\n' || c == '\r'
}

/// Index of the first non-whitespace character at or after `i`, or the
/// length of the string.
pub open spec fn skip_ws(s: Seq<char>, i: int) -> int
    decreases s.len() - i,
{
    if i < 0 || i >= s.len() {
        s.len() as int
    } else if is_ws(s[i]) {
        skip_ws(s, i + 1)
    } else {
        i
    }
}

/// Index of the first whitespace character at or after `i`, or the length
/// of the string.
pub open spec fn end_word(s: Seq<char>, i: int) -> int
    decreases s.len() - i,
{
    if i < 0 || i >= s.len() {
        s.len() as int
    } else if is_ws(s[i]) {
        i
    } else {
        end_word(s, i + 1)
    }
}

/// Start index of the `k`-th whitespace-separated field.
pub open spec fn field_start(s: Seq<char>, k: int) -> int
    decreases k,
{
    if k <= 0 {
        skip_ws(s, 0)
    } else {
        skip_ws(s, end_word(s, field_start(s, k - 1)))
    }
}

/// The string has a `k`-th whitespace-separated field.
pub open spec fn has_field(s: Seq<char>, k: int) -> bool {
    field_start(s, k) < s.len()
}

/// The `k`-th whitespace-separated field.
pub open spec fn field(s: Seq<char>, k: int) -> Seq<char> {
    s.subrange(field_start(s, k), end_word(s, field_start(s, k)))
}

/// An ASCII decimal digit.
pub open spec fn is_digit(c: char) -> bool {
    48 <= c as int <= 57
}

/// Piece kind named by a placement symbol in either letter case, or 0.
pub open spec fn symbol_kind(c: char) -> u8 {
    if c == 'k' || c == 'K' {
        KING
    } else if c == 'p' || c == 'P' {
        PAWN
    } else if c == 'n' || c == 'N' {
        KNIGHT
    } else if c == 'b' || c == 'B' {
        BISHOP
    } else if c == 'r' || c == 'R' {
        ROOK
    } else if c == 'q' || c == 'Q' {
        QUEEN
    } else {
        0
    }
}

/// Color denoted by the letter case of a placement symbol: upper case is
/// white.
pub open spec fn symbol_color(c: char) -> u8 {
    if 65 <= c as int <= 90 {
        WHITE
    } else {
        BLACK
    }
}

/// Rank counter of the placement fold, capped just past the board so the
/// arithmetic stays bounded; a capped rank can never produce an on-board
/// square.
pub open spec fn next_rank(rank: int) -> int {
    if rank + 1 > 8 {
        9
    } else {
        rank + 1
    }
}

/// File counter of the placement fold after advancing by `d`, capped just
/// past the board so the arithmetic stays bounded; a capped file can never
/// produce an on-board square.
pub open spec fn next_file(file: int, d: int) -> int {
    if file + d > 64 {
        65
    } else {
        file + d
    }
}

/// Board after reading a placement field: `/` starts the next rank, a digit
/// skips that many files, a piece letter writes one entry at
/// `rank * 8 + file`. Characters that are no symbol, and writes that would
/// fall outside the board, write nothing; [`place_ok`] rules them out.
pub open spec fn place_board(board: Seq<u8>, rank: int, file: int, s: Seq<char>) -> Seq<u8>
    decreases s.len(),
{
    if s.len() == 0 {
        board
    } else {
        let c = s[0];
        let rest = s.drop_first();
        if c == '/' {
            place_board(board, next_rank(rank), 0, rest)
        } else if is_digit(c) {
            place_board(board, rank, next_file(file, c as int - 48), rest)
        } else if symbol_kind(c) != 0 && 0 <= rank * 8 + file < 64 {
            place_board(
                board.update(rank * 8 + file, (symbol_kind(c) + symbol_color(c)) as u8),
                rank,
                next_file(file, 1),
                rest,
            )
        } else {
            place_board(board, rank, next_file(file, if symbol_kind(c) != 0 {
                1
            } else {
                0
            }), rest)
        }
    }
}

/// The placement field is well-formed from this fold state on: every letter
/// is a piece symbol and every write lands on the board.
pub open spec fn place_ok(rank: int, file: int, s: Seq<char>) -> bool
    decreases s.len(),
{
    if s.len() == 0 {
        true
    } else {
        let c = s[0];
        let rest = s.drop_first();
        if c == '/' {
            place_ok(next_rank(rank), 0, rest)
        } else if is_digit(c) {
            place_ok(rank, next_file(file, c as int - 48), rest)
        } else if symbol_kind(c) != 0 && 0 <= rank * 8 + file < 64 {
            place_ok(rank, next_file(file, 1), rest)
        } else {
            false
        }
    }
}

/// Side to move named by the active-color field: `w` or `b`, anything else
/// keeps the current side.
pub open spec fn turn_of(s: Seq<char>, cur: u8) -> u8 {
    if s.len() == 1 && s[0] == 'w' {
        WHITE
    } else if s.len() == 1 && s[0] == 'b' {
        BLACK
    } else {
        cur
    }
}

/// Castling rights after reading the availability field: each of `K`, `Q`,
/// `k`, `q` sets its flag, other characters change nothing.
pub open spec fn rights_of(rights: Seq<bool>, s: Seq<char>) -> Seq<bool>
    decreases s.len(),
{
    if s.len() == 0 {
        rights
    } else {
        let c = s[0];
        let r2 = if c == 'K' {
            rights.update(0, true)
        } else if c == 'Q' {
            rights.update(1, true)
        } else if c == 'k' {
            rights.update(2, true)
        } else if c == 'q' {
            rights.update(3, true)
        } else {
            rights
        };
        rights_of(r2, s.drop_first())
    }
}

/// The field holds a `-` character somewhere.
pub open spec fn has_dash(s: Seq<char>) -> bool {
    exists|i: int| 0 <= i < s.len() && s[i] == '-'
}

/// Decimal value of the field read left to right, saturating: a value past
/// 255 sticks at 299, a non-digit character sticks at 300.
pub open spec fn numeral_fold(acc: int, s: Seq<char>) -> int
    decreases s.len(),
{
    if s.len() == 0 {
        acc
    } else {
        let c = s[0];
        let acc2 = if acc >= 256 {
            acc
        } else if !is_digit(c) {
            300
        } else if acc * 10 + (c as int - 48) > 255 {
            299
        } else {
            acc * 10 + (c as int - 48)
        };
        numeral_fold(acc2, s.drop_first())
    }
}

/// The field is a plain decimal numeral whose value fits in a byte.
pub open spec fn is_u8_numeral(s: Seq<char>) -> bool {
    s.len() >= 1 && numeral_fold(0, s) <= 255
}

/// The position string can be loaded without error: its placement field is
/// well-formed, and its en-passant field, when present, is a dash or a
/// numeral that fits in a byte.
pub open spec fn fen_loadable(s: Seq<char>) -> bool {
    &&& place_ok(0, 0, field(s, 0))
    &&& (has_field(s, 3) && !has_dash(field(s, 3)) ==> is_u8_numeral(field(s, 3)))
}

/// The position string every game starts from.
pub const STARTINGFEN: &'static str = "rnbqkbnr/pppppppp/8/6P/6p/8/PPPPPPPP/RNBQKBNR w KQkq - 0 1";

/// The empty board as a sequence: 64 empty squares.
pub open spec fn blank_board() -> Seq<u8> {
    Seq::new(64, |i: int| 0u8)
}

/// Whitespace test on one character.
fn is_ws_char(c: char) -> (r: bool)
    ensures
        r == is_ws(c),
{
    c == ' ' || c == '\t' || c == '\n' || c == '\r'
}

/// First index at or after `i` holding a non-whitespace character.
fn scan_skip_ws(s: &str, i: usize) -> (r: usize)
    requires
        i <= s@.len(),
    ensures
        r == skip_ws(s@, i as int),
        i <= r <= s@.len(),
{
    let n = s.unicode_len();
    let mut j = i;
    while j < n && is_ws_char(s.get_char(j))
        invariant
            i <= j <= n,
            n == s@.len(),
            skip_ws(s@, i as int) == skip_ws(s@, j as int),
        decreases n - j,
    {
        j = j + 1;
    }
    j
}

/// First index at or after `i` holding a whitespace character.
fn scan_end_word(s: &str, i: usize) -> (r: usize)
    requires
        i <= s@.len(),
    ensures
        r == end_word(s@, i as int),
        i <= r <= s@.len(),
{
    let n = s.unicode_len();
    let mut j = i;
    while j < n && !is_ws_char(s.get_char(j))
        invariant
            i <= j <= n,
            n == s@.len(),
            end_word(s@, i as int) == end_word(s@, j as int),
        decreases n - j,
    {
        j = j + 1;
    }
    j
}

/// Piece kind named by a placement symbol, or 0.
fn symbol_kind_exec(c: char) -> (r: u8)
    ensures
        r == symbol_kind(c),
{
    if c == 'k' || c == 'K' {
        KING
    } else if c == 'p' || c == 'P' {
        PAWN
    } else if c == 'n' || c == 'N' {
        KNIGHT
    } else if c == 'b' || c == 'B' {
        BISHOP
    } else if c == 'r' || c == 'R' {
        ROOK
    } else if c == 'q' || c == 'Q' {
        QUEEN
    } else {
        0
    }
}

/// Reads a well-formed placement field onto the board.
fn apply_placement(positions: &str, board: &mut Vec<u8>)
    requires
        old(board)@.len() == 64,
        forall|i: int| 0 <= i < 64 ==> valid_entry(#[trigger] old(board)@[i]),
        place_ok(0, 0, positions@),
    ensures
        final(board)@ == place_board(old(board)@, 0, 0, positions@),
        final(board)@.len() == 64,
        forall|i: int| 0 <= i < 64 ==> valid_entry(#[trigger] final(board)@[i]),
{
    let n = positions.unicode_len();
    let mut i: usize = 0;
    let mut rank: usize = 0;
    let mut file: usize = 0;
    proof {
        assert(positions@.subrange(0, n as int) =~= positions@);
    }
    while i < n
        invariant
            i <= n,
            n == positions@.len(),
            board@.len() == 64,
            forall|k: int| 0 <= k < 64 ==> valid_entry(#[trigger] board@[k]),
            rank <= 9,
            file <= 65,
            place_board(old(board)@, 0, 0, positions@) == place_board(
                board@,
                rank as int,
                file as int,
                positions@.subrange(i as int, n as int),
            ),
            place_ok(0, 0, positions@) == place_ok(
                rank as int,
                file as int,
                positions@.subrange(i as int, n as int),
            ),
            place_ok(0, 0, positions@),
        decreases n - i,
    {
        let c = positions.get_char(i);
        proof {
            assert(positions@.subrange(i as int, n as int)[0] == c);
            assert(positions@.subrange(i as int, n as int).drop_first() =~= positions@.subrange(
                i as int + 1,
                n as int,
            ));
        }
        let code = c as u32;
        if c == '/' {
            rank = if rank + 1 > 8 {
                9
            } else {
                rank + 1
            };
            file = 0;
        } else if code >= 48 && code <= 57 {
            let d = (code - 48) as usize;
            file = if file + d > 64 {
                65
            } else {
                file + d
            };
        } else {
            let kind = symbol_kind_exec(c);
            let sq = rank * 8 + file;
            let color: u8 = if code >= 65 && code <= 90 {
                WHITE
            } else {
                BLACK
            };
            board[sq] = kind + color;
            file = if file + 1 > 64 {
                65
            } else {
                file + 1
            };
        }
        i = i + 1;
    }
    proof {
        assert(positions@.subrange(n as int, n as int).len() == 0);
    }
}

/// A dash occurs among the first `k` characters.
spec fn dash_below(s: Seq<char>, k: int) -> bool {
    exists|i: int| 0 <= i < k && s[i] == '-'
}

/// Parses a position string: six whitespace-separated fields of which the
/// first, the piece placement, is read onto a copy of the current board;
/// the active color and castling availability are written into the game;
/// the en-passant target is returned beside the board; the half-move and
/// full-move counters are accepted but unused.
pub fn load_position_from_fen(fen: &str, game: &mut GAME) -> (r: (Vec<u8>, u8))
    requires
        old(game).wf(),
        fen_loadable(fen@),
    ensures
        final(game).wf(),
        r.0@ == place_board(old(game).board@, 0, 0, field(fen@, 0)),
        r.0@.len() == 64,
        forall|i: int| 0 <= i < 64 ==> valid_entry(#[trigger] r.0@[i]),
        r.1 == (if has_field(fen@, 3) {
            if has_dash(field(fen@, 3)) {
                NO_SQUARE
            } else {
                numeral_fold(0, field(fen@, 3)) as u8
            }
        } else {
            old(game).tile_available_to_un_passant
        }),
        final(game).turn == (if has_field(fen@, 1) {
            turn_of(field(fen@, 1), old(game).turn)
        } else {
            old(game).turn
        }),
        final(game).chastling_ability@ == (if has_field(fen@, 2) {
            rights_of(old(game).chastling_ability@, field(fen@, 2))
        } else {
            old(game).chastling_ability@
        }),
        (*final(game) == (GAME {
            turn: final(game).turn,
            chastling_ability: final(game).chastling_ability,
            ..(*old(game))
        })),
{
    let mut board = copy_vec(&game.board);
    let mut tile_available_to_un_passant: u8 = game.tile_available_to_un_passant;
    let n = fen.unicode_len();
    let s0 = scan_skip_ws(fen, 0);
    if s0 < n {
        let e0 = scan_end_word(fen, s0);
        let positions = fen.substring_char(s0, e0);
        proof {
            assert(positions@ =~= field(fen@, 0));
        }
        apply_placement(positions, &mut board);
        let s1 = scan_skip_ws(fen, e0);
        proof {
            assert(s1 == field_start(fen@, 1));
        }
        if s1 < n {
            let e1 = scan_end_word(fen, s1);
            if e1 - s1 == 1 {
                let c = fen.get_char(s1);
                if c == 'w' {
                    game.turn = WHITE;
                } else if c == 'b' {
                    game.turn = BLACK;
                }
            }
            proof {
                assert(field(fen@, 1) =~= fen@.subrange(s1 as int, e1 as int));
                assert(game.turn == turn_of(field(fen@, 1), old(game).turn));
            }
            let s2 = scan_skip_ws(fen, e1);
            proof {
                assert(s2 == field_start(fen@, 2));
            }
            if s2 < n {
                let e2 = scan_end_word(fen, s2);
                proof {
                    assert(field(fen@, 2) =~= fen@.subrange(s2 as int, e2 as int));
                }
                let mut castling = copy_vec(&game.chastling_ability);
                let mut j = s2;
                while j < e2
                    invariant
                        s2 <= j <= e2,
                        e2 <= n,
                        n == fen@.len(),
                        castling@.len() == 4,
                        rights_of(old(game).chastling_ability@, fen@.subrange(s2 as int, e2 as int))
                            == rights_of(castling@, fen@.subrange(j as int, e2 as int)),
                    decreases e2 - j,
                {
                    let c = fen.get_char(j);
                    proof {
                        assert(fen@.subrange(j as int, e2 as int)[0] == c);
                        assert(fen@.subrange(j as int, e2 as int).drop_first() =~= fen@.subrange(
                            j as int + 1,
                            e2 as int,
                        ));
                    }
                    if c == 'K' {
                        castling[0] = true;
                    } else if c == 'Q' {
                        castling[1] = true;
                    } else if c == 'k' {
                        castling[2] = true;
                    } else if c == 'q' {
                        castling[3] = true;
                    }
                    j = j + 1;
                }
                proof {
                    assert(fen@.subrange(e2 as int, e2 as int).len() == 0);
                }
                game.chastling_ability = castling;
                let s3 = scan_skip_ws(fen, e2);
                proof {
                    assert(s3 == field_start(fen@, 3));
                }
                if s3 < n {
                    let e3 = scan_end_word(fen, s3);
                    proof {
                        assert(field(fen@, 3) =~= fen@.subrange(s3 as int, e3 as int));
                    }
                    let mut found = false;
                    let mut j = s3;
                    while j < e3
                        invariant
                            s3 <= j <= e3,
                            e3 <= n,
                            n == fen@.len(),
                            found == dash_below(fen@.subrange(s3 as int, e3 as int), j - s3),
                        decreases e3 - j,
                    {
                        let ghost fld = fen@.subrange(s3 as int, e3 as int);
                        let c = fen.get_char(j);
                        proof {
                            assert(fld[j - s3] == c);
                        }
                        if c == '-' {
                            found = true;
                            proof {
                                assert(dash_below(fld, j + 1 - s3));
                            }
                        } else {
                            proof {
                                if dash_below(fld, j + 1 - s3) {
                                    let w = choose|w: int| 0 <= w < j + 1 - s3 && fld[w] == '-';
                                    assert(w < j - s3);
                                    assert(dash_below(fld, j - s3));
                                }
                                if dash_below(fld, j - s3) {
                                    assert(dash_below(fld, j + 1 - s3));
                                }
                            }
                        }
                        j = j + 1;
                    }
                    proof {
                        let fld = field(fen@, 3);
                        if has_dash(fld) {
                            let w = choose|w: int| 0 <= w < fld.len() && fld[w] == '-';
                            assert(dash_below(fld, e3 - s3));
                        }
                        if dash_below(fld, e3 - s3) {
                            assert(has_dash(fld));
                        }
                    }
                    if found {
                        tile_available_to_un_passant = NO_SQUARE;
                    } else {
                        let mut value: u32 = 0;
                        let mut j = s3;
                        while j < e3
                            invariant
                                s3 <= j <= e3,
                                e3 <= n,
                                n == fen@.len(),
                                value <= 300,
                                numeral_fold(0, fen@.subrange(s3 as int, e3 as int))
                                    == numeral_fold(
                                    value as int,
                                    fen@.subrange(j as int, e3 as int),
                                ),
                            decreases e3 - j,
                        {
                            let c = fen.get_char(j);
                            proof {
                                assert(fen@.subrange(j as int, e3 as int)[0] == c);
                                assert(fen@.subrange(j as int, e3 as int).drop_first()
                                    =~= fen@.subrange(j as int + 1, e3 as int));
                            }
                            let code = c as u32;
                            value = if value >= 256 {
                                value
                            } else if !(code >= 48 && code <= 57) {
                                300
                            } else if value * 10 + (code - 48) > 255 {
                                299
                            } else {
                                value * 10 + (code - 48)
                            };
                            j = j + 1;
                        }
                        proof {
                            assert(fen@.subrange(e3 as int, e3 as int).len() == 0);
                            assert(is_u8_numeral(field(fen@, 3)));
                        }
                        tile_available_to_un_passant = value as u8;
                    }
                } else {
                    proof {
                        assert(!has_field(fen@, 3));
                    }
                }
            } else {
                proof {
                    assert(field_start(fen@, 3) == n as int);
                }
            }
        } else {
            proof {
                assert(field_start(fen@, 2) == n as int);
                assert(field_start(fen@, 3) == n as int);
            }
        }
    } else {
        proof {
            assert(field(fen@, 0).len() == 0);
            assert(field_start(fen@, 1) == n as int);
            assert(field_start(fen@, 2) == n as int);
            assert(field_start(fen@, 3) == n as int);
        }
    }
    (board, tile_available_to_un_passant)
}

/// Whether a placement field is well-formed, by the same fold that reads it.
fn placement_ok_check(positions: &str) -> (r: bool)
    ensures
        r == place_ok(0, 0, positions@),
{
    let n = positions.unicode_len();
    let mut i: usize = 0;
    let mut rank: usize = 0;
    let mut file: usize = 0;
    proof {
        assert(positions@.subrange(0, n as int) =~= positions@);
    }
    while i < n
        invariant
            i <= n,
            n == positions@.len(),
            rank <= 9,
            file <= 65,
            place_ok(0, 0, positions@) == place_ok(
                rank as int,
                file as int,
                positions@.subrange(i as int, n as int),
            ),
        decreases n - i,
    {
        let c = positions.get_char(i);
        proof {
            assert(positions@.subrange(i as int, n as int)[0] == c);
            assert(positions@.subrange(i as int, n as int).drop_first() =~= positions@.subrange(
                i as int + 1,
                n as int,
            ));
        }
        let code = c as u32;
        if c == '/' {
            rank = if rank + 1 > 8 {
                9
            } else {
                rank + 1
            };
            file = 0;
        } else if code >= 48 && code <= 57 {
            let d = (code - 48) as usize;
            file = if file + d > 64 {
                65
            } else {
                file + d
            };
        } else {
            let kind = symbol_kind_exec(c);
            let sq = rank * 8 + file;
            if kind == 0 || sq >= 64 {
                return false;
            }
            file = if file + 1 > 64 {
                65
            } else {
                file + 1
            };
        }
        i = i + 1;
    }
    proof {
        assert(positions@.subrange(n as int, n as int).len() == 0);
    }
    true
}

/// Whether a position string can be handed to the loader: its placement
/// field is well-formed and its en-passant field, when present, is a dash
/// or a byte-sized numeral.
pub fn fen_can_be_loaded(fen: &str) -> (r: bool)
    ensures
        r == fen_loadable(fen@),
{
    let n = fen.unicode_len();
    let s0 = scan_skip_ws(fen, 0);
    if s0 >= n {
        proof {
            assert(field(fen@, 0).len() == 0);
            assert(field_start(fen@, 1) == n as int);
            assert(field_start(fen@, 2) == n as int);
            assert(field_start(fen@, 3) == n as int);
        }
        return true;
    }
    let e0 = scan_end_word(fen, s0);
    let positions = fen.substring_char(s0, e0);
    proof {
        assert(positions@ =~= field(fen@, 0));
    }
    if !placement_ok_check(positions) {
        return false;
    }
    let s1 = scan_skip_ws(fen, e0);
    proof {
        assert(s1 == field_start(fen@, 1));
    }
    if s1 >= n {
        proof {
            assert(field_start(fen@, 2) == n as int);
            assert(field_start(fen@, 3) == n as int);
        }
        return true;
    }
    let e1 = scan_end_word(fen, s1);
    let s2 = scan_skip_ws(fen, e1);
    proof {
        assert(s2 == field_start(fen@, 2));
    }
    if s2 >= n {
        proof {
            assert(field_start(fen@, 3) == n as int);
        }
        return true;
    }
    let e2 = scan_end_word(fen, s2);
    let s3 = scan_skip_ws(fen, e2);
    proof {
        assert(s3 == field_start(fen@, 3));
    }
    if s3 >= n {
        return true;
    }
    let e3 = scan_end_word(fen, s3);
    proof {
        assert(field(fen@, 3) =~= fen@.subrange(s3 as int, e3 as int));
    }
    let mut found = false;
    let mut j = s3;
    while j < e3
        invariant
            s3 <= j <= e3,
            e3 <= n,
            n == fen@.len(),
            found == dash_below(fen@.subrange(s3 as int, e3 as int), j - s3),
        decreases e3 - j,
    {
        let ghost fld = fen@.subrange(s3 as int, e3 as int);
        let c = fen.get_char(j);
        proof {
            assert(fld[j - s3] == c);
        }
        if c == '-' {
            found = true;
            proof {
                assert(dash_below(fld, j + 1 - s3));
            }
        } else {
            proof {
                if dash_below(fld, j + 1 - s3) {
                    let w = choose|w: int| 0 <= w < j + 1 - s3 && fld[w] == '-';
                    assert(w < j - s3);
                    assert(dash_below(fld, j - s3));
                }
                if dash_below(fld, j - s3) {
                    assert(dash_below(fld, j + 1 - s3));
                }
            }
        }
        j = j + 1;
    }
    proof {
        let fld = field(fen@, 3);
        if has_dash(fld) {
            let w = choose|w: int| 0 <= w < fld.len() && fld[w] == '-';
            assert(dash_below(fld, e3 - s3));
        }
        if dash_below(fld, e3 - s3) {
            assert(has_dash(fld));
        }
    }
    if found {
        return true;
    }
    let mut value: u32 = 0;
    let mut j = s3;
    while j < e3
        invariant
            s3 <= j <= e3,
            e3 <= n,
            n == fen@.len(),
            value <= 300,
            numeral_fold(0, fen@.subrange(s3 as int, e3 as int)) == numeral_fold(
                value as int,
                fen@.subrange(j as int, e3 as int),
            ),
        decreases e3 - j,
    {
        let c = fen.get_char(j);
        proof {
            assert(fen@.subrange(j as int, e3 as int)[0] == c);
            assert(fen@.subrange(j as int, e3 as int).drop_first() =~= fen@.subrange(
                j as int + 1,
                e3 as int,
            ));
        }
        let code = c as u32;
        value = if value >= 256 {
            value
        } else if !(code >= 48 && code <= 57) {
            300
        } else if value * 10 + (code - 48) > 255 {
            299
        } else {
            value * 10 + (code - 48)
        };
        j = j + 1;
    }
    proof {
        assert(fen@.subrange(e3 as int, e3 as int).len() == 0);
    }
    e3 - s3 >= 1 && value <= 255
}

/// The board the starting position string describes: the full back ranks
/// and pawn ranks of both sides, plus one extra pawn of each color standing
/// on the g-file in the middle of the board.
pub open spec fn starting_board() -> Seq<u8> {
    seq![
        136u8, 130u8, 132u8, 144u8, 160u8, 132u8, 130u8, 136u8,
        129u8, 129u8, 129u8, 129u8, 129u8, 129u8, 129u8, 129u8,
        0u8, 0u8, 0u8, 0u8, 0u8, 0u8, 0u8, 0u8,
        0u8, 0u8, 0u8, 0u8, 0u8, 0u8, 65u8, 0u8,
        0u8, 0u8, 0u8, 0u8, 0u8, 0u8, 129u8, 0u8,
        0u8, 0u8, 0u8, 0u8, 0u8, 0u8, 0u8, 0u8,
        65u8, 65u8, 65u8, 65u8, 65u8, 65u8, 65u8, 65u8,
        72u8, 66u8, 68u8, 80u8, 96u8, 68u8, 66u8, 72u8,
    ]
}

/// The starting position string passes the loader's requirements; its
/// placement field spells [`starting_board`], its active color is white, it
/// grants every castling right, and it offers no en-passant target.
#[verifier::rlimit(100)]
proof fn lemma_starting_fen_loadable()
    ensures
        fen_loadable(STARTINGFEN@),
        place_board(blank_board(), 0, 0, field(STARTINGFEN@, 0)) == starting_board(),
        has_field(STARTINGFEN@, 1),
        turn_of(field(STARTINGFEN@, 1), WHITE) == WHITE,
        has_field(STARTINGFEN@, 2),
        rights_of(seq![false, false, false, false], field(STARTINGFEN@, 2)) == seq![
            true,
            true,
            true,
            true,
        ],
        has_field(STARTINGFEN@, 3),
        has_dash(field(STARTINGFEN@, 3)),
{
    reveal_strlit("rnbqkbnr/pppppppp/8/6P/6p/8/PPPPPPPP/RNBQKBNR w KQkq - 0 1");
    let s = STARTINGFEN@;
    assert(s.len() == 58);
    assert(skip_ws(s, 0) == 0) by {
        reveal_with_fuel(skip_ws, 2);
    }
    assert(end_word(s, 0) == 45) by {
        reveal_with_fuel(end_word, 47);
    }
    assert(place_ok(0, 0, field(s, 0))) by {
        reveal_with_fuel(place_ok, 47);
    }
    assert(skip_ws(s, 45) == 46) by {
        reveal_with_fuel(skip_ws, 3);
    }
    assert(end_word(s, 46) == 47) by {
        reveal_with_fuel(end_word, 3);
    }
    assert(skip_ws(s, 47) == 48) by {
        reveal_with_fuel(skip_ws, 3);
    }
    assert(end_word(s, 48) == 52) by {
        reveal_with_fuel(end_word, 6);
    }
    assert(skip_ws(s, 52) == 53) by {
        reveal_with_fuel(skip_ws, 3);
    }
    assert(end_word(s, 53) == 54) by {
        reveal_with_fuel(end_word, 3);
    }
    assert(field_start(s, 3) == 53) by {
        reveal_with_fuel(field_start, 5);
    }
    assert(has_dash(field(s, 3))) by {
        assert(field(s, 3)[0] == '-');
    }
    let f = field(s, 0);
    assert(f.len() == 45);
    let back_ranks = blank_board().update(0, 136u8).update(1, 130u8).update(2, 132u8).update(
        3,
        144u8,
    ).update(4, 160u8).update(5, 132u8).update(6, 130u8).update(7, 136u8).update(8, 129u8).update(
        9,
        129u8,
    ).update(10, 129u8).update(11, 129u8).update(12, 129u8).update(13, 129u8).update(
        14,
        129u8,
    ).update(15, 129u8);
    let mid_pawns = back_ranks.update(30, 65u8).update(38, 129u8);
    let pawn_rank = mid_pawns.update(48, 65u8).update(49, 65u8).update(50, 65u8).update(
        51,
        65u8,
    ).update(52, 65u8).update(53, 65u8).update(54, 65u8).update(55, 65u8);
    let placed = pawn_rank.update(56, 72u8).update(57, 66u8).update(58, 68u8).update(
        59,
        80u8,
    ).update(60, 96u8).update(61, 68u8).update(62, 66u8).update(63, 72u8);
    assert(place_board(blank_board(), 0, 0, f) == place_board(back_ranks, 2, 0, f.subrange(18, 45)))
        by {
        reveal_with_fuel(place_board, 20);
        assert(f.subrange(0, 45) =~= f);
        assert forall|k: int| 0 <= k < 45 implies f.subrange(k, 45).drop_first() == f.subrange(
            k + 1,
            45,
        ) by {
            assert(f.subrange(k, 45).drop_first() =~= f.subrange(k + 1, 45));
        }
    }
    assert(place_board(back_ranks, 2, 0, f.subrange(18, 45)) == place_board(
        mid_pawns,
        6,
        0,
        f.subrange(28, 45),
    )) by {
        reveal_with_fuel(place_board, 12);
        assert forall|k: int| 0 <= k < 45 implies f.subrange(k, 45).drop_first() == f.subrange(
            k + 1,
            45,
        ) by {
            assert(f.subrange(k, 45).drop_first() =~= f.subrange(k + 1, 45));
        }
    }
    assert(place_board(mid_pawns, 6, 0, f.subrange(28, 45)) == place_board(
        pawn_rank,
        7,
        0,
        f.subrange(37, 45),
    )) by {
        reveal_with_fuel(place_board, 11);
        assert forall|k: int| 0 <= k < 45 implies f.subrange(k, 45).drop_first() == f.subrange(
            k + 1,
            45,
        ) by {
            assert(f.subrange(k, 45).drop_first() =~= f.subrange(k + 1, 45));
        }
    }
    assert(place_board(pawn_rank, 7, 0, f.subrange(37, 45)) == placed) by {
        reveal_with_fuel(place_board, 10);
        assert forall|k: int| 0 <= k < 45 implies f.subrange(k, 45).drop_first() == f.subrange(
            k + 1,
            45,
        ) by {
            assert(f.subrange(k, 45).drop_first() =~= f.subrange(k + 1, 45));
        }
    }
    assert(placed =~= starting_board());
    assert(field(s, 1) =~= seq!['w']);
    assert(field(s, 2) =~= seq!['K', 'Q', 'k', 'q']);
    assert(rights_of(seq![false, false, false, false], field(s, 2)) =~= seq![
        true,
        true,
        true,
        true,
    ]) by {
        reveal_with_fuel(rights_of, 6);
    }
}

/// Builds the starting game: the geometry table, an empty board, white to
/// move, no rights, no flags, and then the starting position string loaded
/// over it.
pub fn init_game() -> (game: GAME)
    ensures
        game.wf(),
        game.moves@.len() == 0,
        game.potential_tile_to_un_passant == NO_SQUARE,
        !game.check && !game.draw && !game.check_mate,
        game.promoting == NO_SQUARE,
        game.board@ == starting_board(),
        game.turn == WHITE,
        game.chastling_ability@ == seq![true, true, true, true],
        game.tile_available_to_un_passant == NO_SQUARE,
{
    let mut chastling_ability: Vec<bool> = Vec::new();
    chastling_ability.push(false);
    chastling_ability.push(false);
    chastling_ability.push(false);
    chastling_ability.push(false);
    proof {
        assert(chastling_ability@ =~= seq![false, false, false, false]);
    }
    let mut game = GAME {
        computed_distances: GAME::tiles_to_the_edge(),
        board: GAME::generate_board_array(),
        turn: WHITE,
        moves: Vec::new(),
        tile_available_to_un_passant: NO_SQUARE,
        potential_tile_to_un_passant: NO_SQUARE,
        chastling_ability,
        check: false,
        draw: false,
        check_mate: false,
        promoting: NO_SQUARE,
    };
    proof {
        assert(game.board@ =~= blank_board());
        lemma_starting_fen_loadable();
    }
    let loaded = load_position_from_fen(STARTINGFEN, &mut game);
    game.board = loaded.0;
    game.tile_available_to_un_passant = loaded.1;
    game
}

/// True when the entry holds a black king.
pub fn is_black_king(piece: u8) -> (r: bool)
    ensures
        r == (piece & KING > 0 && piece & BLACK > 0),
{
    (piece & KING > 0) && (piece & BLACK > 0)
}

/// True when the entry holds a black queen.
pub fn is_black_queen(piece: u8) -> (r: bool)
    ensures
        r == (piece & QUEEN > 0 && piece & BLACK > 0),
{
    (piece & QUEEN > 0) && (piece & BLACK > 0)
}

/// True when the entry holds a black rook.
pub fn is_black_rook(piece: u8) -> (r: bool)
    ensures
        r == (piece & ROOK > 0 && piece & BLACK > 0),
{
    (piece & ROOK > 0) && (piece & BLACK > 0)
}

/// True when the entry holds a black bishop.
pub fn is_black_bishop(piece: u8) -> (r: bool)
    ensures
        r == (piece & BISHOP > 0 && piece & BLACK > 0),
{
    (piece & BISHOP > 0) && (piece & BLACK > 0)
}

/// True when the entry holds a black knight.
pub fn is_black_knight(piece: u8) -> (r: bool)
    ensures
        r == (piece & KNIGHT > 0 && piece & BLACK > 0),
{
    (piece & KNIGHT > 0) && (piece & BLACK > 0)
}

/// True when the entry holds a black pawn.
pub fn is_black_pawn(piece: u8) -> (r: bool)
    ensures
        r == (piece & PAWN > 0 && piece & BLACK > 0),
{
    (piece & PAWN > 0) && (piece & BLACK > 0)
}

/// True when the entry holds a white king.
pub fn is_white_king(piece: u8) -> (r: bool)
    ensures
        r == (piece & KING > 0 && piece & WHITE > 0),
{
    (piece & KING > 0) && (piece & WHITE > 0)
}

/// True when the entry holds a white queen.
pub fn is_white_queen(piece: u8) -> (r: bool)
    ensures
        r == (piece & QUEEN > 0 && piece & WHITE > 0),
{
    (piece & QUEEN > 0) && (piece & WHITE > 0)
}

/// True when the entry holds a white rook.
pub fn is_white_rook(piece: u8) -> (r: bool)
    ensures
        r == (piece & ROOK > 0 && piece & WHITE > 0),
{
    (piece & ROOK > 0) && (piece & WHITE > 0)
}

/// True when the entry holds a white bishop.
pub fn is_white_bishop(piece: u8) -> (r: bool)
    ensures
        r == (piece & BISHOP > 0 && piece & WHITE > 0),
{
    (piece & BISHOP > 0) && (piece & WHITE > 0)
}

/// True when the entry holds a white knight.
pub fn is_white_knight(piece: u8) -> (r: bool)
    ensures
        r == (piece & KNIGHT > 0 && piece & WHITE > 0),
{
    (piece & KNIGHT > 0) && (piece & WHITE > 0)
}

/// True when the entry holds a white pawn.
pub fn is_white_pawn(piece: u8) -> (r: bool)
    ensures
        r == (piece & PAWN > 0 && piece & WHITE > 0),
{
    (piece & PAWN > 0) && (piece & WHITE > 0)
}

} // verus!
