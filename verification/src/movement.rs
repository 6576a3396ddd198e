//! Move and attack generation: per piece kind, a 64-entry legality mask over
//! destination squares, guarded against board wrap-around by the edge-distance
//! geometry.
use vstd::prelude::*;

verus! {

use crate::{BISHOP, BLACK, KING, KNIGHT, PAWN, QUEEN, ROOK, WHITE};

/// Rank (row from the top) of a square index.
pub open spec fn rank_of(t: int) -> int {
    t / 8
}

/// File (column from the left) of a square index.
pub open spec fn file_of(t: int) -> int {
    t % 8
}

/// Index delta of one step in ray direction `d`.
/// The eight directions are, in order: north, south, west, east,
/// northwest, southeast, northeast, southwest.
pub open spec fn dir_offset(d: int) -> int {
    if d == 0 {
        -8
    } else if d == 1 {
        8
    } else if d == 2 {
        -1
    } else if d == 3 {
        1
    } else if d == 4 {
        -9
    } else if d == 5 {
        9
    } else if d == 6 {
        -7
    } else {
        7
    }
}

/// Number of squares between square `t` and the board edge along direction
/// `d`; a diagonal distance is the minimum of its two component orthogonal
/// distances.
pub open spec fn edge_dist(t: int, d: int) -> int {
    if d == 0 {
        rank_of(t)
    } else if d == 1 {
        7 - rank_of(t)
    } else if d == 2 {
        file_of(t)
    } else if d == 3 {
        7 - file_of(t)
    } else if d == 4 {
        vstd::math::min(rank_of(t), file_of(t))
    } else if d == 5 {
        vstd::math::min(7 - rank_of(t), 7 - file_of(t))
    } else if d == 6 {
        vstd::math::min(rank_of(t), 7 - file_of(t))
    } else {
        vstd::math::min(7 - rank_of(t), file_of(t))
    }
}

/// Entry of a square-major edge-distance table: distance from square `t`
/// along direction `d`.
pub open spec fn dist_at(table: Seq<u8>, t: int, d: int) -> u8 {
    table[t * 8 + d]
}

/// The table holds, for every square and direction, exactly the edge
/// distance of the board geometry.
pub open spec fn dist_table_wf(table: Seq<u8>) -> bool {
    &&& table.len() == 512
    &&& forall|t: int, d: int|
        0 <= t < 64 && 0 <= d < 8 ==> #[trigger] dist_at(table, t, d) == edge_dist(t, d)
}

/// Color flag of the piece itself: a piece with the white flag is white,
/// anything else counts as black.
pub open spec fn own_color(piece: u8) -> u8 {
    if piece & WHITE > 0 {
        WHITE
    } else {
        BLACK
    }
}

/// Color flag of the enemy of the piece.
pub open spec fn enemy_color(piece: u8) -> u8 {
    if piece & WHITE > 0 {
        BLACK
    } else {
        WHITE
    }
}

/// A square that blocks no ray: it carries neither color flag.
pub open spec fn square_free(entry: u8) -> bool {
    entry & WHITE == 0 && entry & BLACK == 0
}

/// Square `x` is reachable by a ray that starts one step after `tile` in
/// direction `d` and runs for at most `steps` squares. The ray passes free
/// squares, stops inclusively on the first square with an enemy piece, and
/// stops exclusively before a square with an own piece.
pub open spec fn ray_target(board: Seq<u8>, piece: u8, tile: int, d: int, steps: int, x: int) -> bool
    decreases steps,
{
    if steps <= 0 {
        false
    } else {
        let next = tile + dir_offset(d);
        if x == next {
            board[x] & own_color(piece) == 0
        } else {
            square_free(board[next]) && ray_target(board, piece, next, d, steps - 1, x)
        }
    }
}

/// Square `x` is reachable from `tile` along some ray direction in
/// `dlo..dhi`, each ray bounded by the edge distance.
pub open spec fn sliding_target(board: Seq<u8>, piece: u8, tile: int, dlo: int, dhi: int, x: int) -> bool {
    exists|d: int|
        dlo <= d < dhi && #[trigger] ray_target(board, piece, tile, d, edge_dist(tile, d), x)
}

/// One step in any direction stays on the board and uses up exactly one
/// square of edge distance.
pub proof fn lemma_step(t: int, d: int)
    requires
        0 <= t < 64,
        0 <= d < 8,
        edge_dist(t, d) >= 1,
    ensures
        0 <= t + dir_offset(d) < 64,
        edge_dist(t + dir_offset(d), d) == edge_dist(t, d) - 1,
{
    let r = rank_of(t);
    let f = file_of(t);
    assert(t == 8 * r + f);
    let t2 = t + dir_offset(d);
    let r2 = if d == 0 || d == 4 || d == 6 {
        r - 1
    } else if d == 1 || d == 5 || d == 7 {
        r + 1
    } else {
        r
    };
    let f2 = if d == 2 || d == 4 || d == 7 {
        f - 1
    } else if d == 3 || d == 5 || d == 6 {
        f + 1
    } else {
        f
    };
    assert(t2 == 8 * r2 + f2);
    assert(0 <= f2 < 8);
    vstd::arithmetic::div_mod::lemma_fundamental_div_mod_converse_div(t2, 8, r2, f2);
    vstd::arithmetic::div_mod::lemma_fundamental_div_mod_converse_mod(t2, 8, r2, f2);
    assert(rank_of(t2) == r2);
    assert(file_of(t2) == f2);
}

/// A fresh 64-entry mask with every square cleared.
pub fn empty_mask() -> (mask: Vec<bool>)
    ensures
        mask@.len() == 64,
        forall|i: int| 0 <= i < 64 ==> !mask@[i],
{
    let mut mask: Vec<bool> = Vec::new();
    let mut i: usize = 0;
    while i < 64
        invariant
            i <= 64,
            mask@.len() == i,
            forall|j: int| 0 <= j < i ==> !mask@[j],
        decreases 64 - i,
    {
        mask.push(false);
        i = i + 1;
    }
    mask
}

/// Index delta of one step in ray direction `d`.
fn dir_offset_exec(d: usize) -> (off: i32)
    requires
        d < 8,
    ensures
        off == dir_offset(d as int),
{
    if d == 0 {
        -8
    } else if d == 1 {
        8
    } else if d == 2 {
        -1
    } else if d == 3 {
        1
    } else if d == 4 {
        -9
    } else if d == 5 {
        9
    } else if d == 6 {
        -7
    } else {
        7
    }
}

/// Marks every square the ray from `tile` in direction `d` reaches, on top
/// of what is already marked.
fn cast_ray(mask: &mut Vec<bool>, board: &Vec<u8>, piece: u8, tile: usize, d: usize, dist: u8)
    requires
        old(mask)@.len() == 64,
        board@.len() == 64,
        tile < 64,
        d < 8,
        dist == edge_dist(tile as int, d as int),
    ensures
        final(mask)@.len() == 64,
        forall|x: int|
            0 <= x < 64 ==> final(mask)@[x] == (old(mask)@[x] || ray_target(
                board@,
                piece,
                tile as int,
                d as int,
                dist as int,
                x,
            )),
{
    let own: u8 = if piece & WHITE > 0 {
        WHITE
    } else {
        BLACK
    };
    let enemy: u8 = if piece & WHITE > 0 {
        BLACK
    } else {
        WHITE
    };
    let mut cur: usize = tile;
    let mut left: u8 = dist;
    let mut blocked: bool = false;
    while left > 0 && !blocked
        invariant
            mask@.len() == 64,
            board@.len() == 64,
            tile < 64,
            cur < 64,
            d < 8,
            own == own_color(piece),
            enemy == enemy_color(piece),
            edge_dist(cur as int, d as int) >= left,
            !blocked ==> forall|x: int|
                0 <= x < 64 ==> (mask@[x] || ray_target(
                    board@,
                    piece,
                    cur as int,
                    d as int,
                    left as int,
                    x,
                )) == (old(mask)@[x] || ray_target(
                    board@,
                    piece,
                    tile as int,
                    d as int,
                    dist as int,
                    x,
                )),
            blocked ==> forall|x: int|
                0 <= x < 64 ==> mask@[x] == (old(mask)@[x] || ray_target(
                    board@,
                    piece,
                    tile as int,
                    d as int,
                    dist as int,
                    x,
                )),
        decreases left, (if blocked {
            0int
        } else {
            1int
        }),
    {
        proof {
            lemma_step(cur as int, d as int);
        }
        let off = dir_offset_exec(d);
        let next = ((cur as i32) + off) as usize;
        let ghost pre_mask = mask@;
        if board[next] & own > 0 {
            blocked = true;
            proof {
                assert(forall|x: int|
                    0 <= x < 64 ==> !ray_target(board@, piece, cur as int, d as int, left as int, x));
            }
        } else if board[next] & enemy > 0 {
            mask[next] = true;
            blocked = true;
            proof {
                assert(ray_target(board@, piece, cur as int, d as int, left as int, next as int));
                assert(forall|x: int|
                    0 <= x < 64 && x != next ==> !ray_target(
                        board@,
                        piece,
                        cur as int,
                        d as int,
                        left as int,
                        x,
                    ));
                assert forall|x: int| 0 <= x < 64 implies mask@[x] == (old(mask)@[x] || ray_target(
                    board@,
                    piece,
                    tile as int,
                    d as int,
                    dist as int,
                    x,
                )) by {
                    if x == next {
                        assert((pre_mask[x] || ray_target(
                            board@,
                            piece,
                            cur as int,
                            d as int,
                            left as int,
                            x,
                        )) == (old(mask)@[x] || ray_target(
                            board@,
                            piece,
                            tile as int,
                            d as int,
                            dist as int,
                            x,
                        )));
                    }
                }
            }
        } else {
            mask[next] = true;
            proof {
                assert(square_free(board@[next as int]));
                assert(ray_target(board@, piece, cur as int, d as int, left as int, next as int));
                assert forall|x: int| 0 <= x < 64 implies (mask@[x] || ray_target(
                    board@,
                    piece,
                    next as int,
                    d as int,
                    left as int - 1,
                    x,
                )) == (old(mask)@[x] || ray_target(
                    board@,
                    piece,
                    tile as int,
                    d as int,
                    dist as int,
                    x,
                )) by {
                    if x != next {
                        assert(ray_target(board@, piece, cur as int, d as int, left as int, x)
                            == ray_target(board@, piece, next as int, d as int, left as int - 1, x));
                    }
                }
            }
            cur = next;
            left = left - 1;
        }
    }
}

/// Ray moves of a rook: the four orthogonal directions.
pub fn rook_movement_from_tile(board: &Vec<u8>, piece: u8, tile: usize, precomputed_distances: &Vec<u8>) -> (mask: Vec<bool>)
    requires
        board@.len() == 64,
        tile < 64,
        dist_table_wf(precomputed_distances@),
    ensures
        mask@.len() == 64,
        forall|x: int|
            0 <= x < 64 ==> mask@[x] == sliding_target(board@, piece, tile as int, 0, 4, x),
{
    sliding_movement_from_tile(board, piece, tile, precomputed_distances, 0, 4)
}

/// Ray moves of a bishop: the four diagonal directions.
pub fn bishop_movement_from_tile(board: &Vec<u8>, piece: u8, tile: usize, precomputed_distances: &Vec<u8>) -> (mask: Vec<bool>)
    requires
        board@.len() == 64,
        tile < 64,
        dist_table_wf(precomputed_distances@),
    ensures
        mask@.len() == 64,
        forall|x: int|
            0 <= x < 64 ==> mask@[x] == sliding_target(board@, piece, tile as int, 4, 8, x),
{
    sliding_movement_from_tile(board, piece, tile, precomputed_distances, 4, 8)
}

/// Ray moves of a queen: all eight directions.
pub fn queen_movement_from_tile(board: &Vec<u8>, piece: u8, tile: usize, precomputed_distances: &Vec<u8>) -> (mask: Vec<bool>)
    requires
        board@.len() == 64,
        tile < 64,
        dist_table_wf(precomputed_distances@),
    ensures
        mask@.len() == 64,
        forall|x: int|
            0 <= x < 64 ==> mask@[x] == sliding_target(board@, piece, tile as int, 0, 8, x),
{
    sliding_movement_from_tile(board, piece, tile, precomputed_distances, 0, 8)
}

/// Ray moves along the directions in `dlo..dhi`.
fn sliding_movement_from_tile(
    board: &Vec<u8>,
    piece: u8,
    tile: usize,
    precomputed_distances: &Vec<u8>,
    dlo: usize,
    dhi: usize,
) -> (mask: Vec<bool>)
    requires
        board@.len() == 64,
        tile < 64,
        dist_table_wf(precomputed_distances@),
        dlo <= dhi <= 8,
    ensures
        mask@.len() == 64,
        forall|x: int|
            0 <= x < 64 ==> mask@[x] == sliding_target(
                board@,
                piece,
                tile as int,
                dlo as int,
                dhi as int,
                x,
            ),
{
    let mut mask = empty_mask();
    let mut d: usize = dlo;
    while d < dhi
        invariant
            mask@.len() == 64,
            board@.len() == 64,
            tile < 64,
            dist_table_wf(precomputed_distances@),
            dlo <= d <= dhi <= 8,
            forall|x: int|
                0 <= x < 64 ==> mask@[x] == sliding_target(
                    board@,
                    piece,
                    tile as int,
                    dlo as int,
                    d as int,
                    x,
                ),
        decreases dhi - d,
    {
        let dist = precomputed_distances[tile * 8 + d];
        proof {
            assert(dist == dist_at(precomputed_distances@, tile as int, d as int));
        }
        let ghost pre_mask = mask@;
        cast_ray(&mut mask, board, piece, tile, d, dist);
        proof {
            assert forall|x: int| 0 <= x < 64 implies mask@[x] == sliding_target(
                board@,
                piece,
                tile as int,
                dlo as int,
                d as int + 1,
                x,
            ) by {
                if ray_target(board@, piece, tile as int, d as int, edge_dist(tile as int, d as int), x) {
                    assert(sliding_target(board@, piece, tile as int, dlo as int, d as int + 1, x));
                }
                if sliding_target(board@, piece, tile as int, dlo as int, d as int + 1, x) && !ray_target(
                    board@,
                    piece,
                    tile as int,
                    d as int,
                    edge_dist(tile as int, d as int),
                    x,
                ) {
                    let dd = choose|dd: int|
                        dlo <= dd < d + 1 && #[trigger] ray_target(
                            board@,
                            piece,
                            tile as int,
                            dd,
                            edge_dist(tile as int, dd),
                            x,
                        );
                    assert(dd < d);
                    assert(sliding_target(board@, piece, tile as int, dlo as int, d as int, x));
                }
            }
        }
        d = d + 1;
    }
    mask
}

/// Index delta of knight leap `i`; leaps are ordered clockwise starting with
/// up-two-right-one.
pub open spec fn knight_offset(i: int) -> int {
    if i == 0 {
        -15
    } else if i == 1 {
        -6
    } else if i == 2 {
        10
    } else if i == 3 {
        17
    } else if i == 4 {
        15
    } else if i == 5 {
        6
    } else if i == 6 {
        -10
    } else {
        -17
    }
}

/// The horizontal and vertical room at `tile` suffices for knight leap `i`.
pub open spec fn knight_fits(tile: int, i: int) -> bool {
    if i == 0 {
        edge_dist(tile, 0) > 1 && edge_dist(tile, 3) > 0
    } else if i == 1 {
        edge_dist(tile, 0) > 0 && edge_dist(tile, 3) > 1
    } else if i == 2 {
        edge_dist(tile, 3) > 1 && edge_dist(tile, 1) > 0
    } else if i == 3 {
        edge_dist(tile, 3) > 0 && edge_dist(tile, 1) > 1
    } else if i == 4 {
        edge_dist(tile, 1) > 1 && edge_dist(tile, 2) > 0
    } else if i == 5 {
        edge_dist(tile, 1) > 0 && edge_dist(tile, 2) > 1
    } else if i == 6 {
        edge_dist(tile, 2) > 1 && edge_dist(tile, 0) > 0
    } else {
        edge_dist(tile, 2) > 0 && edge_dist(tile, 0) > 1
    }
}

/// Square `x` is a knight leap from `tile` that stays on the board and does
/// not land on an own piece.
pub open spec fn knight_target(board: Seq<u8>, piece: u8, tile: int, x: int) -> bool {
    exists|i: int|
        0 <= i < 8 && #[trigger] knight_fits(tile, i) && x == tile + knight_offset(i) && board[x]
            & own_color(piece) == 0
}

/// A fitting knight leap stays on the board.
pub proof fn lemma_knight_step(tile: int, i: int)
    requires
        0 <= tile < 64,
        0 <= i < 8,
        knight_fits(tile, i),
    ensures
        0 <= tile + knight_offset(i) < 64,
{
    let r = rank_of(tile);
    let f = file_of(tile);
    assert(tile == 8 * r + f);
    let t2 = tile + knight_offset(i);
    let r2 = if i == 0 || i == 7 {
        r - 2
    } else if i == 1 || i == 6 {
        r - 1
    } else if i == 2 || i == 5 {
        r + 1
    } else {
        r + 2
    };
    let f2 = if i == 0 || i == 3 {
        f + 1
    } else if i == 1 || i == 2 {
        f + 2
    } else if i == 4 || i == 7 {
        f - 1
    } else {
        f - 2
    };
    assert(t2 == 8 * r2 + f2);
    assert(0 <= r2 < 8 && 0 <= f2 < 8);
}

/// Square `x` is one king step from `tile` that stays on the board and does
/// not land on an own piece.
pub open spec fn king_step_target(board: Seq<u8>, piece: u8, tile: int, x: int) -> bool {
    exists|d: int|
        0 <= d < 8 && #[trigger] edge_dist(tile, d) > 0 && x == tile + dir_offset(d) && board[x]
            & own_color(piece) == 0
}

/// Both squares of a pawn double push from its start rank are empty.
pub open spec fn double_push_available(board: Seq<u8>, piece: u8, tile: int) -> bool {
    if piece & WHITE > 0 {
        47 < tile < 56 && board[tile - 8] == 0 && board[tile - 16] == 0
    } else {
        7 < tile < 16 && board[tile + 8] == 0 && board[tile + 16] == 0
    }
}

/// Skip square of a pawn double push: the square the pawn jumps over.
pub open spec fn skip_square(piece: u8, tile: int) -> int {
    if piece & WHITE > 0 {
        tile - 8
    } else {
        tile + 8
    }
}

/// Square `x` is a pawn move from `tile`: one step forward onto an empty
/// square, a double push from the start rank over two empty squares, or a
/// diagonal capture onto an enemy piece or onto the en-passant target `ep`.
pub open spec fn pawn_move_target(board: Seq<u8>, ep: u8, piece: u8, tile: int, x: int) -> bool {
    if piece & WHITE > 0 {
        ||| (edge_dist(tile, 4) > 0 && x == tile - 9 && (board[x] & BLACK > 0 || x == ep as int))
        ||| (edge_dist(tile, 6) > 0 && x == tile - 7 && (board[x] & BLACK > 0 || x == ep as int))
        ||| (edge_dist(tile, 0) > 0 && x == tile - 8 && board[x] == 0)
        ||| (47 < tile < 56 && x == tile - 16 && board[tile - 8] == 0 && board[x] == 0)
    } else {
        ||| (edge_dist(tile, 5) > 0 && x == tile + 9 && (board[x] & WHITE > 0 || x == ep as int))
        ||| (edge_dist(tile, 7) > 0 && x == tile + 7 && (board[x] & WHITE > 0 || x == ep as int))
        ||| (edge_dist(tile, 1) > 0 && x == tile + 8 && board[x] == 0)
        ||| (7 < tile < 16 && x == tile + 16 && board[tile + 8] == 0 && board[x] == 0)
    }
}

/// Square `x` is threatened by a pawn on `tile`: the two diagonal squares
/// ahead of the pawn, whatever stands on them.
pub open spec fn pawn_attack_target(piece: u8, tile: int, x: int) -> bool {
    if piece & WHITE > 0 {
        (edge_dist(tile, 4) > 0 && x == tile - 9) || (edge_dist(tile, 6) > 0 && x == tile - 7)
    } else {
        (edge_dist(tile, 5) > 0 && x == tile + 9) || (edge_dist(tile, 7) > 0 && x == tile + 7)
    }
}

/// Square `x` is threatened by `piece` standing on `tile`, by the attack
/// pattern of its kind: a king threatens one step around, sliders threaten
/// along their rays, a knight its leaps, and a pawn its two diagonals.
pub open spec fn piece_attacks(board: Seq<u8>, piece: u8, tile: int, x: int) -> bool {
    if piece & KING > 0 {
        king_step_target(board, piece, tile, x)
    } else if piece & QUEEN > 0 {
        sliding_target(board, piece, tile, 0, 8, x)
    } else if piece & ROOK > 0 {
        sliding_target(board, piece, tile, 0, 4, x)
    } else if piece & BISHOP > 0 {
        sliding_target(board, piece, tile, 4, 8, x)
    } else if piece & KNIGHT > 0 {
        knight_target(board, piece, tile, x)
    } else if piece & PAWN > 0 {
        pawn_attack_target(piece, tile, x)
    } else {
        false
    }
}

/// Square `x` is attacked by some piece of `color`.
pub open spec fn attacked(board: Seq<u8>, color: u8, x: int) -> bool {
    exists|s: int|
        0 <= s < 64 && board[s] & color > 0 && #[trigger] piece_attacks(board, board[s], s, x)
}

/// Square `x` is attacked by a piece of `color` standing on a square below
/// `n`.
pub open spec fn attacked_below(board: Seq<u8>, color: u8, x: int, n: int) -> bool {
    exists|s: int|
        0 <= s < n && board[s] & color > 0 && #[trigger] piece_attacks(board, board[s], s, x)
}

/// Square `x` is a castling destination open to `piece` standing on `tile`:
/// the king on its home square, the matching rights flag set, the matching
/// rook still on its corner, the squares between them empty, and no square
/// the king traverses attacked by the enemy.
pub open spec fn castle_target(board: Seq<u8>, rights: Seq<bool>, piece: u8, tile: int, x: int) -> bool {
    ||| (x == 62 && tile == 60 && piece & KING > 0 && own_color(piece) == WHITE && rights[0]
        && board[63] & ROOK > 0 && board[63] & WHITE > 0 && board[61] == 0 && board[62] == 0
        && !attacked(board, BLACK, 60) && !attacked(board, BLACK, 61) && !attacked(
        board,
        BLACK,
        62,
    ))
    ||| (x == 58 && tile == 60 && piece & KING > 0 && own_color(piece) == WHITE && rights[1]
        && board[56] & ROOK > 0 && board[56] & WHITE > 0 && board[57] == 0 && board[58] == 0
        && board[59] == 0 && !attacked(board, BLACK, 60) && !attacked(board, BLACK, 59)
        && !attacked(board, BLACK, 58))
    ||| (x == 6 && tile == 4 && piece & KING > 0 && own_color(piece) == BLACK && rights[2]
        && board[7] & ROOK > 0 && board[7] & BLACK > 0 && board[5] == 0 && board[6] == 0
        && !attacked(board, WHITE, 4) && !attacked(board, WHITE, 5) && !attacked(board, WHITE, 6))
    ||| (x == 2 && tile == 4 && piece & KING > 0 && own_color(piece) == BLACK && rights[3]
        && board[0] & ROOK > 0 && board[0] & BLACK > 0 && board[1] == 0 && board[2] == 0
        && board[3] == 0 && !attacked(board, WHITE, 2) && !attacked(board, WHITE, 3) && !attacked(
        board,
        WHITE,
        4,
    ))
}

/// Square `x` is a king move: one step around, or a castling destination.
pub open spec fn king_move_target(board: Seq<u8>, rights: Seq<bool>, piece: u8, tile: int, x: int) -> bool {
    king_step_target(board, piece, tile, x) || castle_target(board, rights, piece, tile, x)
}

/// Square `x` is a pseudo-legal move of `piece` from `tile`: by the movement
/// pattern of its kind and the occupancy of the board, ignoring king safety.
pub open spec fn piece_move_target(
    board: Seq<u8>,
    rights: Seq<bool>,
    ep: u8,
    piece: u8,
    tile: int,
    x: int,
) -> bool {
    if piece & KING > 0 {
        king_move_target(board, rights, piece, tile, x)
    } else if piece & QUEEN > 0 {
        sliding_target(board, piece, tile, 0, 8, x)
    } else if piece & ROOK > 0 {
        sliding_target(board, piece, tile, 0, 4, x)
    } else if piece & BISHOP > 0 {
        sliding_target(board, piece, tile, 4, 8, x)
    } else if piece & KNIGHT > 0 {
        knight_target(board, piece, tile, x)
    } else if piece & PAWN > 0 {
        pawn_move_target(board, ep, piece, tile, x)
    } else {
        false
    }
}

/// The kind dispatch sends `piece` to the pawn move generator: it carries the
/// pawn flag and no higher kind flag.
pub open spec fn dispatched_to_pawn(piece: u8) -> bool {
    piece & KING == 0 && piece & QUEEN == 0 && piece & ROOK == 0 && piece & BISHOP == 0 && piece
        & KNIGHT == 0 && piece & PAWN > 0
}

/// Leaps of a knight: each of the eight leap shapes, where the room at the
/// source square allows it.
pub fn knight_movement_from_tile(board: &Vec<u8>, piece: u8, tile: usize, precomputed_distances: &Vec<u8>) -> (mask: Vec<bool>)
    requires
        board@.len() == 64,
        tile < 64,
        dist_table_wf(precomputed_distances@),
    ensures
        mask@.len() == 64,
        forall|x: int| 0 <= x < 64 ==> mask@[x] == knight_target(board@, piece, tile as int, x),
{
    let own: u8 = if piece & WHITE > 0 {
        WHITE
    } else {
        BLACK
    };
    let north = precomputed_distances[tile * 8];
    let south = precomputed_distances[tile * 8 + 1];
    let west = precomputed_distances[tile * 8 + 2];
    let east = precomputed_distances[tile * 8 + 3];
    proof {
        assert(north == dist_at(precomputed_distances@, tile as int, 0));
        assert(south == dist_at(precomputed_distances@, tile as int, 1));
        assert(west == dist_at(precomputed_distances@, tile as int, 2));
        assert(east == dist_at(precomputed_distances@, tile as int, 3));
    }
    let mut mask = empty_mask();
    let mut i: usize = 0;
    while i < 8
        invariant
            mask@.len() == 64,
            board@.len() == 64,
            tile < 64,
            i <= 8,
            own == own_color(piece),
            north == edge_dist(tile as int, 0),
            south == edge_dist(tile as int, 1),
            west == edge_dist(tile as int, 2),
            east == edge_dist(tile as int, 3),
            forall|x: int|
                0 <= x < 64 ==> mask@[x] == exists|ii: int|
                    0 <= ii < i && #[trigger] knight_fits(tile as int, ii) && x == tile
                        + knight_offset(ii) && board@[x] & own_color(piece) == 0,
        decreases 8 - i,
    {
        let fits: bool = if i == 0 {
            north > 1 && east > 0
        } else if i == 1 {
            north > 0 && east > 1
        } else if i == 2 {
            east > 1 && south > 0
        } else if i == 3 {
            east > 0 && south > 1
        } else if i == 4 {
            south > 1 && west > 0
        } else if i == 5 {
            south > 0 && west > 1
        } else if i == 6 {
            west > 1 && north > 0
        } else {
            west > 0 && north > 1
        };
        let ghost pre_mask = mask@;
        if fits {
            proof {
                lemma_knight_step(tile as int, i as int);
            }
            let off: i32 = if i == 0 {
                -15
            } else if i == 1 {
                -6
            } else if i == 2 {
                10
            } else if i == 3 {
                17
            } else if i == 4 {
                15
            } else if i == 5 {
                6
            } else if i == 6 {
                -10
            } else {
                -17
            };
            let target = ((tile as i32) + off) as usize;
            if board[target] & own == 0 {
                mask[target] = true;
            }
        }
        proof {
            assert forall|x: int| 0 <= x < 64 implies mask@[x] == exists|ii: int|
                0 <= ii < i + 1 && #[trigger] knight_fits(tile as int, ii) && x == tile
                    + knight_offset(ii) && board@[x] & own_color(piece) == 0 by {
                if fits && x == tile + knight_offset(i as int) && board@[x] & own_color(piece)
                    == 0 {
                    assert(knight_fits(tile as int, i as int));
                    assert(mask@[x]);
                } else {
                    assert(mask@[x] == pre_mask[x]);
                    assert forall|ii: int|
                        0 <= ii < i + 1 && #[trigger] knight_fits(tile as int, ii) && x == tile
                            + knight_offset(ii) && board@[x] & own_color(piece) == 0 implies ii
                        < i by {}
                }
            }
        }
        i = i + 1;
    }
    mask
}

/// One king step in each of the eight directions, blocked by the board edge
/// and by own-color occupancy.
pub fn king_step_mask(board: &Vec<u8>, piece: u8, tile: usize, precomputed_distances: &Vec<u8>) -> (mask: Vec<bool>)
    requires
        board@.len() == 64,
        tile < 64,
        dist_table_wf(precomputed_distances@),
    ensures
        mask@.len() == 64,
        forall|x: int| 0 <= x < 64 ==> mask@[x] == king_step_target(board@, piece, tile as int, x),
{
    let own: u8 = if piece & WHITE > 0 {
        WHITE
    } else {
        BLACK
    };
    let mut mask = empty_mask();
    let mut d: usize = 0;
    while d < 8
        invariant
            mask@.len() == 64,
            board@.len() == 64,
            tile < 64,
            d <= 8,
            own == own_color(piece),
            dist_table_wf(precomputed_distances@),
            forall|x: int|
                0 <= x < 64 ==> mask@[x] == exists|dd: int|
                    0 <= dd < d && #[trigger] edge_dist(tile as int, dd) > 0 && x == tile
                        + dir_offset(dd) && board@[x] & own_color(piece) == 0,
        decreases 8 - d,
    {
        let dist = precomputed_distances[tile * 8 + d];
        proof {
            assert(dist == dist_at(precomputed_distances@, tile as int, d as int));
        }
        let ghost pre_mask = mask@;
        if dist > 0 {
            proof {
                lemma_step(tile as int, d as int);
            }
            let off = dir_offset_exec(d);
            let target = ((tile as i32) + off) as usize;
            if board[target] & own == 0 {
                mask[target] = true;
            }
        }
        proof {
            assert forall|x: int| 0 <= x < 64 implies mask@[x] == exists|dd: int|
                0 <= dd < d + 1 && #[trigger] edge_dist(tile as int, dd) > 0 && x == tile
                    + dir_offset(dd) && board@[x] & own_color(piece) == 0 by {
                if edge_dist(tile as int, d as int) > 0 && x == tile + dir_offset(d as int)
                    && board@[x] & own_color(piece) == 0 {
                    assert(mask@[x]);
                } else {
                    assert(mask@[x] == pre_mask[x]);
                    assert forall|dd: int|
                        0 <= dd < d + 1 && #[trigger] edge_dist(tile as int, dd) > 0 && x == tile
                            + dir_offset(dd) && board@[x] & own_color(piece) == 0 implies dd
                        < d by {}
                }
            }
        }
        d = d + 1;
    }
    mask
}

/// Move mask of a pawn: forward pushes and diagonal captures, including the
/// en-passant target. Returns the mask and, when a double push is open, the
/// skip square it would jump over.
pub fn pawn_movement_from_tile(board: &Vec<u8>, ep: u8, piece: u8, tile: usize, precomputed_distances: &Vec<u8>) -> (r: (
    Vec<bool>,
    Option<u8>,
))
    requires
        board@.len() == 64,
        tile < 64,
        dist_table_wf(precomputed_distances@),
    ensures
        r.0@.len() == 64,
        forall|x: int|
            0 <= x < 64 ==> r.0@[x] == pawn_move_target(board@, ep, piece, tile as int, x),
        r.1 == (if double_push_available(board@, piece, tile as int) {
            Some(skip_square(piece, tile as int) as u8)
        } else {
            Option::<u8>::None
        }),
{
    let mut mask = empty_mask();
    let mut skip: Option<u8> = None;
    if piece & WHITE > 0 {
        let nw = precomputed_distances[tile * 8 + 4];
        let ne = precomputed_distances[tile * 8 + 6];
        let north = precomputed_distances[tile * 8];
        proof {
            assert(nw == dist_at(precomputed_distances@, tile as int, 4));
            assert(ne == dist_at(precomputed_distances@, tile as int, 6));
            assert(north == dist_at(precomputed_distances@, tile as int, 0));
        }
        if nw > 0 {
            proof {
                lemma_step(tile as int, 4);
            }
            let target = tile - 9;
            if board[target] & BLACK > 0 || target as u8 == ep {
                mask[target] = true;
            }
        }
        if ne > 0 {
            proof {
                lemma_step(tile as int, 6);
            }
            let target = tile - 7;
            if board[target] & BLACK > 0 || target as u8 == ep {
                mask[target] = true;
            }
        }
        if north > 0 {
            proof {
                lemma_step(tile as int, 0);
            }
            let target = tile - 8;
            if tile > 47 && tile < 56 {
                if board[target - 8] == 0 && board[target] == 0 {
                    mask[target] = true;
                    mask[target - 8] = true;
                    skip = Some(target as u8);
                } else if board[target] == 0 {
                    mask[target] = true;
                }
            } else {
                if board[target] == 0 {
                    mask[target] = true;
                }
            }
        }
    } else {
        let se = precomputed_distances[tile * 8 + 5];
        let sw = precomputed_distances[tile * 8 + 7];
        let south = precomputed_distances[tile * 8 + 1];
        proof {
            assert(se == dist_at(precomputed_distances@, tile as int, 5));
            assert(sw == dist_at(precomputed_distances@, tile as int, 7));
            assert(south == dist_at(precomputed_distances@, tile as int, 1));
        }
        if se > 0 {
            proof {
                lemma_step(tile as int, 5);
            }
            let target = tile + 9;
            if board[target] & WHITE > 0 || target as u8 == ep {
                mask[target] = true;
            }
        }
        if sw > 0 {
            proof {
                lemma_step(tile as int, 7);
            }
            let target = tile + 7;
            if board[target] & WHITE > 0 || target as u8 == ep {
                mask[target] = true;
            }
        }
        if south > 0 {
            proof {
                lemma_step(tile as int, 1);
            }
            let target = tile + 8;
            if tile > 7 && tile < 16 {
                if board[target + 8] == 0 && board[target] == 0 {
                    mask[target] = true;
                    mask[target + 8] = true;
                    skip = Some(target as u8);
                } else if board[target] == 0 {
                    mask[target] = true;
                }
            } else {
                if board[target] == 0 {
                    mask[target] = true;
                }
            }
        }
    }
    (mask, skip)
}

/// Attack mask of a pawn: its two forward diagonals, whatever stands there.
pub fn pawn_attack_from_tile(piece: u8, tile: usize, precomputed_distances: &Vec<u8>) -> (mask: Vec<bool>)
    requires
        tile < 64,
        dist_table_wf(precomputed_distances@),
    ensures
        mask@.len() == 64,
        forall|x: int| 0 <= x < 64 ==> mask@[x] == pawn_attack_target(piece, tile as int, x),
{
    let mut mask = empty_mask();
    if piece & WHITE > 0 {
        let nw = precomputed_distances[tile * 8 + 4];
        let ne = precomputed_distances[tile * 8 + 6];
        proof {
            assert(nw == dist_at(precomputed_distances@, tile as int, 4));
            assert(ne == dist_at(precomputed_distances@, tile as int, 6));
        }
        if nw > 0 {
            proof {
                lemma_step(tile as int, 4);
            }
            mask[tile - 9] = true;
        }
        if ne > 0 {
            proof {
                lemma_step(tile as int, 6);
            }
            mask[tile - 7] = true;
        }
    } else {
        let se = precomputed_distances[tile * 8 + 5];
        let sw = precomputed_distances[tile * 8 + 7];
        proof {
            assert(se == dist_at(precomputed_distances@, tile as int, 5));
            assert(sw == dist_at(precomputed_distances@, tile as int, 7));
        }
        if se > 0 {
            proof {
                lemma_step(tile as int, 5);
            }
            mask[tile + 9] = true;
        }
        if sw > 0 {
            proof {
                lemma_step(tile as int, 7);
            }
            mask[tile + 7] = true;
        }
    }
    mask
}

/// Attack mask of a piece on a board, dispatched by its kind flag.
pub fn attacks_for_piece_on_board(board: &Vec<u8>, piece: u8, tile: usize, precomputed_distances: &Vec<u8>) -> (mask: Vec<bool>)
    requires
        board@.len() == 64,
        tile < 64,
        dist_table_wf(precomputed_distances@),
    ensures
        mask@.len() == 64,
        forall|x: int| 0 <= x < 64 ==> mask@[x] == piece_attacks(board@, piece, tile as int, x),
{
    if piece & KING > 0 {
        king_step_mask(board, piece, tile, precomputed_distances)
    } else if piece & QUEEN > 0 {
        queen_movement_from_tile(board, piece, tile, precomputed_distances)
    } else if piece & ROOK > 0 {
        rook_movement_from_tile(board, piece, tile, precomputed_distances)
    } else if piece & BISHOP > 0 {
        bishop_movement_from_tile(board, piece, tile, precomputed_distances)
    } else if piece & KNIGHT > 0 {
        knight_movement_from_tile(board, piece, tile, precomputed_distances)
    } else if piece & PAWN > 0 {
        pawn_attack_from_tile(piece, tile, precomputed_distances)
    } else {
        empty_mask()
    }
}

/// Union of the attack masks of every piece of `color` on the board: the
/// squares that `color` attacks.
pub fn attacked_squares_on_board(board: &Vec<u8>, color: u8, precomputed_distances: &Vec<u8>) -> (mask: Vec<bool>)
    requires
        board@.len() == 64,
        dist_table_wf(precomputed_distances@),
    ensures
        mask@.len() == 64,
        forall|x: int| 0 <= x < 64 ==> mask@[x] == attacked(board@, color, x),
{
    let mut mask = empty_mask();
    let mut s: usize = 0;
    while s < 64
        invariant
            mask@.len() == 64,
            board@.len() == 64,
            s <= 64,
            dist_table_wf(precomputed_distances@),
            forall|x: int| 0 <= x < 64 ==> mask@[x] == attacked_below(board@, color, x, s as int),
        decreases 64 - s,
    {
        if board[s] & color > 0 {
            let piece_mask = attacks_for_piece_on_board(board, board[s], s, precomputed_distances);
            let mut t: usize = 0;
            while t < 64
                invariant
                    mask@.len() == 64,
                    piece_mask@.len() == 64,
                    board@.len() == 64,
                    s < 64,
                    t <= 64,
                    forall|x: int|
                        0 <= x < 64 ==> piece_mask@[x] == piece_attacks(
                            board@,
                            board@[s as int],
                            s as int,
                            x,
                        ),
                    forall|x: int|
                        0 <= x < 64 ==> mask@[x] == (attacked_below(board@, color, x, s as int)
                            || (x < t && piece_mask@[x])),
                decreases 64 - t,
            {
                if piece_mask[t] {
                    mask[t] = true;
                }
                t = t + 1;
            }
        }
        proof {
            assert forall|x: int| 0 <= x < 64 implies mask@[x] == attacked_below(
                board@,
                color,
                x,
                s as int + 1,
            ) by {
                if attacked_below(board@, color, x, s as int + 1) && !(board@[s as int] & color > 0
                    && piece_attacks(board@, board@[s as int], s as int, x)) {
                    let w = choose|w: int|
                        0 <= w < s + 1 && board@[w] & color > 0 && #[trigger] piece_attacks(
                            board@,
                            board@[w],
                            w,
                            x,
                        );
                    assert(w < s);
                    assert(attacked_below(board@, color, x, s as int));
                }
                if attacked_below(board@, color, x, s as int) {
                    assert(attacked_below(board@, color, x, s as int + 1));
                }
                if board@[s as int] & color > 0 && piece_attacks(
                    board@,
                    board@[s as int],
                    s as int,
                    x,
                ) {
                    assert(attacked_below(board@, color, x, s as int + 1));
                }
            }
        }
        s = s + 1;
    }
    proof {
        assert forall|x: int| 0 <= x < 64 implies attacked_below(board@, color, x, 64)
            == attacked(board@, color, x) by {
            if attacked(board@, color, x) {
                let w = choose|w: int|
                    0 <= w < 64 && board@[w] & color > 0 && #[trigger] piece_attacks(
                        board@,
                        board@[w],
                        w,
                        x,
                    );
                assert(attacked_below(board@, color, x, 64));
            }
        }
    }
    mask
}

/// Law: in a well-formed edge-distance table, each diagonal distance equals
/// the minimum of its two component orthogonal distances, and opposite
/// orthogonal distances sum to seven.
pub proof fn lemma_geometry_table_distances(table: Seq<u8>, t: int)
    requires
        dist_table_wf(table),
        0 <= t < 64,
    ensures
        dist_at(table, t, 4) == vstd::math::min(
            dist_at(table, t, 0) as int,
            dist_at(table, t, 2) as int,
        ),
        dist_at(table, t, 5) == vstd::math::min(
            dist_at(table, t, 1) as int,
            dist_at(table, t, 3) as int,
        ),
        dist_at(table, t, 6) == vstd::math::min(
            dist_at(table, t, 0) as int,
            dist_at(table, t, 3) as int,
        ),
        dist_at(table, t, 7) == vstd::math::min(
            dist_at(table, t, 1) as int,
            dist_at(table, t, 2) as int,
        ),
        dist_at(table, t, 0) + dist_at(table, t, 1) == 7,
        dist_at(table, t, 2) + dist_at(table, t, 3) == 7,
{
    assert(dist_at(table, t, 0) == edge_dist(t, 0));
    assert(dist_at(table, t, 1) == edge_dist(t, 1));
    assert(dist_at(table, t, 2) == edge_dist(t, 2));
    assert(dist_at(table, t, 3) == edge_dist(t, 3));
    assert(dist_at(table, t, 4) == edge_dist(t, 4));
    assert(dist_at(table, t, 5) == edge_dist(t, 5));
    assert(dist_at(table, t, 6) == edge_dist(t, 6));
    assert(dist_at(table, t, 7) == edge_dist(t, 7));
}

/// Square `x` lies `k` steps from `tile` along direction `d`.
pub open spec fn ray_displacement(tile: int, d: int, k: int, x: int) -> bool {
    x == tile + k * dir_offset(d)
}

/// Every ray target lies a positive number of steps from the source square
/// along the ray direction.
pub proof fn lemma_ray_offset(board: Seq<u8>, piece: u8, tile: int, d: int, steps: int, x: int)
    requires
        ray_target(board, piece, tile, d, steps, x),
    ensures
        exists|k: int| 1 <= k <= steps && #[trigger] ray_displacement(tile, d, k, x),
    decreases steps,
{
    let next = tile + dir_offset(d);
    if x == next {
        assert(ray_displacement(tile, d, 1, x));
    } else {
        lemma_ray_offset(board, piece, next, d, steps - 1, x);
        let k = choose|k: int| 1 <= k <= steps - 1 && #[trigger] ray_displacement(next, d, k, x);
        assert(ray_displacement(tile, d, k + 1, x)) by {
            assert((k + 1) * dir_offset(d) == k * dir_offset(d) + dir_offset(d))
                by (nonlinear_arith);
        }
    }
}

/// Law: a castling destination stands in the king's move mask from the
/// king's home square only when the matching rights flag is set, the path
/// between king and rook is empty, and no square the king traverses is
/// attacked by the enemy.
pub proof fn lemma_castling_legality(board: Seq<u8>, rights: Seq<bool>, piece: u8)
    requires
        board.len() == 64,
    ensures
        king_move_target(board, rights, piece, 60, 62) ==> (rights[0] && board[61] == 0 && board[62]
            == 0 && !attacked(board, BLACK, 60) && !attacked(board, BLACK, 61) && !attacked(
            board,
            BLACK,
            62,
        )),
        king_move_target(board, rights, piece, 60, 58) ==> (rights[1] && board[57] == 0 && board[58]
            == 0 && board[59] == 0 && !attacked(board, BLACK, 60) && !attacked(board, BLACK, 59)
            && !attacked(board, BLACK, 58)),
        king_move_target(board, rights, piece, 4, 6) ==> (rights[2] && board[5] == 0 && board[6]
            == 0 && !attacked(board, WHITE, 4) && !attacked(board, WHITE, 5) && !attacked(
            board,
            WHITE,
            6,
        )),
        king_move_target(board, rights, piece, 4, 2) ==> (rights[3] && board[1] == 0 && board[2]
            == 0 && board[3] == 0 && !attacked(board, WHITE, 2) && !attacked(board, WHITE, 3)
            && !attacked(board, WHITE, 4)),
{
    assert(!king_step_target(board, piece, 60, 62)) by {
        if king_step_target(board, piece, 60, 62) {
            let d = choose|d: int|
                0 <= d < 8 && #[trigger] edge_dist(60, d) > 0 && 62 == 60 + dir_offset(d)
                    && board[62] & own_color(piece) == 0;
            assert(dir_offset(d) == 2);
        }
    }
    assert(!king_step_target(board, piece, 60, 58)) by {
        if king_step_target(board, piece, 60, 58) {
            let d = choose|d: int|
                0 <= d < 8 && #[trigger] edge_dist(60, d) > 0 && 58 == 60 + dir_offset(d)
                    && board[58] & own_color(piece) == 0;
            assert(dir_offset(d) == -2);
        }
    }
    assert(!king_step_target(board, piece, 4, 6)) by {
        if king_step_target(board, piece, 4, 6) {
            let d = choose|d: int|
                0 <= d < 8 && #[trigger] edge_dist(4, d) > 0 && 6 == 4 + dir_offset(d) && board[6]
                    & own_color(piece) == 0;
            assert(dir_offset(d) == 2);
        }
    }
    assert(!king_step_target(board, piece, 4, 2)) by {
        if king_step_target(board, piece, 4, 2) {
            let d = choose|d: int|
                0 <= d < 8 && #[trigger] edge_dist(4, d) > 0 && 2 == 4 + dir_offset(d) && board[2]
                    & own_color(piece) == 0;
            assert(dir_offset(d) == -2);
        }
    }
}

/// Move mask of a king: one step around, plus the open castling destinations.
pub fn king_movement_on_board(
    board: &Vec<u8>,
    rights: &Vec<bool>,
    piece: u8,
    tile: usize,
    precomputed_distances: &Vec<u8>,
) -> (mask: Vec<bool>)
    requires
        board@.len() == 64,
        rights@.len() == 4,
        tile < 64,
        dist_table_wf(precomputed_distances@),
    ensures
        mask@.len() == 64,
        forall|x: int|
            0 <= x < 64 ==> mask@[x] == king_move_target(board@, rights@, piece, tile as int, x),
{
    let mut mask = king_step_mask(board, piece, tile, precomputed_distances);
    let ghost step_mask = mask@;
    let mut injected62: bool = false;
    let mut injected58: bool = false;
    let mut injected6: bool = false;
    let mut injected2: bool = false;
    if piece & KING > 0 {
        if piece & WHITE > 0 {
            if tile == 60 {
                let att = attacked_squares_on_board(board, BLACK, precomputed_distances);
                if rights[0] && !att[60] && !att[61] && !att[62] && board[61] == 0 && board[62] == 0
                    && board[63] & ROOK > 0 && board[63] & WHITE > 0 {
                    mask[62] = true;
                    injected62 = true;
                }
                if rights[1] && !att[60] && !att[59] && !att[58] && board[59] == 0 && board[58]
                    == 0 && board[57] == 0 && board[56] & ROOK > 0 && board[56] & WHITE > 0 {
                    mask[58] = true;
                    injected58 = true;
                }
            }
        } else {
            if tile == 4 {
                let att = attacked_squares_on_board(board, WHITE, precomputed_distances);
                if rights[2] && !att[4] && !att[5] && !att[6] && board[5] == 0 && board[6] == 0
                    && board[7] & ROOK > 0 && board[7] & BLACK > 0 {
                    mask[6] = true;
                    injected6 = true;
                }
                if rights[3] && !att[2] && !att[3] && !att[4] && board[1] == 0 && board[2] == 0
                    && board[3] == 0 && board[0] & ROOK > 0 && board[0] & BLACK > 0 {
                    mask[2] = true;
                    injected2 = true;
                }
            }
        }
    }
    proof {
        assert(injected62 == castle_target(board@, rights@, piece, tile as int, 62));
        assert(injected58 == castle_target(board@, rights@, piece, tile as int, 58));
        assert(injected6 == castle_target(board@, rights@, piece, tile as int, 6));
        assert(injected2 == castle_target(board@, rights@, piece, tile as int, 2));
        assert forall|x: int| 0 <= x < 64 implies mask@[x] == king_move_target(
            board@,
            rights@,
            piece,
            tile as int,
            x,
        ) by {
            if x != 62 && x != 58 && x != 6 && x != 2 {
                assert(mask@[x] == step_mask[x]);
                assert(!castle_target(board@, rights@, piece, tile as int, x));
            } else {
                assert(mask@[x] == (step_mask[x] || (x == 62 && injected62) || (x == 58
                    && injected58) || (x == 6 && injected6) || (x == 2 && injected2)));
            }
        }
    }
    mask
}

/// Pseudo-legal move mask of a piece, dispatched by its kind flag, and the
/// skip square when the piece is a pawn with an open double push.
pub fn moves_for_piece_on_board(
    board: &Vec<u8>,
    rights: &Vec<bool>,
    ep: u8,
    piece: u8,
    tile: usize,
    precomputed_distances: &Vec<u8>,
) -> (r: (Vec<bool>, Option<u8>))
    requires
        board@.len() == 64,
        rights@.len() == 4,
        tile < 64,
        dist_table_wf(precomputed_distances@),
    ensures
        r.0@.len() == 64,
        forall|x: int|
            0 <= x < 64 ==> r.0@[x] == piece_move_target(board@, rights@, ep, piece, tile as int, x),
        r.1 == (if dispatched_to_pawn(piece) && double_push_available(board@, piece, tile as int) {
            Some(skip_square(piece, tile as int) as u8)
        } else {
            Option::<u8>::None
        }),
{
    if piece & KING > 0 {
        (king_movement_on_board(board, rights, piece, tile, precomputed_distances), None)
    } else if piece & QUEEN > 0 {
        (queen_movement_from_tile(board, piece, tile, precomputed_distances), None)
    } else if piece & ROOK > 0 {
        (rook_movement_from_tile(board, piece, tile, precomputed_distances), None)
    } else if piece & BISHOP > 0 {
        (bishop_movement_from_tile(board, piece, tile, precomputed_distances), None)
    } else if piece & KNIGHT > 0 {
        (knight_movement_from_tile(board, piece, tile, precomputed_distances), None)
    } else if piece & PAWN > 0 {
        pawn_movement_from_tile(board, ep, piece, tile, precomputed_distances)
    } else {
        (empty_mask(), None)
    }
}

} // verus!
