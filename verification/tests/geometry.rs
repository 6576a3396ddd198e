use chess_logic::GAME;

fn min(a: u8, b: u8) -> u8 {
    if a < b {
        a
    } else {
        b
    }
}

#[test]
fn diagonal_distances_are_minima_of_orthogonals() {
    let table = GAME::tiles_to_the_edge();
    for tile in 0..64 {
        let north = table[tile * 8];
        let south = table[tile * 8 + 1];
        let west = table[tile * 8 + 2];
        let east = table[tile * 8 + 3];
        assert_eq!(table[tile * 8 + 4], min(north, west));
        assert_eq!(table[tile * 8 + 5], min(south, east));
        assert_eq!(table[tile * 8 + 6], min(north, east));
        assert_eq!(table[tile * 8 + 7], min(south, west));
    }
}

#[test]
fn opposite_orthogonal_distances_sum_to_seven() {
    let table = GAME::tiles_to_the_edge();
    for tile in 0..64 {
        assert_eq!(table[tile * 8] + table[tile * 8 + 1], 7);
        assert_eq!(table[tile * 8 + 2] + table[tile * 8 + 3], 7);
    }
}

#[test]
fn corner_and_center_distances() {
    let table = GAME::tiles_to_the_edge();
    // square 0, the top-left corner: no room north or west.
    assert_eq!(&table[0..8], &[0, 7, 0, 7, 0, 7, 0, 0]);
    // square 63, the bottom-right corner: no room south or east.
    assert_eq!(&table[63 * 8..64 * 8], &[7, 0, 7, 0, 7, 0, 0, 0]);
    // square 36 (e4): rank 4, file 4.
    assert_eq!(&table[36 * 8..37 * 8], &[4, 3, 4, 3, 4, 3, 3, 3]);
}
