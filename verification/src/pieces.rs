//! A self-contained piece-flag vocabulary for board renderers: one bit value
//! per piece kind and per color, and constructors for every colored piece.
//!
//! The flag values here are independent of the engine's own encoding in the
//! crate root; the two sets are never mixed.
use vstd::prelude::*;

verus! {

/// Pawn flag.
pub fn pawn() -> (r: u8)
    ensures
        r == 1,
{
    1
}

/// Rook flag.
pub fn rook() -> (r: u8)
    ensures
        r == 2,
{
    2
}

/// Knight flag.
pub fn kight() -> (r: u8)
    ensures
        r == 4,
{
    4
}

/// Bishop flag.
pub fn bishop() -> (r: u8)
    ensures
        r == 8,
{
    8
}

/// Queen flag.
pub fn queen() -> (r: u8)
    ensures
        r == 16,
{
    16
}

/// King flag.
pub fn king() -> (r: u8)
    ensures
        r == 32,
{
    32
}

/// Black color flag.
pub fn black() -> (r: u8)
    ensures
        r == 64,
{
    64
}

/// White color flag.
pub fn white() -> (r: u8)
    ensures
        r == 128,
{
    128
}

/// True when the piece carries the black color flag.
pub fn is_black(piece: u8) -> (r: bool)
    ensures
        r == (piece & 64 > 0),
{
    (piece & black()) > 0
}

/// White pawn entry.
pub fn get_white_pawn() -> (r: u8)
    ensures
        r == 1 + 128,
{
    pawn() + white()
}

/// White rook entry.
pub fn get_white_rook() -> (r: u8)
    ensures
        r == 2 + 128,
{
    rook() + white()
}

/// White knight entry.
pub fn get_white_knight() -> (r: u8)
    ensures
        r == 4 + 128,
{
    kight() + white()
}

/// White bishop entry.
pub fn get_white_bishop() -> (r: u8)
    ensures
        r == 8 + 128,
{
    bishop() + white()
}

/// White queen entry.
pub fn get_white_queen() -> (r: u8)
    ensures
        r == 16 + 128,
{
    queen() + white()
}

/// White king entry.
pub fn get_white_king() -> (r: u8)
    ensures
        r == 32 + 128,
{
    king() + white()
}

/// Black pawn entry.
pub fn get_black_pawn() -> (r: u8)
    ensures
        r == 1 + 64,
{
    pawn() + black()
}

/// Black rook entry.
pub fn get_black_rook() -> (r: u8)
    ensures
        r == 2 + 64,
{
    rook() + black()
}

/// Black knight entry.
pub fn get_black_knight() -> (r: u8)
    ensures
        r == 4 + 64,
{
    kight() + black()
}

/// Black bishop entry.
pub fn get_black_bishop() -> (r: u8)
    ensures
        r == 8 + 64,
{
    bishop() + black()
}

/// Black queen entry.
pub fn get_black_queen() -> (r: u8)
    ensures
        r == 16 + 64,
{
    queen() + black()
}

/// Black king entry.
pub fn get_black_king() -> (r: u8)
    ensures
        r == 32 + 64,
{
    king() + black()
}

/// The twelve colored pieces: the six white pieces, then the six black ones,
/// each ordered pawn, rook, knight, bishop, queen, king.
pub fn generate_array_of_all_pieces() -> (r: Vec<u8>)
    ensures
        r@ == seq![129u8, 130u8, 132u8, 136u8, 144u8, 160u8, 65u8, 66u8, 68u8, 72u8, 80u8, 96u8],
{
    let mut all: Vec<u8> = Vec::new();
    all.push(pawn() + white());
    all.push(rook() + white());
    all.push(kight() + white());
    all.push(bishop() + white());
    all.push(queen() + white());
    all.push(king() + white());
    all.push(pawn() + black());
    all.push(rook() + black());
    all.push(kight() + black());
    all.push(bishop() + black());
    all.push(queen() + black());
    all.push(king() + black());
    proof {
        assert(all@ =~= seq![129u8, 130u8, 132u8, 136u8, 144u8, 160u8, 65u8, 66u8, 68u8, 72u8, 80u8, 96u8]);
    }
    all
}

} // verus!
