//! Zobrist hashing with fixed keys.
//!
//! The keys are the outputs of SplitMix64 seeded with a fixed constant: the
//! `n`-th output (counting from 1) is `mix(SEED + n * GOLDEN)` in wrapping
//! arithmetic, so each key is computed directly from its position in the
//! sequence. Keys `1..=1260` cover 14 piece codes × 90 points (row-major by
//! piece), key `1261` is the side-to-move key.
use vstd::prelude::*;

use crate::color::Color;
use crate::piece::{valid_code, zobrist_row};

verus! {

/// Fixed seed (high bits of the golden ratio).
pub const SEED: u64 = 0x9E37_79B9_7F4A_7C15;

/// SplitMix64 state increment.
pub const GOLDEN: u64 = 0x9E37_79B9_7F4A_7C15;

/// Position of the side-to-move key in the key sequence.
pub const SIDE_KEY_INDEX: u64 = 1261;

/// The SplitMix64 output mixer.
pub open spec fn mix64(z0: u64) -> u64 {
    let z1 = ((z0 ^ (z0 >> 30u64)) as u64).wrapping_mul(0xBF58_476D_1CE4_E5B9u64);
    let z2 = ((z1 ^ (z1 >> 27u64)) as u64).wrapping_mul(0x94D0_49BB_1331_11EBu64);
    (z2 ^ (z2 >> 31u64)) as u64
}

/// The `n`-th SplitMix64 output of the fixed seed.
pub open spec fn zkey(n: u64) -> u64 {
    mix64(SEED.wrapping_add(GOLDEN.wrapping_mul(n)))
}

/// Key of piece code `p` on point `i`.
pub open spec fn piece_key(p: u8, i: int) -> u64 {
    zkey((zobrist_row(p) * 90 + i + 1) as u64)
}

/// Key toggled when Black is to move.
pub open spec fn side_key() -> u64 {
    zkey(SIDE_KEY_INDEX)
}

/// Contribution of point `i` holding code `p`.
pub open spec fn square_term(p: u8, i: int) -> u64 {
    if p == 0 {
        0
    } else {
        piece_key(p, i)
    }
}

/// XOR of the contributions of the first `n` points of `b`.
pub open spec fn board_hash(b: Seq<u8>, n: int) -> u64
    decreases n,
{
    if n <= 0 {
        0
    } else {
        (board_hash(b, n - 1) ^ square_term(b[n - 1], n - 1)) as u64
    }
}

/// Zobrist hash of a board and side to move.
pub open spec fn zobrist_hash(b: Seq<u8>, side: Color) -> u64 {
    if side == Color::Black {
        (board_hash(b, 90) ^ side_key()) as u64
    } else {
        board_hash(b, 90)
    }
}

/// Computes the `n`-th SplitMix64 output of the fixed seed.
pub fn zobrist_key(n: u64) -> (r: u64)
    ensures
        r == zkey(n),
{
    let mut z = SEED.wrapping_add(GOLDEN.wrapping_mul(n));
    z = (z ^ (z >> 30)).wrapping_mul(0xBF58_476D_1CE4_E5B9);
    z = (z ^ (z >> 27)).wrapping_mul(0x94D0_49BB_1331_11EB);
    z ^ (z >> 31)
}

/// Key of a non-empty valid piece code on point `i`.
pub fn piece_key_of(p: u8, i: usize) -> (r: u64)
    requires
        valid_code(p),
        p != 0,
        i < 90,
    ensures
        r == piece_key(p, i as int),
{
    let row = crate::piece::zobrist_index(p);
    zobrist_key((row * 90 + i + 1) as u64)
}

/// Key toggled when Black is to move.
pub fn side_key_of() -> (r: u64)
    ensures
        r == side_key(),
{
    zobrist_key(SIDE_KEY_INDEX)
}

/// Replacing one term: `((a ^ x) ^ x) ^ y == a ^ y`.
pub proof fn lemma_xor_replace(a: u64, x: u64, y: u64)
    ensures
        ((((a ^ x) as u64) ^ x) as u64 ^ y) as u64 == (a ^ y) as u64,
{
    assert(((((a ^ x) as u64) ^ x) as u64 ^ y) == (a ^ y)) by (bit_vector);
}

/// Changing point `i` of the board changes the partial hash by exactly the
/// old and new contributions of that point.
pub proof fn lemma_board_hash_update(b: Seq<u8>, i: int, q: u8, n: int)
    requires
        0 <= i < b.len(),
        n <= b.len(),
    ensures
        board_hash(b.update(i, q), n) == (if n > i {
            ((board_hash(b, n) ^ square_term(b[i], i)) ^ square_term(q, i)) as u64
        } else {
            board_hash(b, n)
        }),
    decreases n,
{
    let b2 = b.update(i, q);
    if n <= 0 {
    } else {
        lemma_board_hash_update(b, i, q, n - 1);
        if n - 1 == i {
            assert(board_hash(b2, n - 1) == board_hash(b, n - 1));
            lemma_xor_replace(board_hash(b, n - 1), square_term(b[i], i), square_term(q, i));
        } else if n - 1 > i {
            let f = board_hash(b, n - 1);
            let tp = square_term(b[i], i);
            let tq = square_term(q, i);
            let t = square_term(b[n - 1], n - 1);
            assert(b2[n - 1] == b[n - 1]);
            assert((((f ^ tp) ^ tq) ^ t) == (((f ^ t) ^ tp) ^ tq)) by (bit_vector);
        } else {
            assert(b2[n - 1] == b[n - 1]);
        }
    }
}

/// Hash of a board after one point changes.
pub proof fn lemma_hash_update(b: Seq<u8>, i: int, q: u8)
    requires
        b.len() == 90,
        0 <= i < 90,
    ensures
        board_hash(b.update(i, q), 90) == ((board_hash(b, 90) ^ square_term(b[i], i)) ^ square_term(q, i)) as u64,
{
    lemma_board_hash_update(b, i, q, 90);
}

/// The fixed key table: 14 piece codes × 90 points, plus the side key.
pub struct Zobrist {
    /// `pieces[row][point]`, rows as given by [`crate::piece::zobrist_index`].
    pub pieces: Vec<Vec<u64>>,
    /// Key toggled when Black is to move.
    pub side: u64,
}

impl Zobrist {
    /// Builds the full key table.
    pub fn new() -> (r: Zobrist)
        ensures
            r.pieces@.len() == 14,
            forall|p: int| 0 <= p < 14 ==> #[trigger] r.pieces@[p]@.len() == 90,
            forall|p: int, s: int|
                0 <= p < 14 && 0 <= s < 90 ==> #[trigger] r.pieces@[p]@[s] == zkey((p * 90 + s + 1) as u64),
            r.side == side_key(),
    {
        let mut pieces: Vec<Vec<u64>> = Vec::new();
        let mut p: usize = 0;
        while p < 14
            invariant
                p <= 14,
                pieces@.len() == p,
                forall|q: int| 0 <= q < p ==> #[trigger] pieces@[q]@.len() == 90,
                forall|q: int, s: int|
                    0 <= q < p && 0 <= s < 90 ==> #[trigger] pieces@[q]@[s] == zkey((q * 90 + s + 1) as u64),
            decreases 14 - p,
        {
            let mut row: Vec<u64> = Vec::new();
            let mut s: usize = 0;
            while s < 90
                invariant
                    s <= 90,
                    p < 14,
                    row@.len() == s,
                    forall|t: int| 0 <= t < s ==> #[trigger] row@[t] == zkey((p * 90 + t + 1) as u64),
                decreases 90 - s,
            {
                row.push(zobrist_key((p * 90 + s + 1) as u64));
                s += 1;
            }
            pieces.push(row);
            p += 1;
        }
        Zobrist { pieces, side: side_key_of() }
    }
}

} // verus!
