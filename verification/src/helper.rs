//! The starting position, and the names of squares.

use vstd::prelude::*;
use crate::bitboard::{
    BitBoard, lemma_mask_empty, lemma_mask_set, lemma_mask_single, lemma_mask_union,
};
use crate::piece::CastlingRights;
use crate::position::{Board, Pieces, Position, Sides, union_of};

verus! {

/// The board at the start of a game: the pawns on the second and seventh
/// ranks, the pieces behind them, nothing moved and no en-passant target.
pub open spec fn starting_board() -> Board {
    Board {
        sides: seq![Set::new(|sq: int| 0 <= sq < 16), Set::new(|sq: int| 48 <= sq < 64)],
        pieces: seq![
            seq![
                Set::new(|sq: int| 8 <= sq < 16),
                set![1, 6],
                set![2, 5],
                set![0, 7],
                set![3],
                set![4],
            ],
            seq![
                Set::new(|sq: int| 48 <= sq < 56),
                set![57, 62],
                set![58, 61],
                set![56, 63],
                set![59],
                set![60],
            ],
        ],
        castling_rights: CastlingRights::untouched(),
        en_passant: None,
    }
}

/// The file a letter names, counted from 0: `A` to `H` in either case.
pub open spec fn file_of_letter(letter: char) -> Option<int> {
    if 'A' <= letter <= 'H' {
        Some(letter as int - 'A' as int)
    } else if 'a' <= letter <= 'h' {
        Some(letter as int - 'a' as int)
    } else {
        None
    }
}

/// The rank a digit names, counted from 0: `1` to `8`.
pub open spec fn rank_of_digit(digit: char) -> Option<int> {
    if '1' <= digit <= '8' {
        Some(digit as int - '1' as int)
    } else {
        None
    }
}

/// The square that a text names: a file letter followed by a rank digit and
/// nothing else.
pub open spec fn named_square(text: Seq<char>) -> Option<u8> {
    if text.len() == 2 && file_of_letter(text[0]).is_some() && rank_of_digit(text[1]).is_some() {
        Some((rank_of_digit(text[1]).unwrap() * 8 + file_of_letter(text[0]).unwrap()) as u8)
    } else {
        None
    }
}

/// The name of a square in upper case: file letter, then rank digit.
pub open spec fn square_name(index: u8) -> Seq<char> {
    seq![('A' as int + index % 8) as char, ('1' as int + index / 8) as char]
}

/// The mask of the eight squares that start at `first`.
fn row_mask(first: u8) -> (mask: u64)
    requires
        first <= 56,
    ensures
        BitBoard(mask)@ == Set::new(|sq: int| first <= sq < first + 8),
{
    let mut mask: u64 = 0;
    let mut i: u8 = 0;
    proof {
        lemma_mask_empty(0);
    }
    while i < 8
        invariant
            i <= 8,
            first <= 56,
            BitBoard(mask)@ =~= Set::new(|sq: int| first <= sq < first + i),
        decreases 8 - i,
    {
        proof {
            lemma_mask_set(mask, (first + i) as u64);
        }
        mask = mask | (1u64 << (first + i));
        i += 1;
    }
    mask
}

/// The mask of the two squares `a` and `b`.
fn pair_mask(a: u8, b: u8) -> (mask: u64)
    requires
        a < 64,
        b < 64,
    ensures
        BitBoard(mask)@ == set![a as int, b as int],
{
    proof {
        lemma_mask_single(a as u64);
        lemma_mask_set(1u64 << a, b as u64);
    }
    (1u64 << a) | (1u64 << b)
}

/// The mask of the square `a` alone.
fn single_mask(a: u8) -> (mask: u64)
    requires
        a < 64,
    ensures
        BitBoard(mask)@ == set![a as int],
{
    proof {
        lemma_mask_single(a as u64);
    }
    1u64 << a
}

/// The bitwise or of a side's six piece masks.
fn side_mask(row: &[BitBoard; 6]) -> (mask: u64)
    ensures
        BitBoard(mask)@ == union_of(Seq::new(6, |k: int| row[k]@)),
{
    let mut mask: u64 = 0;
    let mut k: usize = 0;
    proof {
        lemma_mask_empty(0);
    }
    while k < 6
        invariant
            k <= 6,
            forall|sq: int|
                BitBoard(mask)@.contains(sq) <==> exists|j: int| 0 <= j < k && row[j]@.contains(sq),
        decreases 6 - k,
    {
        proof {
            lemma_mask_union(mask, row[k as int].0);
        }
        mask = mask | row[k].0;
        k += 1;
    }
    proof {
        let pieces = Seq::new(6, |k: int| row[k]@);
        assert forall|sq: int| BitBoard(mask)@.contains(sq) <==> union_of(pieces).contains(sq) by {
            if union_of(pieces).contains(sq) {
                assert(row[0]@.contains(sq) || row[1]@.contains(sq) || row[2]@.contains(sq)
                    || row[3]@.contains(sq) || row[4]@.contains(sq) || row[5]@.contains(sq));
            }
        }
        assert(BitBoard(mask)@ =~= union_of(pieces));
    }
    mask
}

/// Returns the position at the start of a game.
///
/// Every piece stands on its home square, each side mask is the union of
/// that side's piece masks, no king or rook has moved, and there is no
/// en-passant target.
pub fn initialize_board() -> (position: Position)
    ensures
        position@ == starting_board(),
        position@.well_formed(),
{
    let mut position = Position {
        bb_sides: [BitBoard(0), BitBoard(0)],
        bb_pieces: [[BitBoard(0); 6]; 2],
        castling_rights: CastlingRights::new(),
        en_passant: None,
    };
    // White pieces
    position.bb_pieces[Sides::WHITE][Pieces::PAWN] = BitBoard(row_mask(8));
    position.bb_pieces[Sides::WHITE][Pieces::ROOK] = BitBoard(pair_mask(0, 7));
    position.bb_pieces[Sides::WHITE][Pieces::KNIGHT] = BitBoard(pair_mask(1, 6));
    position.bb_pieces[Sides::WHITE][Pieces::BISHOP] = BitBoard(pair_mask(2, 5));
    position.bb_pieces[Sides::WHITE][Pieces::QUEEN] = BitBoard(single_mask(3));
    position.bb_pieces[Sides::WHITE][Pieces::KING] = BitBoard(single_mask(4));
    // Black pieces
    position.bb_pieces[Sides::BLACK][Pieces::PAWN] = BitBoard(row_mask(48));
    position.bb_pieces[Sides::BLACK][Pieces::ROOK] = BitBoard(pair_mask(56, 63));
    position.bb_pieces[Sides::BLACK][Pieces::KNIGHT] = BitBoard(pair_mask(57, 62));
    position.bb_pieces[Sides::BLACK][Pieces::BISHOP] = BitBoard(pair_mask(58, 61));
    position.bb_pieces[Sides::BLACK][Pieces::QUEEN] = BitBoard(single_mask(59));
    position.bb_pieces[Sides::BLACK][Pieces::KING] = BitBoard(single_mask(60));
    // Fill side masks
    position.bb_sides[Sides::WHITE] = BitBoard(side_mask(&position.bb_pieces[Sides::WHITE]));
    position.bb_sides[Sides::BLACK] = BitBoard(side_mask(&position.bb_pieces[Sides::BLACK]));
    proof {
        let start = starting_board();
        assert(position@.pieces[0] =~~= start.pieces[0]);
        assert(position@.pieces[1] =~~= start.pieces[1]);
        assert(position@.sides[0] =~= start.sides[0]);
        assert(position@.sides[1] =~= start.sides[1]);
        assert(position@ =~~= start);
    }
    position
}

/// Joins two characters into a string.
///
/// Stands for `format!("{}{}", first, second)`: the text holds the first
/// character followed by the second, and nothing else.
#[verifier::external_body]
fn two_characters(first: char, second: char) -> (text: String)
    ensures
        text@ == seq![first, second],
{
    format!("{}{}", first, second)
}

/// Names the square `index` in upper case, file letter first: 0 is "A1",
/// 7 is "H1", 63 is "H8".
pub fn index_to_square(index: u8) -> (name: String)
    ensures
        name@ == square_name(index),
{
    let file: u8 = index % 8;
    let rank: u8 = index / 8;
    let file_char: char = ('A' as u8 + file) as char;
    let rank_char: char = ('1' as u8 + rank) as char;
    two_characters(file_char, rank_char)
}

/// Reads the name of a square: a file letter `A` to `H` in either case,
/// followed by a rank digit `1` to `8`. Any other text gives `None`.
pub fn square_to_index(square: &str) -> (index: Option<u8>)
    ensures
        index == named_square(square@),
{
    if square.unicode_len() != 2 {
        return None;
    }
    let letter: char = square.get_char(0);
    let rank: char = square.get_char(1);
    let file: char = if 'a' <= letter && letter <= 'h' {
        ((letter as u8) - 32) as char
    } else {
        letter
    };
    if !('A' <= file && file <= 'H') || !('1' <= rank && rank <= '8') {
        return None;
    }
    let file_idx: u8 = file as u8 - 'A' as u8;
    let rank_idx: u8 = rank as u8 - '1' as u8;
    Some(rank_idx * 8 + file_idx)
}

} // verus!
