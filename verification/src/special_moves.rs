//! Promotion and castling.

use vstd::prelude::*;
use crate::bitboard::{lemma_mask_free_pair, lemma_mask_free_triple};
use crate::moves::{Move, piece_indexes, plain_move};
use crate::piece::{Color, Piece};
use crate::position::{Board, Position};

verus! {

/// Whether `piece` is a pawn and `to` lies on the rank where it promotes:
/// the eighth rank for White, the first for Black.
pub open spec fn reaches_last_rank(to: int, piece: Piece) -> bool {
    match piece {
        Piece::Pawn(Color::White) => to >= 56,
        Piece::Pawn(Color::Black) => to < 8,
        _ => false,
    }
}

/// The pieces a pawn of `color` may turn into, in the order they are offered.
pub open spec fn promotion_choices(color: Color) -> Seq<Piece> {
    seq![Piece::Queen(color), Piece::Rook(color), Piece::Bishop(color), Piece::Knight(color)]
}

/// What a piece may be promoted to: the four choices for a pawn, nothing
/// for any other piece.
pub open spec fn promotions_of(piece: Piece) -> Seq<Piece> {
    match piece {
        Piece::Pawn(color) => promotion_choices(color),
        _ => Seq::empty(),
    }
}

/// The castling move of `piece` from `from` to `to`, offered when `allowed`.
pub open spec fn castle_if(allowed: bool, from: int, to: int, piece: Piece) -> Seq<Move> {
    if allowed {
        seq![plain_move(from, to, piece)]
    } else {
        Seq::empty()
    }
}

/// The castling moves open to a king of `piece`'s colour on `from`.
///
/// A king on its home square may castle to a side if neither it nor that
/// side's rook has moved and every square between the two is empty: the
/// kingside move first, the queenside move second. Whether the squares the
/// king crosses are attacked is not looked at.
pub open spec fn castling(board: Board, piece: Piece, from: int) -> Seq<Move> {
    let rights = board.castling_rights;
    match piece.owner() {
        Color::White => if from == 4 {
            castle_if(
                !rights.white_king_moved && !rights.white_kingside_rook_moved && board.vacant(5)
                    && board.vacant(6),
                from,
                6,
                piece,
            ) + castle_if(
                !rights.white_king_moved && !rights.white_queenside_rook_moved && board.vacant(1)
                    && board.vacant(2) && board.vacant(3),
                from,
                2,
                piece,
            )
        } else {
            Seq::empty()
        },
        Color::Black => if from == 60 {
            castle_if(
                !rights.black_king_moved && !rights.black_kingside_rook_moved && board.vacant(61)
                    && board.vacant(62),
                from,
                62,
                piece,
            ) + castle_if(
                !rights.black_king_moved && !rights.black_queenside_rook_moved && board.vacant(57)
                    && board.vacant(58) && board.vacant(59),
                from,
                58,
                piece,
            )
        } else {
            Seq::empty()
        },
    }
}

/// Tells whether a pawn that lands on `to` has reached its last rank.
/// Always false for a piece that is no pawn.
pub fn is_pawn_promotion(to: u8, piece: Piece) -> (promotes: bool)
    ensures
        promotes == reaches_last_rank(to as int, piece),
{
    match piece {
        Piece::Pawn(Color::White) => to >= 56,
        Piece::Pawn(Color::Black) => to < 8,
        _ => false,
    }
}

/// Returns the pieces a pawn may be promoted to: queen, rook, bishop and
/// knight of the pawn's colour, in that order. Empty for any other piece.
pub fn valid_pawn_promotions(piece: Piece) -> (choices: Vec<Piece>)
    ensures
        choices@ == promotions_of(piece),
{
    match piece {
        Piece::Pawn(Color::White) => {
            let choices = vec![
                Piece::Queen(Color::White),
                Piece::Rook(Color::White),
                Piece::Bishop(Color::White),
                Piece::Knight(Color::White),
            ];
            assert(choices@ =~= promotions_of(piece));
            choices
        },
        Piece::Pawn(Color::Black) => {
            let choices = vec![
                Piece::Queen(Color::Black),
                Piece::Rook(Color::Black),
                Piece::Bishop(Color::Black),
                Piece::Knight(Color::Black),
            ];
            assert(choices@ =~= promotions_of(piece));
            choices
        },
        _ => {
            let choices = vec![];
            assert(choices@ =~= promotions_of(piece));
            choices
        },
    }
}

/// Returns the castling moves open to the king `piece` on `from`: the
/// kingside move, then the queenside move, each only if the king stands on
/// its home square, neither it nor the rook of that side has moved, and the
/// squares between them are empty.
pub fn castling_moves(from: u8, piece: Piece, position: &Position) -> (moves: Vec<Move>)
    ensures
        moves@ == castling(position@, piece, from as int),
{
    let mut moves: Vec<Move> = Vec::new();
    let cr = &position.castling_rights;
    let (own_index, enemy_index) = piece_indexes(piece);
    let own: u64 = position.bb_sides[own_index].0;
    let enemy: u64 = position.bb_sides[enemy_index].0;
    let empty: u64 = !(own | enemy);
    match piece.color() {
        Color::White => {
            if from == 4 {
                proof {
                    lemma_mask_free_pair(own, enemy, 5, 6);
                    lemma_mask_free_triple(own, enemy, 1, 2, 3);
                }
                // kingside
                if !cr.white_king_moved && !cr.white_kingside_rook_moved {
                    let between: u64 = 1u64 << 5 | 1u64 << 6;
                    if (empty & between) == between {
                        moves.push(Move { from, to: 6, piece, promoted_from_pawn: false });
                    }
                }
                // queenside
                if !cr.white_king_moved && !cr.white_queenside_rook_moved {
                    let between: u64 = 1u64 << 1 | 1u64 << 2 | 1u64 << 3;
                    if (empty & between) == between {
                        moves.push(Move { from, to: 2, piece, promoted_from_pawn: false });
                    }
                }
            }
        },
        Color::Black => {
            if from == 60 {
                proof {
                    lemma_mask_free_pair(own, enemy, 61, 62);
                    lemma_mask_free_triple(own, enemy, 57, 58, 59);
                }
                // kingside
                if !cr.black_king_moved && !cr.black_kingside_rook_moved {
                    let between: u64 = 1u64 << 61 | 1u64 << 62;
                    if (empty & between) == between {
                        moves.push(Move { from, to: 62, piece, promoted_from_pawn: false });
                    }
                }
                // queenside
                if !cr.black_king_moved && !cr.black_queenside_rook_moved {
                    let between: u64 = 1u64 << 57 | 1u64 << 58 | 1u64 << 59;
                    if (empty & between) == between {
                        moves.push(Move { from, to: 58, piece, promoted_from_pawn: false });
                    }
                }
            }
        },
    }
    assert(moves@ =~= castling(position@, piece, from as int));
    moves
}

} // verus!
