use chess::bitboard::BitBoard;
use chess::helper::initialize_board;
use chess::make_move::{
    apply_move_unchecked, is_checked, is_checkmated, is_stalemated, legal_moves,
};
use chess::moves::{valid_moves, Move};
use chess::piece::{CastlingRights, Color, Piece};
use chess::position::{get_piece_at, Pieces, Position, Sides};

fn clear() -> Position {
    let mut rights = CastlingRights::new();
    rights.white_king_moved = true;
    rights.black_king_moved = true;
    Position {
        bb_sides: [BitBoard(0), BitBoard(0)],
        bb_pieces: [[BitBoard(0); 6]; 2],
        castling_rights: rights,
        en_passant: None,
    }
}

fn stand(position: &mut Position, side: usize, kind: usize, square: u8) {
    position.bb_pieces[side][kind].0 |= 1u64 << square;
    position.bb_sides[side].0 |= 1u64 << square;
}

fn go(from: u8, to: u8, piece: Piece) -> Move {
    Move { from, to, piece, promoted_from_pawn: false }
}

fn ends(moves: &Vec<Move>) -> Vec<(u8, u8)> {
    moves.iter().map(|m| (m.from, m.to)).collect()
}

#[test]
fn nobody_is_in_check_at_the_start() {
    let position = initialize_board();
    assert!(!is_checked(Color::White, &position));
    assert!(!is_checked(Color::Black, &position));
    assert!(!is_checkmated(Color::White, &position));
    assert!(!is_stalemated(Color::White, &position));
    assert!(!is_checkmated(Color::Black, &position));
    assert!(!is_stalemated(Color::Black, &position));
}

#[test]
fn a_side_without_a_king_is_never_in_check() {
    let mut position = clear();
    stand(&mut position, Sides::BLACK, Pieces::QUEEN, 27);
    stand(&mut position, Sides::WHITE, Pieces::PAWN, 28);
    assert!(!is_checked(Color::White, &position));
    assert!(!is_checked(Color::Black, &position));
}

#[test]
fn rook_gives_check_along_an_open_file() {
    let mut position = clear();
    stand(&mut position, Sides::WHITE, Pieces::KING, 4);
    stand(&mut position, Sides::BLACK, Pieces::ROOK, 60);
    assert!(is_checked(Color::White, &position));
    stand(&mut position, Sides::WHITE, Pieces::BISHOP, 28);
    assert!(!is_checked(Color::White, &position));
}

#[test]
fn pawn_gives_check_diagonally_only() {
    let mut position = clear();
    stand(&mut position, Sides::WHITE, Pieces::KING, 28);
    stand(&mut position, Sides::BLACK, Pieces::PAWN, 36);
    assert!(!is_checked(Color::White, &position));
    stand(&mut position, Sides::BLACK, Pieces::PAWN, 37);
    assert!(is_checked(Color::White, &position));
    let mut other = clear();
    stand(&mut other, Sides::BLACK, Pieces::KING, 36);
    stand(&mut other, Sides::WHITE, Pieces::PAWN, 27);
    assert!(is_checked(Color::Black, &other));
    let mut behind = clear();
    stand(&mut behind, Sides::BLACK, Pieces::KING, 18);
    stand(&mut behind, Sides::WHITE, Pieces::PAWN, 27);
    assert!(!is_checked(Color::Black, &behind));
}

#[test]
fn knight_bishop_queen_and_king_give_check() {
    let mut knight = clear();
    stand(&mut knight, Sides::WHITE, Pieces::KING, 4);
    stand(&mut knight, Sides::BLACK, Pieces::KNIGHT, 21);
    assert!(is_checked(Color::White, &knight));
    let mut bishop = clear();
    stand(&mut bishop, Sides::WHITE, Pieces::KING, 0);
    stand(&mut bishop, Sides::BLACK, Pieces::BISHOP, 63);
    assert!(is_checked(Color::White, &bishop));
    let mut queen = clear();
    stand(&mut queen, Sides::BLACK, Pieces::KING, 63);
    stand(&mut queen, Sides::WHITE, Pieces::QUEEN, 7);
    assert!(is_checked(Color::Black, &queen));
    let mut king = clear();
    stand(&mut king, Sides::BLACK, Pieces::KING, 36);
    stand(&mut king, Sides::WHITE, Pieces::KING, 28);
    assert!(is_checked(Color::Black, &king));
    assert!(is_checked(Color::White, &king));
}

#[test]
fn twenty_legal_moves_at_the_start_in_generation_order() {
    let position = initialize_board();
    let white = legal_moves(Color::White, &position);
    assert_eq!(
        ends(&white),
        vec![
            (8, 16), (8, 24), (9, 17), (9, 25), (10, 18), (10, 26), (11, 19), (11, 27),
            (12, 20), (12, 28), (13, 21), (13, 29), (14, 22), (14, 30), (15, 23), (15, 31),
            (1, 18), (1, 16), (6, 23), (6, 21),
        ]
    );
    let black = legal_moves(Color::Black, &position);
    assert_eq!(
        ends(&black),
        vec![
            (48, 40), (48, 32), (49, 41), (49, 33), (50, 42), (50, 34), (51, 43), (51, 35),
            (52, 44), (52, 36), (53, 45), (53, 37), (54, 46), (54, 38), (55, 47), (55, 39),
            (57, 40), (57, 42), (62, 45), (62, 47),
        ]
    );
}

#[test]
fn legal_moves_leave_the_position_unchanged() {
    let position = initialize_board();
    let copy = position;
    let _ = legal_moves(Color::White, &position);
    assert_eq!(position, copy);
}

#[test]
fn a_pinned_rook_may_only_move_along_the_pin() {
    let mut position = clear();
    stand(&mut position, Sides::WHITE, Pieces::KING, 4);
    stand(&mut position, Sides::WHITE, Pieces::ROOK, 12);
    stand(&mut position, Sides::BLACK, Pieces::ROOK, 60);
    stand(&mut position, Sides::BLACK, Pieces::KING, 63);
    let moves = legal_moves(Color::White, &position);
    assert_eq!(
        ends(&moves),
        vec![
            (12, 20), (12, 28), (12, 36), (12, 44), (12, 52), (12, 60),
            (4, 5), (4, 3), (4, 11), (4, 13),
        ]
    );
}

#[test]
fn a_checked_side_must_answer_the_check() {
    let mut position = clear();
    stand(&mut position, Sides::WHITE, Pieces::KING, 4);
    stand(&mut position, Sides::WHITE, Pieces::BISHOP, 19);
    stand(&mut position, Sides::BLACK, Pieces::ROOK, 60);
    stand(&mut position, Sides::BLACK, Pieces::KING, 63);
    assert!(is_checked(Color::White, &position));
    let moves = legal_moves(Color::White, &position);
    assert_eq!(ends(&moves), vec![(19, 28), (19, 12), (4, 5), (4, 3), (4, 11), (4, 13)]);
    assert!(!is_checkmated(Color::White, &position));
}

#[test]
fn every_legal_move_is_a_valid_move_of_an_own_piece() {
    let mut position = clear();
    stand(&mut position, Sides::WHITE, Pieces::KING, 4);
    stand(&mut position, Sides::WHITE, Pieces::ROOK, 12);
    stand(&mut position, Sides::WHITE, Pieces::PAWN, 9);
    stand(&mut position, Sides::WHITE, Pieces::KNIGHT, 18);
    stand(&mut position, Sides::BLACK, Pieces::ROOK, 60);
    stand(&mut position, Sides::BLACK, Pieces::BISHOP, 40);
    stand(&mut position, Sides::BLACK, Pieces::KING, 63);
    for color in [Color::White, Color::Black] {
        let legal = legal_moves(color, &position);
        assert!(!legal.is_empty());
        let mut pseudo = 0;
        for square in 0..64u8 {
            if let Some(piece) = get_piece_at(&position, square) {
                if piece.color() == color {
                    pseudo += valid_moves(square, piece, &position).len();
                }
            }
        }
        assert!(legal.len() <= pseudo);
        for m in &legal {
            let piece = get_piece_at(&position, m.from).unwrap();
            assert_eq!(piece.color(), color);
            assert!(valid_moves(m.from, piece, &position).contains(m));
            let mut after = position;
            apply_move_unchecked(*m, &mut after);
            assert!(!is_checked(color, &after));
        }
    }
}

#[test]
fn no_legal_moves_and_check_is_checkmate() {
    let mut position = clear();
    stand(&mut position, Sides::BLACK, Pieces::KING, 63);
    stand(&mut position, Sides::WHITE, Pieces::QUEEN, 54);
    stand(&mut position, Sides::WHITE, Pieces::KING, 45);
    assert!(is_checked(Color::Black, &position));
    assert!(legal_moves(Color::Black, &position).is_empty());
    assert!(is_checkmated(Color::Black, &position));
    assert!(!is_stalemated(Color::Black, &position));
    assert!(!is_checkmated(Color::White, &position));
}

#[test]
fn no_legal_moves_without_check_is_stalemate() {
    let mut position = clear();
    stand(&mut position, Sides::BLACK, Pieces::KING, 63);
    stand(&mut position, Sides::WHITE, Pieces::QUEEN, 46);
    stand(&mut position, Sides::WHITE, Pieces::KING, 53);
    assert!(!is_checked(Color::Black, &position));
    assert!(legal_moves(Color::Black, &position).is_empty());
    assert!(is_stalemated(Color::Black, &position));
    assert!(!is_checkmated(Color::Black, &position));
    assert!(!is_stalemated(Color::White, &position));
}

#[test]
fn check_with_an_escape_is_neither() {
    let mut position = clear();
    stand(&mut position, Sides::BLACK, Pieces::KING, 63);
    stand(&mut position, Sides::WHITE, Pieces::QUEEN, 54);
    stand(&mut position, Sides::WHITE, Pieces::KING, 0);
    assert!(is_checked(Color::Black, &position));
    assert_eq!(legal_moves(Color::Black, &position), vec![go(63, 54, Piece::King(Color::Black))]);
    assert!(!is_checkmated(Color::Black, &position));
    assert!(!is_stalemated(Color::Black, &position));
}

#[test]
fn castling_into_an_attacked_square_is_filtered_out() {
    let mut position = clear();
    position.castling_rights = CastlingRights::new();
    stand(&mut position, Sides::WHITE, Pieces::KING, 4);
    stand(&mut position, Sides::WHITE, Pieces::ROOK, 7);
    stand(&mut position, Sides::WHITE, Pieces::KNIGHT, 1);
    stand(&mut position, Sides::BLACK, Pieces::ROOK, 62);
    stand(&mut position, Sides::BLACK, Pieces::KING, 56);
    let king = Piece::King(Color::White);
    assert!(valid_moves(4, king, &position).contains(&go(4, 6, king)));
    assert!(!legal_moves(Color::White, &position).contains(&go(4, 6, king)));
    let mut through = position;
    through.bb_pieces[Sides::BLACK][Pieces::ROOK] = BitBoard(1u64 << 61);
    through.bb_sides[Sides::BLACK] = BitBoard((1u64 << 61) | (1u64 << 56));
    assert!(legal_moves(Color::White, &through).contains(&go(4, 6, king)));
}
