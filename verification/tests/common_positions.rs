use chess::bitboard::BitBoard;
use chess::helper::initialize_board;
use chess::piece::{CastlingRights, Color, Piece};
use chess::position::{get_piece_at, Pieces, Position, Sides};

fn empty_position() -> Position {
    Position {
        bb_sides: [BitBoard(0), BitBoard(0)],
        bb_pieces: [[BitBoard(0); 6]; 2],
        castling_rights: CastlingRights::new(),
        en_passant: None,
    }
}

fn put(position: &mut Position, side: usize, kind: usize, square: u8) {
    position.bb_pieces[side][kind].0 |= 1u64 << square;
    position.bb_sides[side].0 |= 1u64 << square;
}

#[test]
fn starting_masks_are_the_standard_layout() {
    let position = initialize_board();
    assert_eq!(position.bb_pieces[Sides::WHITE][Pieces::PAWN], BitBoard(0x0000_0000_0000_FF00));
    assert_eq!(position.bb_pieces[Sides::WHITE][Pieces::KNIGHT], BitBoard(0x42));
    assert_eq!(position.bb_pieces[Sides::WHITE][Pieces::BISHOP], BitBoard(0x24));
    assert_eq!(position.bb_pieces[Sides::WHITE][Pieces::ROOK], BitBoard(0x81));
    assert_eq!(position.bb_pieces[Sides::WHITE][Pieces::QUEEN], BitBoard(0x08));
    assert_eq!(position.bb_pieces[Sides::WHITE][Pieces::KING], BitBoard(0x10));
    assert_eq!(position.bb_pieces[Sides::BLACK][Pieces::PAWN], BitBoard(0x00FF_0000_0000_0000));
    assert_eq!(position.bb_pieces[Sides::BLACK][Pieces::KNIGHT], BitBoard(0x4200_0000_0000_0000));
    assert_eq!(position.bb_pieces[Sides::BLACK][Pieces::BISHOP], BitBoard(0x2400_0000_0000_0000));
    assert_eq!(position.bb_pieces[Sides::BLACK][Pieces::ROOK], BitBoard(0x8100_0000_0000_0000));
    assert_eq!(position.bb_pieces[Sides::BLACK][Pieces::QUEEN], BitBoard(0x0800_0000_0000_0000));
    assert_eq!(position.bb_pieces[Sides::BLACK][Pieces::KING], BitBoard(0x1000_0000_0000_0000));
    assert_eq!(position.bb_sides[Sides::WHITE], BitBoard(0x0000_0000_0000_FFFF));
    assert_eq!(position.bb_sides[Sides::BLACK], BitBoard(0xFFFF_0000_0000_0000));
    assert_eq!(position.castling_rights, CastlingRights::new());
    assert_eq!(position.en_passant, None);
}

#[test]
fn starting_masks_are_disjoint_and_sides_are_their_union() {
    let position = initialize_board();
    for side in 0..2 {
        let mut union = 0u64;
        for kind in 0..6 {
            assert_eq!(union & position.bb_pieces[side][kind].0, 0);
            union |= position.bb_pieces[side][kind].0;
        }
        assert_eq!(union, position.bb_sides[side].0);
    }
    assert_eq!(position.bb_sides[0].0 & position.bb_sides[1].0, 0);
}

#[test]
fn fresh_castling_rights_have_every_flag_cleared() {
    let rights = CastlingRights::new();
    assert!(!rights.white_king_moved);
    assert!(!rights.white_kingside_rook_moved);
    assert!(!rights.white_queenside_rook_moved);
    assert!(!rights.black_king_moved);
    assert!(!rights.black_kingside_rook_moved);
    assert!(!rights.black_queenside_rook_moved);
}

#[test]
fn piece_reports_its_colour() {
    assert_eq!(Piece::Pawn(Color::White).color(), Color::White);
    assert_eq!(Piece::Rook(Color::Black).color(), Color::Black);
    assert_eq!(Piece::Knight(Color::White).color(), Color::White);
    assert_eq!(Piece::Bishop(Color::Black).color(), Color::Black);
    assert_eq!(Piece::Queen(Color::White).color(), Color::White);
    assert_eq!(Piece::King(Color::Black).color(), Color::Black);
}

#[test]
fn get_piece_at_reads_the_starting_position() {
    let position = initialize_board();
    assert_eq!(get_piece_at(&position, 0), Some(Piece::Rook(Color::White)));
    assert_eq!(get_piece_at(&position, 1), Some(Piece::Knight(Color::White)));
    assert_eq!(get_piece_at(&position, 2), Some(Piece::Bishop(Color::White)));
    assert_eq!(get_piece_at(&position, 3), Some(Piece::Queen(Color::White)));
    assert_eq!(get_piece_at(&position, 4), Some(Piece::King(Color::White)));
    assert_eq!(get_piece_at(&position, 12), Some(Piece::Pawn(Color::White)));
    assert_eq!(get_piece_at(&position, 20), None);
    assert_eq!(get_piece_at(&position, 35), None);
    assert_eq!(get_piece_at(&position, 52), Some(Piece::Pawn(Color::Black)));
    assert_eq!(get_piece_at(&position, 59), Some(Piece::Queen(Color::Black)));
    assert_eq!(get_piece_at(&position, 60), Some(Piece::King(Color::Black)));
    assert_eq!(get_piece_at(&position, 63), Some(Piece::Rook(Color::Black)));
}

#[test]
fn get_piece_at_searches_white_before_black() {
    let mut position = empty_position();
    put(&mut position, Sides::BLACK, Pieces::QUEEN, 30);
    put(&mut position, Sides::WHITE, Pieces::KING, 30);
    assert_eq!(get_piece_at(&position, 30), Some(Piece::King(Color::White)));
    let mut other = empty_position();
    put(&mut other, Sides::WHITE, Pieces::ROOK, 9);
    put(&mut other, Sides::WHITE, Pieces::KNIGHT, 9);
    assert_eq!(get_piece_at(&other, 9), Some(Piece::Knight(Color::White)));
}

#[test]
fn get_piece_at_ignores_the_side_masks() {
    let mut position = empty_position();
    position.bb_sides[Sides::WHITE].0 = 1u64 << 17;
    assert_eq!(get_piece_at(&position, 17), None);
}
