use chess::bitboard::BitBoard;
use chess::helper::initialize_board;
use chess::make_move::{apply_move_unchecked, update_castling_rights};
use chess::moves::{valid_king_moves, valid_pawn_moves, Move};
use chess::piece::{CastlingRights, Color, Piece};
use chess::position::{get_piece_at, Pieces, Position, Sides};

fn blank() -> Position {
    Position {
        bb_sides: [BitBoard(0), BitBoard(0)],
        bb_pieces: [[BitBoard(0); 6]; 2],
        castling_rights: CastlingRights::new(),
        en_passant: None,
    }
}

fn add(position: &mut Position, side: usize, kind: usize, square: u8) {
    position.bb_pieces[side][kind].0 |= 1u64 << square;
    position.bb_sides[side].0 |= 1u64 << square;
}

fn bit(mask: BitBoard, square: u8) -> bool {
    mask.0 & (1u64 << square) != 0
}

fn step(from: u8, to: u8, piece: Piece) -> Move {
    Move { from, to, piece, promoted_from_pawn: false }
}

fn assert_sound(position: &Position) {
    for side in 0..2 {
        let mut union = 0u64;
        for kind in 0..6 {
            assert_eq!(union & position.bb_pieces[side][kind].0, 0);
            union |= position.bb_pieces[side][kind].0;
        }
        assert_eq!(union, position.bb_sides[side].0);
    }
    assert_eq!(position.bb_sides[0].0 & position.bb_sides[1].0, 0);
}

#[test]
fn double_push_moves_the_pawn_and_sets_the_target() {
    let mut position = initialize_board();
    apply_move_unchecked(step(12, 28, Piece::Pawn(Color::White)), &mut position);
    assert!(!bit(position.bb_pieces[Sides::WHITE][Pieces::PAWN], 12));
    assert!(bit(position.bb_pieces[Sides::WHITE][Pieces::PAWN], 28));
    assert!(!bit(position.bb_sides[Sides::WHITE], 12));
    assert!(bit(position.bb_sides[Sides::WHITE], 28));
    assert_eq!(position.en_passant, Some(20));
    assert_eq!(position.bb_pieces[Sides::WHITE][Pieces::PAWN], BitBoard(0x1000_EF00));
    assert_eq!(position.bb_sides[Sides::WHITE], BitBoard(0x1000_EFFF));
    assert_eq!(position.bb_sides[Sides::BLACK], BitBoard(0xFFFF_0000_0000_0000));
    assert_sound(&position);
}

#[test]
fn black_double_push_sets_the_target_on_the_sixth_rank() {
    let mut position = initialize_board();
    apply_move_unchecked(step(51, 35, Piece::Pawn(Color::Black)), &mut position);
    assert_eq!(position.en_passant, Some(43));
    assert!(bit(position.bb_pieces[Sides::BLACK][Pieces::PAWN], 35));
    assert!(!bit(position.bb_pieces[Sides::BLACK][Pieces::PAWN], 51));
}

#[test]
fn single_push_leaves_no_target() {
    let mut position = initialize_board();
    position.en_passant = Some(43);
    apply_move_unchecked(step(12, 20, Piece::Pawn(Color::White)), &mut position);
    assert_eq!(position.en_passant, None);
}

#[test]
fn any_other_move_clears_the_target() {
    let mut position = initialize_board();
    apply_move_unchecked(step(12, 28, Piece::Pawn(Color::White)), &mut position);
    assert_eq!(position.en_passant, Some(20));
    apply_move_unchecked(step(57, 42, Piece::Knight(Color::Black)), &mut position);
    assert_eq!(position.en_passant, None);
    assert!(bit(position.bb_pieces[Sides::BLACK][Pieces::KNIGHT], 42));
    assert!(!bit(position.bb_pieces[Sides::BLACK][Pieces::KNIGHT], 57));
    assert_sound(&position);
}

#[test]
fn en_passant_capture_removes_the_pawn_behind_the_target() {
    let mut position = blank();
    add(&mut position, Sides::WHITE, Pieces::KING, 4);
    add(&mut position, Sides::BLACK, Pieces::KING, 60);
    add(&mut position, Sides::WHITE, Pieces::PAWN, 11);
    add(&mut position, Sides::BLACK, Pieces::PAWN, 28);
    apply_move_unchecked(step(11, 27, Piece::Pawn(Color::White)), &mut position);
    assert_eq!(position.en_passant, Some(19));
    let black = Piece::Pawn(Color::Black);
    let capture = step(28, 19, black);
    assert!(valid_pawn_moves(28, black, &position).contains(&capture));
    apply_move_unchecked(capture, &mut position);
    assert!(!bit(position.bb_pieces[Sides::WHITE][Pieces::PAWN], 27));
    assert!(!bit(position.bb_sides[Sides::WHITE], 27));
    assert_eq!(position.bb_pieces[Sides::WHITE][Pieces::PAWN], BitBoard(0));
    assert!(bit(position.bb_pieces[Sides::BLACK][Pieces::PAWN], 19));
    assert!(bit(position.bb_sides[Sides::BLACK], 19));
    assert!(!bit(position.bb_pieces[Sides::BLACK][Pieces::PAWN], 28));
    assert_eq!(get_piece_at(&position, 27), None);
    assert_eq!(get_piece_at(&position, 19), Some(black));
    assert_eq!(position.en_passant, None);
    assert_sound(&position);
}

#[test]
fn white_en_passant_capture_removes_the_pawn_below_the_target() {
    let mut position = blank();
    add(&mut position, Sides::WHITE, Pieces::PAWN, 36);
    add(&mut position, Sides::BLACK, Pieces::PAWN, 53);
    apply_move_unchecked(step(53, 37, Piece::Pawn(Color::Black)), &mut position);
    assert_eq!(position.en_passant, Some(45));
    let white = Piece::Pawn(Color::White);
    assert_eq!(valid_pawn_moves(36, white, &position), vec![step(36, 44, white), step(36, 45, white)]);
    apply_move_unchecked(step(36, 45, white), &mut position);
    assert_eq!(position.bb_pieces[Sides::BLACK][Pieces::PAWN], BitBoard(0));
    assert_eq!(position.bb_sides[Sides::BLACK], BitBoard(0));
    assert_eq!(position.bb_pieces[Sides::WHITE][Pieces::PAWN], BitBoard(1u64 << 45));
    assert_sound(&position);
}

#[test]
fn a_piece_that_is_no_pawn_takes_nothing_en_passant() {
    let mut position = blank();
    add(&mut position, Sides::WHITE, Pieces::PAWN, 27);
    add(&mut position, Sides::BLACK, Pieces::KNIGHT, 34);
    position.en_passant = Some(19);
    apply_move_unchecked(step(34, 19, Piece::Knight(Color::Black)), &mut position);
    assert!(bit(position.bb_pieces[Sides::WHITE][Pieces::PAWN], 27));
    assert!(bit(position.bb_pieces[Sides::BLACK][Pieces::KNIGHT], 19));
    assert_eq!(position.en_passant, None);
}

#[test]
fn a_target_with_no_rank_behind_it_costs_no_pawn() {
    let mut position = blank();
    add(&mut position, Sides::WHITE, Pieces::PAWN, 10);
    add(&mut position, Sides::BLACK, Pieces::PAWN, 59);
    position.en_passant = Some(3);
    apply_move_unchecked(step(10, 3, Piece::Pawn(Color::White)), &mut position);
    assert_eq!(position.bb_pieces[Sides::WHITE][Pieces::PAWN], BitBoard(1u64 << 3));
    assert_eq!(position.bb_pieces[Sides::BLACK][Pieces::PAWN], BitBoard(1u64 << 59));
    assert_eq!(position.en_passant, None);
}

#[test]
fn kingside_castle_moves_king_and_rook() {
    let mut position = blank();
    add(&mut position, Sides::WHITE, Pieces::KING, 4);
    add(&mut position, Sides::WHITE, Pieces::ROOK, 7);
    add(&mut position, Sides::WHITE, Pieces::ROOK, 0);
    let king = Piece::King(Color::White);
    let castle = step(4, 6, king);
    assert!(valid_king_moves(4, king, &position).contains(&castle));
    apply_move_unchecked(castle, &mut position);
    assert_eq!(position.bb_pieces[Sides::WHITE][Pieces::KING], BitBoard(1u64 << 6));
    assert!(bit(position.bb_pieces[Sides::WHITE][Pieces::ROOK], 5));
    assert!(!bit(position.bb_pieces[Sides::WHITE][Pieces::ROOK], 7));
    assert_eq!(position.bb_pieces[Sides::WHITE][Pieces::ROOK], BitBoard(0x21));
    assert_eq!(position.bb_sides[Sides::WHITE], BitBoard(0x61));
    assert_eq!(position.castling_rights, CastlingRights::new());
    assert_sound(&position);
}

#[test]
fn queenside_castle_moves_king_and_rook() {
    let mut position = blank();
    add(&mut position, Sides::WHITE, Pieces::KING, 4);
    add(&mut position, Sides::WHITE, Pieces::ROOK, 7);
    add(&mut position, Sides::WHITE, Pieces::ROOK, 0);
    apply_move_unchecked(step(4, 2, Piece::King(Color::White)), &mut position);
    assert_eq!(position.bb_pieces[Sides::WHITE][Pieces::KING], BitBoard(1u64 << 2));
    assert_eq!(position.bb_pieces[Sides::WHITE][Pieces::ROOK], BitBoard(0x88));
    assert_eq!(position.bb_sides[Sides::WHITE], BitBoard(0x8C));
    assert_sound(&position);
}

#[test]
fn black_castles_move_king_and_rook() {
    let king = Piece::King(Color::Black);
    let mut kingside = blank();
    add(&mut kingside, Sides::BLACK, Pieces::KING, 60);
    add(&mut kingside, Sides::BLACK, Pieces::ROOK, 56);
    add(&mut kingside, Sides::BLACK, Pieces::ROOK, 63);
    let mut queenside = kingside;
    apply_move_unchecked(step(60, 62, king), &mut kingside);
    assert_eq!(kingside.bb_pieces[Sides::BLACK][Pieces::KING], BitBoard(1u64 << 62));
    assert_eq!(kingside.bb_pieces[Sides::BLACK][Pieces::ROOK], BitBoard((1u64 << 56) | (1u64 << 61)));
    assert_sound(&kingside);
    apply_move_unchecked(step(60, 58, king), &mut queenside);
    assert_eq!(queenside.bb_pieces[Sides::BLACK][Pieces::KING], BitBoard(1u64 << 58));
    assert_eq!(queenside.bb_pieces[Sides::BLACK][Pieces::ROOK], BitBoard((1u64 << 59) | (1u64 << 63)));
    assert_sound(&queenside);
}

#[test]
fn a_plain_king_step_leaves_the_rooks_alone() {
    let mut position = blank();
    add(&mut position, Sides::WHITE, Pieces::KING, 4);
    add(&mut position, Sides::WHITE, Pieces::ROOK, 7);
    add(&mut position, Sides::WHITE, Pieces::ROOK, 0);
    apply_move_unchecked(step(4, 5, Piece::King(Color::White)), &mut position);
    assert_eq!(position.bb_pieces[Sides::WHITE][Pieces::ROOK], BitBoard(0x81));
    assert_eq!(position.bb_pieces[Sides::WHITE][Pieces::KING], BitBoard(1u64 << 5));
    let mut far = blank();
    add(&mut far, Sides::WHITE, Pieces::KING, 12);
    add(&mut far, Sides::WHITE, Pieces::ROOK, 7);
    apply_move_unchecked(step(12, 14, Piece::King(Color::White)), &mut far);
    assert_eq!(far.bb_pieces[Sides::WHITE][Pieces::ROOK], BitBoard(0x80));
    assert_eq!(far.bb_pieces[Sides::WHITE][Pieces::KING], BitBoard(1u64 << 14));
}

#[test]
fn capture_clears_the_enemy_piece_and_side() {
    let mut position = blank();
    add(&mut position, Sides::WHITE, Pieces::ROOK, 0);
    add(&mut position, Sides::BLACK, Pieces::QUEEN, 56);
    add(&mut position, Sides::BLACK, Pieces::KING, 60);
    apply_move_unchecked(step(0, 56, Piece::Rook(Color::White)), &mut position);
    assert_eq!(position.bb_pieces[Sides::BLACK][Pieces::QUEEN], BitBoard(0));
    assert_eq!(position.bb_sides[Sides::BLACK], BitBoard(1u64 << 60));
    assert_eq!(position.bb_pieces[Sides::WHITE][Pieces::ROOK], BitBoard(1u64 << 56));
    assert_eq!(position.bb_sides[Sides::WHITE], BitBoard(1u64 << 56));
    assert_eq!(get_piece_at(&position, 56), Some(Piece::Rook(Color::White)));
    assert_sound(&position);
}

#[test]
fn promotion_replaces_the_pawn_by_the_chosen_piece() {
    let mut position = blank();
    add(&mut position, Sides::WHITE, Pieces::PAWN, 52);
    add(&mut position, Sides::BLACK, Pieces::KNIGHT, 61);
    let m = Move { from: 52, to: 61, piece: Piece::Queen(Color::White), promoted_from_pawn: true };
    apply_move_unchecked(m, &mut position);
    assert_eq!(position.bb_pieces[Sides::WHITE][Pieces::PAWN], BitBoard(0));
    assert_eq!(position.bb_pieces[Sides::WHITE][Pieces::QUEEN], BitBoard(1u64 << 61));
    assert_eq!(position.bb_sides[Sides::WHITE], BitBoard(1u64 << 61));
    assert_eq!(position.bb_pieces[Sides::BLACK][Pieces::KNIGHT], BitBoard(0));
    assert_eq!(position.bb_sides[Sides::BLACK], BitBoard(0));
    assert_sound(&position);
}

#[test]
fn each_promotion_choice_lands_in_its_own_mask() {
    let choices = [
        (Piece::Queen(Color::Black), Pieces::QUEEN),
        (Piece::Rook(Color::Black), Pieces::ROOK),
        (Piece::Bishop(Color::Black), Pieces::BISHOP),
        (Piece::Knight(Color::Black), Pieces::KNIGHT),
    ];
    for (piece, kind) in choices {
        let mut position = blank();
        add(&mut position, Sides::BLACK, Pieces::PAWN, 9);
        let m = Move { from: 9, to: 1, piece, promoted_from_pawn: true };
        apply_move_unchecked(m, &mut position);
        assert_eq!(position.bb_pieces[Sides::BLACK][Pieces::PAWN], BitBoard(0));
        assert_eq!(position.bb_pieces[Sides::BLACK][kind], BitBoard(2));
        assert_eq!(position.bb_sides[Sides::BLACK], BitBoard(2));
        assert_eq!(position.en_passant, None);
    }
}

#[test]
fn commit_changes_bits_only_on_the_squares_of_the_move() {
    let before = initialize_board();
    let mut after = before;
    apply_move_unchecked(step(6, 21, Piece::Knight(Color::White)), &mut after);
    let involved = (1u64 << 6) | (1u64 << 21);
    for side in 0..2 {
        assert_eq!((before.bb_sides[side].0 ^ after.bb_sides[side].0) & !involved, 0);
        for kind in 0..6 {
            let changed = before.bb_pieces[side][kind].0 ^ after.bb_pieces[side][kind].0;
            assert_eq!(changed & !involved, 0);
            if side == Sides::WHITE && kind == Pieces::KNIGHT {
                assert_eq!(changed, involved);
            } else {
                assert_eq!(changed, 0);
            }
        }
    }
    assert_eq!(after.castling_rights, before.castling_rights);
}

#[test]
fn castling_changes_bits_only_on_four_squares() {
    let mut before = initialize_board();
    before.bb_pieces[Sides::WHITE][Pieces::BISHOP].0 &= !(1u64 << 5);
    before.bb_pieces[Sides::WHITE][Pieces::KNIGHT].0 &= !(1u64 << 6);
    before.bb_sides[Sides::WHITE].0 &= !((1u64 << 5) | (1u64 << 6));
    let mut after = before;
    apply_move_unchecked(step(4, 6, Piece::King(Color::White)), &mut after);
    let involved = (1u64 << 4) | (1u64 << 5) | (1u64 << 6) | (1u64 << 7);
    assert_eq!(before.bb_sides[Sides::WHITE].0 ^ after.bb_sides[Sides::WHITE].0, involved);
    assert_eq!(before.bb_sides[Sides::BLACK], after.bb_sides[Sides::BLACK]);
    for kind in 0..6 {
        let changed = before.bb_pieces[Sides::WHITE][kind].0 ^ after.bb_pieces[Sides::WHITE][kind].0;
        if kind == Pieces::KING {
            assert_eq!(changed, (1u64 << 4) | (1u64 << 6));
        } else if kind == Pieces::ROOK {
            assert_eq!(changed, (1u64 << 5) | (1u64 << 7));
        } else {
            assert_eq!(changed, 0);
        }
        assert_eq!(before.bb_pieces[Sides::BLACK][kind], after.bb_pieces[Sides::BLACK][kind]);
    }
    assert_sound(&after);
}

#[test]
fn commit_does_not_touch_the_castling_rights() {
    let mut position = initialize_board();
    position.castling_rights.black_king_moved = true;
    let rights = position.castling_rights;
    apply_move_unchecked(step(12, 28, Piece::Pawn(Color::White)), &mut position);
    apply_move_unchecked(step(4, 12, Piece::King(Color::White)), &mut position);
    assert_eq!(position.castling_rights, rights);
}

#[test]
fn king_moves_mark_the_king_as_moved() {
    let mut position = initialize_board();
    update_castling_rights(step(4, 12, Piece::King(Color::White)), &mut position);
    assert!(position.castling_rights.white_king_moved);
    assert!(!position.castling_rights.black_king_moved);
    update_castling_rights(step(60, 52, Piece::King(Color::Black)), &mut position);
    assert!(position.castling_rights.black_king_moved);
    assert!(!position.castling_rights.white_kingside_rook_moved);
    assert!(!position.castling_rights.white_queenside_rook_moved);
    assert!(!position.castling_rights.black_kingside_rook_moved);
    assert!(!position.castling_rights.black_queenside_rook_moved);
}

#[test]
fn rook_moves_from_home_mark_that_rook_as_moved() {
    let cases = [
        (0u8, Color::White, 2),
        (7, Color::White, 1),
        (56, Color::Black, 5),
        (63, Color::Black, 4),
    ];
    for (from, color, flag) in cases {
        let mut position = initialize_board();
        let before = position;
        update_castling_rights(step(from, 24, Piece::Rook(color)), &mut position);
        let rights = position.castling_rights;
        let flags = [
            rights.white_king_moved,
            rights.white_kingside_rook_moved,
            rights.white_queenside_rook_moved,
            rights.black_king_moved,
            rights.black_kingside_rook_moved,
            rights.black_queenside_rook_moved,
        ];
        for (index, value) in flags.iter().enumerate() {
            assert_eq!(*value, index == flag);
        }
        assert_eq!(position.bb_sides, before.bb_sides);
        assert_eq!(position.bb_pieces, before.bb_pieces);
        assert_eq!(position.en_passant, before.en_passant);
    }
}

#[test]
fn other_moves_leave_the_rights_alone_and_flags_stay_set() {
    let mut position = initialize_board();
    update_castling_rights(step(24, 25, Piece::Rook(Color::White)), &mut position);
    update_castling_rights(step(0, 8, Piece::Rook(Color::Black)), &mut position);
    update_castling_rights(step(56, 48, Piece::Rook(Color::White)), &mut position);
    update_castling_rights(step(12, 28, Piece::Pawn(Color::White)), &mut position);
    update_castling_rights(step(3, 11, Piece::Queen(Color::White)), &mut position);
    assert_eq!(position.castling_rights, CastlingRights::new());
    update_castling_rights(step(7, 15, Piece::Rook(Color::White)), &mut position);
    update_castling_rights(step(15, 7, Piece::Rook(Color::White)), &mut position);
    update_castling_rights(step(1, 18, Piece::Knight(Color::White)), &mut position);
    assert!(position.castling_rights.white_kingside_rook_moved);
    update_castling_rights(step(4, 5, Piece::King(Color::White)), &mut position);
    assert!(position.castling_rights.white_kingside_rook_moved);
    assert!(position.castling_rights.white_king_moved);
}
