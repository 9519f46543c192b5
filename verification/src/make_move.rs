//! Committing moves, detecting check, and playing a move in a game.

use vstd::prelude::*;
use crate::bitboard::{BitBoard, lemma_mask_lowest, lemma_mask_zero};
use crate::game::{Game, GameResult};
use crate::laws::{
    commit_changes_only_involved_squares, commit_preserves_well_formed,
    commit_relocates_the_mover, legal_moves_are_pseudo_legal, legal_moves_start_on_their_mover,
};
use crate::moves::{Move, all_from, forward, lemma_moves_from, pseudo_legal_moves, valid_moves};
use crate::piece::{CastlingRights, Color, Piece};
use crate::position::{
    Board, Pieces, Position, Sides, capture, lemma_view_shaped, lift, piece_of_kind, place,
};

verus! {

/// Index of the piece set that loses the origin square: the pawns for a
/// promotion, else the set of the piece that moves.
pub open spec fn origin_kind(m: Move) -> int {
    if m.promoted_from_pawn {
        0
    } else {
        m.piece.kind()
    }
}

/// Index of the piece set that gains the destination square: for a
/// promotion the set of the piece the pawn turns into, else the set of the
/// piece that moves.
pub open spec fn landing_kind(m: Move) -> int {
    if m.promoted_from_pawn {
        match m.piece {
            Piece::Queen(_) => 4,
            Piece::Rook(_) => 3,
            Piece::Bishop(_) => 2,
            Piece::Knight(_) => 1,
            _ => 0,
        }
    } else {
        m.piece.kind()
    }
}

/// For a king that castles, the rook's home square and the square it lands
/// on. A king castles when it moves from its home square two files along
/// its back rank.
pub open spec fn castle_rook(m: Move) -> Option<(int, int)> {
    match m.piece {
        Piece::King(Color::White) => if m.from == 4 && m.to == 6 {
            Some((7, 5))
        } else if m.from == 4 && m.to == 2 {
            Some((0, 3))
        } else {
            None
        },
        Piece::King(Color::Black) => if m.from == 60 && m.to == 62 {
            Some((63, 61))
        } else if m.from == 60 && m.to == 58 {
            Some((56, 59))
        } else {
            None
        },
        _ => None,
    }
}

/// For a pawn that lands on the en-passant target of `board`, the square of
/// the pawn it takes: one rank behind the target, seen from the mover.
pub open spec fn en_passant_victim(m: Move, board: Board) -> Option<int> {
    match m.piece {
        Piece::Pawn(color) => if board.en_passant == Some(m.to) {
            Some(m.to - 8 * forward(color))
        } else {
            None
        },
        _ => None,
    }
}

/// The en-passant target after `m`: the square a pawn skips when it
/// advances two squares, nothing after any other move.
pub open spec fn next_en_passant(m: Move) -> Option<u8> {
    match m.piece {
        Piece::Pawn(color) => if m.to == m.from + 16 * forward(color) {
            Some((m.from + 8 * forward(color)) as u8)
        } else {
            None
        },
        _ => None,
    }
}

/// The board after `m` has been committed on `board`.
///
/// In order: the origin leaves the mover's side and piece set; whatever the
/// other side has on the destination is captured; a castling king takes its
/// rook along; a pawn that lands on the en-passant target takes the pawn
/// behind it; the destination joins the mover's side and the piece set of
/// the piece that now stands there. The en-passant target is replaced, and
/// the castling rights are left alone.
pub open spec fn commit(m: Move, board: Board) -> Board {
    let us = m.piece.owner().side();
    let them = m.piece.owner().opponent().side();
    let lifted = board.lifted(us, origin_kind(m), m.from as int);
    let taken = lifted.captured(them, m.to as int);
    let castled = match castle_rook(m) {
        Some((rook_from, rook_to)) => taken.lifted(us, 3, rook_from).placed(us, 3, rook_to),
        None => taken,
    };
    let passed = match en_passant_victim(m, board) {
        Some(victim) => castled.lifted(them, 0, victim),
        None => castled,
    };
    let landed = passed.placed(us, landing_kind(m), m.to as int);
    Board { en_passant: next_en_passant(m), ..landed }
}

/// The castling rights after `m`: a king move marks that colour's king as
/// moved, a rook move from a rook's home square marks that rook as moved,
/// and no flag is ever cleared.
pub open spec fn rights_after(m: Move, rights: CastlingRights) -> CastlingRights {
    match m.piece {
        Piece::King(Color::White) => CastlingRights { white_king_moved: true, ..rights },
        Piece::King(Color::Black) => CastlingRights { black_king_moved: true, ..rights },
        Piece::Rook(Color::White) => CastlingRights {
            white_queenside_rook_moved: rights.white_queenside_rook_moved || m.from == 0,
            white_kingside_rook_moved: rights.white_kingside_rook_moved || m.from == 7,
            ..rights
        },
        Piece::Rook(Color::Black) => CastlingRights {
            black_queenside_rook_moved: rights.black_queenside_rook_moved || m.from == 56,
            black_kingside_rook_moved: rights.black_kingside_rook_moved || m.from == 63,
            ..rights
        },
        _ => rights,
    }
}

/// The lowest square of a set of squares.
pub open spec fn least(squares: Set<int>) -> int {
    choose|sq: int|
        squares.contains(sq) && forall|other: int| squares.contains(other) ==> sq <= other
}

/// Whether some pseudo-legal move of `piece` on `from` ends on `target`.
pub open spec fn attacks(board: Board, piece: Piece, from: int, target: int) -> bool {
    exists|i: int|
        0 <= i < pseudo_legal_moves(board, piece, from).len() && (#[trigger] pseudo_legal_moves(
            board,
            piece,
            from,
        )[i]).to == target
}

/// Whether the king of `color` is attacked: some piece of the other colour
/// has a pseudo-legal move onto the king's square. A side without a king is
/// never in check; of several kings the one on the lowest square counts.
#[verifier::opaque]
pub open spec fn in_check(board: Board, color: Color) -> bool {
    let kings = board.pieces[color.side()][5];
    let enemy = color.opponent();
    &&& exists|sq: int| kings.contains(sq)
    &&& exists|kind: int, from: int|
        0 <= kind < 6 && #[trigger] board.pieces[enemy.side()][kind].contains(from) && attacks(
            board,
            Piece::of_kind(kind, enemy),
            from,
            least(kings),
        )
}

/// Whether `color` is not in check once `m` has been committed on `board`.
#[verifier::opaque]
pub open spec fn keeps_king_safe(board: Board, color: Color, m: Move) -> bool {
    !in_check(commit(m, board), color)
}

/// The moves of `moves` that do not leave the king of `color` in check.
pub open spec fn safe_moves(board: Board, color: Color, moves: Seq<Move>) -> Seq<Move> {
    moves.filter(|m: Move| keeps_king_safe(board, color, m))
}

/// The legal moves of the pieces of `color` with type index `kind` that
/// stand on squares below `upto`, by ascending square.
pub open spec fn legal_below(board: Board, color: Color, kind: int, upto: int) -> Seq<Move>
    decreases upto,
{
    if upto <= 0 {
        Seq::empty()
    } else {
        legal_below(board, color, kind, upto - 1) + (if board.pieces[color.side()][kind].contains(
            upto - 1,
        ) {
            safe_moves(
                board,
                color,
                pseudo_legal_moves(board, Piece::of_kind(kind, color), upto - 1),
            )
        } else {
            Seq::empty()
        })
    }
}

/// The legal moves of the pieces of `color` whose type index is below
/// `kinds`, by ascending type index.
pub open spec fn legal_of_kinds(board: Board, color: Color, kinds: int) -> Seq<Move>
    decreases kinds,
{
    if kinds <= 0 {
        Seq::empty()
    } else {
        legal_of_kinds(board, color, kinds - 1) + legal_below(board, color, kinds - 1, 64)
    }
}

/// The legal moves of `color`: for each piece type from pawn to king, for
/// each piece of that type by ascending square, its pseudo-legal moves that
/// do not leave the mover's own king in check, in the order generated.
pub open spec fn all_legal_moves(board: Board, color: Color) -> Seq<Move> {
    legal_of_kinds(board, color, 6)
}

/// Whether `m` is a pseudo-legal move of some piece of `color` on `board`.
pub open spec fn moved_by_own_piece(board: Board, color: Color, m: Move) -> bool {
    exists|kind: int, from: int|
        0 <= kind < 6 && 0 <= from < 64 && #[trigger] board.pieces[color.side()][kind].contains(
            from,
        ) && pseudo_legal_moves(board, Piece::of_kind(kind, color), from).contains(m)
}

/// Whether `color` is checkmated: in check, with no legal move.
pub open spec fn checkmated(board: Board, color: Color) -> bool {
    in_check(board, color) && all_legal_moves(board, color).len() == 0
}

/// Whether `color` is stalemated: not in check, with no legal move.
pub open spec fn stalemated(board: Board, color: Color) -> bool {
    !in_check(board, color) && all_legal_moves(board, color).len() == 0
}

/// Whether `m` is a pseudo-legal move of a piece that stands on its origin.
pub open spec fn pseudo_legal(m: Move, board: Board) -> bool {
    &&& m.from < 64
    &&& board.squares(m.mover()).contains(m.from as int)
    &&& generated(m, board)
}

/// Whether the rook that castles along with the king in `m` is at home: its
/// home square holds the rook, or at least no other piece of its colour.
/// True of every move that is no castling move.
pub open spec fn rook_at_home(m: Move, board: Board) -> bool {
    castle_rook(m) matches Some(rook) ==> board.pieces[m.piece.owner().side()][3].contains(rook.0)
        || !board.occupied(m.piece.owner()).contains(rook.0)
}

/// The squares a move is about: its origin and destination, the two rook
/// squares if it castles, and the square of the pawn it takes en passant.
pub open spec fn involved_squares(m: Move, board: Board) -> Set<int> {
    set![m.from as int, m.to as int] + (match castle_rook(m) {
        Some(rook) => set![rook.0, rook.1],
        None => Set::empty(),
    }) + (match en_passant_victim(m, board) {
        Some(victim) => set![victim],
        None => Set::empty(),
    })
}

/// Whether `after` differs from `before` on no square but those `m` is about:
/// on every other square each piece set and each side set holds what it held.
pub open spec fn changed_only_where_involved(m: Move, before: Board, after: Board) -> bool {
    &&& forall|side: int, kind: int, sq: int|
        0 <= side < 2 && 0 <= kind < 6 && !involved_squares(m, before).contains(sq) ==> (
        #[trigger] after.pieces[side][kind].contains(sq)) == before.pieces[side][kind].contains(sq)
    &&& forall|side: int, sq: int|
        0 <= side < 2 && !involved_squares(m, before).contains(sq) ==> (
        #[trigger] after.sides[side].contains(sq)) == before.sides[side].contains(sq)
}

/// Whether `after` has the mover of `m` on the destination in place of the
/// origin: of the mover's colour, the origin was held by the piece set of the
/// mover alone and is held by none, and the destination was held by no set
/// and is held by that of the piece that now stands there alone (for a
/// promotion the set of the piece chosen). The side set follows, and the
/// other side does not hold the destination.
pub open spec fn mover_relocated(m: Move, before: Board, after: Board) -> bool {
    let us = m.piece.owner().side();
    let them = m.piece.owner().opponent().side();
    let from = m.from as int;
    let to = m.to as int;
    &&& forall|kind: int|
        0 <= kind < 6 ==> ((#[trigger] before.pieces[us][kind]).contains(from) <==> kind
            == origin_kind(m))
    &&& forall|kind: int| 0 <= kind < 6 ==> !(#[trigger] after.pieces[us][kind]).contains(from)
    &&& forall|kind: int| 0 <= kind < 6 ==> !(#[trigger] before.pieces[us][kind]).contains(to)
    &&& forall|kind: int|
        0 <= kind < 6 ==> ((#[trigger] after.pieces[us][kind]).contains(to) <==> kind
            == landing_kind(m))
    &&& !after.sides[us].contains(from)
    &&& after.sides[us].contains(to)
    &&& !after.sides[them].contains(to)
}

/// Index of a piece's type in a row of piece masks.
fn kind_index(piece: Piece) -> (kind: usize)
    ensures
        kind == piece.kind(),
{
    match piece {
        Piece::Pawn(_) => Pieces::PAWN,
        Piece::Knight(_) => Pieces::KNIGHT,
        Piece::Bishop(_) => Pieces::BISHOP,
        Piece::Rook(_) => Pieces::ROOK,
        Piece::Queen(_) => Pieces::QUEEN,
        Piece::King(_) => Pieces::KING,
    }
}

/// For a castling king, the rook's home square and its square after castling.
fn castle_rook_squares(m: Move) -> (squares: Option<(u8, u8)>)
    ensures
        match squares {
            Some((rook_from, rook_to)) => castle_rook(m) == Some((rook_from as int, rook_to as int))
                && rook_from < 64 && rook_to < 64,
            None => castle_rook(m).is_none(),
        },
{
    match m.piece {
        Piece::King(Color::White) => {
            if m.from == 4 && m.to == 6 {
                Some((7, 5))
            } else if m.from == 4 && m.to == 2 {
                Some((0, 3))
            } else {
                None
            }
        },
        Piece::King(Color::Black) => {
            if m.from == 60 && m.to == 62 {
                Some((63, 61))
            } else if m.from == 60 && m.to == 58 {
                Some((56, 59))
            } else {
                None
            }
        },
        _ => None,
    }
}

/// Taking a square that is off the board out of a board changes nothing.
proof fn lemma_lift_off_board(board: Board, side: int, kind: int, sq: int)
    requires
        board.shaped(),
        0 <= side < 2,
        0 <= kind < 6,
        !(0 <= sq < 64),
    ensures
        board.lifted(side, kind, sq) == board,
{
    assert(board.sides[side].remove(sq) =~= board.sides[side]);
    assert(board.pieces[side][kind].remove(sq) =~= board.pieces[side][kind]);
    assert(board.lifted(side, kind, sq) =~~= board);
}

/// Updates the castling rights of `position` for the move `m`: a king move
/// marks that colour's king as moved, a rook move from a rook's home square
/// marks that rook as moved. Nothing else changes and no flag is cleared.
pub fn update_castling_rights(m: Move, position: &mut Position)
    ensures
        final(position).castling_rights == rights_after(m, old(position).castling_rights),
        old(position).castling_rights.kept_by(final(position).castling_rights),
        final(position).bb_sides == old(position).bb_sides,
        final(position).bb_pieces == old(position).bb_pieces,
        final(position).en_passant == old(position).en_passant,
{
    match m.piece {
        Piece::King(Color::White) => {
            position.castling_rights.white_king_moved = true;
        },
        Piece::King(Color::Black) => {
            position.castling_rights.black_king_moved = true;
        },
        Piece::Rook(Color::White) => {
            if m.from == 0 {
                position.castling_rights.white_queenside_rook_moved = true;
            }
            if m.from == 7 {
                position.castling_rights.white_kingside_rook_moved = true;
            }
        },
        Piece::Rook(Color::Black) => {
            if m.from == 56 {
                position.castling_rights.black_queenside_rook_moved = true;
            }
            if m.from == 63 {
                position.castling_rights.black_kingside_rook_moved = true;
            }
        },
        _ => {},
    }
}

/// Commits the move `m` on `position` without asking whether it is legal.
///
/// The masks of both sides and of the pieces involved are updated for the
/// move itself, a capture, the rook of a castling king, a pawn taken en
/// passant and a promotion; the en-passant target is replaced. The castling
/// rights are not touched: see [`update_castling_rights`].
pub fn apply_move_unchecked(m: Move, position: &mut Position)
    requires
        m.from < 64,
        m.to < 64,
    ensures
        final(position)@ == commit(m, old(position)@),
        changed_only_where_involved(m, old(position)@, final(position)@),
        old(position)@.well_formed() && pseudo_legal(m, old(position)@) ==> mover_relocated(
            m,
            old(position)@,
            final(position)@,
        ),
        old(position)@.well_formed() && pseudo_legal(m, old(position)@) && rook_at_home(
            m,
            old(position)@,
        ) ==> final(position)@.well_formed(),
{
    proof {
        lemma_view_shaped(*position);
        commit_changes_only_involved_squares(m, position@);
        if position@.well_formed() && pseudo_legal(m, position@) {
            commit_relocates_the_mover(m, position@);
            if rook_at_home(m, position@) {
                commit_preserves_well_formed(m, position@);
            }
        }
    }
    commit_on(m, position);
}

/// Index of the masks of the side that makes the move `m`, and of the other side.
fn sides_of(m: Move) -> (sides: (usize, usize))
    ensures
        sides.0 == m.piece.owner().side(),
        sides.1 == m.piece.owner().opponent().side(),
{
    let color = m.piece.color();
    let friendly_index = match color {
        Color::White => Sides::WHITE,
        Color::Black => Sides::BLACK,
    };
    let enemy_index = if friendly_index == Sides::WHITE {
        Sides::BLACK
    } else {
        Sides::WHITE
    };
    (friendly_index, enemy_index)
}

/// Clears the origin of `m` in the mover's side and in its piece mask: the
/// pawns if the move is a promotion, else the mask of the piece that moves.
fn lift_origin(m: Move, position: &mut Position)
    requires
        m.from < 64,
    ensures
        final(position)@ == old(position)@.lifted(
            m.piece.owner().side(),
            origin_kind(m),
            m.from as int,
        ),
{
    let (friendly_index, _enemy_index) = sides_of(m);
    if m.promoted_from_pawn {
        lift(position, friendly_index, Pieces::PAWN, m.from);
    } else {
        lift(position, friendly_index, kind_index(m.piece), m.from);
    }
}

/// Moves the rook of a castling king from its home square to the square the
/// king has crossed. Does nothing for any other move.
fn castle_rook_along(m: Move, position: &mut Position)
    ensures
        final(position)@ == (match castle_rook(m) {
            Some((rook_from, rook_to)) => old(position)@.lifted(
                m.piece.owner().side(),
                3,
                rook_from,
            ).placed(m.piece.owner().side(), 3, rook_to),
            None => old(position)@,
        }),
{
    let (friendly_index, _enemy_index) = sides_of(m);
    if let Some((rook_from, rook_to)) = castle_rook_squares(m) {
        lift(position, friendly_index, Pieces::ROOK, rook_from);
        place(position, friendly_index, Pieces::ROOK, rook_to);
    }
}

/// Removes the pawn that a pawn landing on the en-passant target takes: the
/// one that stands one rank behind the target. Does nothing for a move that
/// is no pawn move or does not land on the target.
fn take_en_passant(m: Move, position: &mut Position)
    requires
        m.to < 64,
    ensures
        final(position)@ == (match en_passant_victim(m, old(position)@) {
            Some(victim) => old(position)@.lifted(m.piece.owner().opponent().side(), 0, victim),
            None => old(position)@,
        }),
{
    let (_friendly_index, enemy_index) = sides_of(m);
    if let Piece::Pawn(pawn_color) = m.piece {
        if let Some(ep_square) = position.en_passant {
            if m.to == ep_square {
                proof {
                    let behind = ep_square - 8 * forward(pawn_color);
                    lemma_view_shaped(*position);
                    if !(0 <= behind < 64) {
                        lemma_lift_off_board(position@, enemy_index as int, 0, behind);
                    }
                }
                match pawn_color {
                    Color::White => {
                        if ep_square >= 8 {
                            lift(position, enemy_index, Pieces::PAWN, ep_square - 8);
                        }
                    },
                    Color::Black => {
                        if ep_square < 56 {
                            lift(position, enemy_index, Pieces::PAWN, ep_square + 8);
                        }
                    },
                }
            }
        }
    }
}

/// The en-passant target that the move `m` leaves behind: the square skipped
/// by a pawn that advances two squares, nothing for any other move.
fn skipped_square(m: Move) -> (target: Option<u8>)
    requires
        m.from < 64,
        m.to < 64,
    ensures
        target == next_en_passant(m),
{
    match m.piece {
        Piece::Pawn(Color::White) => {
            if m.from + 16 == m.to {
                Some(m.from + 8)
            } else {
                None
            }
        },
        Piece::Pawn(Color::Black) => {
            if m.from >= 16 && m.from - 16 == m.to {
                Some(m.from - 8)
            } else {
                None
            }
        },
        _ => None,
    }
}

/// Sets the destination of `m` in the mover's side and in the mask of the
/// piece that stands there after the move: the piece chosen if the move is
/// a promotion, else the piece that moves.
fn land(m: Move, position: &mut Position)
    requires
        m.to < 64,
    ensures
        final(position)@ == old(position)@.placed(
            m.piece.owner().side(),
            landing_kind(m),
            m.to as int,
        ),
{
    let (friendly_index, _enemy_index) = sides_of(m);
    let piece_index = if m.promoted_from_pawn {
        // the piece is the promoted piece
        match m.piece {
            Piece::Queen(_) => Pieces::QUEEN,
            Piece::Rook(_) => Pieces::ROOK,
            Piece::Bishop(_) => Pieces::BISHOP,
            Piece::Knight(_) => Pieces::KNIGHT,
            _ => Pieces::PAWN,
        }
    } else {
        kind_index(m.piece)
    };
    place(position, friendly_index, piece_index, m.to);
}

/// Updates the masks and the en-passant target of `position` for the move `m`.
fn commit_on(m: Move, position: &mut Position)
    requires
        m.from < 64,
        m.to < 64,
    ensures
        final(position)@ == commit(m, old(position)@),
{
    let (_friendly_index, enemy_index) = sides_of(m);
    let ghost target = position.en_passant;
    // the origin is cleared
    lift_origin(m, position);
    // if the destination holds an enemy, that enemy piece is removed
    capture(position, enemy_index, m.to);
    // a castling king takes its rook along
    castle_rook_along(m, position);
    assert(position.en_passant == target);
    // a pawn on the en-passant target takes the pawn behind it
    take_en_passant(m, position);
    // the destination is set
    land(m, position);
    // the old target is gone; a double push leaves a new one
    position.en_passant = skipped_square(m);
}

/// Whether some move of `moves` ends on `target`.
fn reaches(moves: &Vec<Move>, target: u8) -> (found: bool)
    ensures
        found == exists|i: int| 0 <= i < moves@.len() && (#[trigger] moves@[i]).to == target,
{
    let mut i: usize = 0;
    while i < moves.len()
        invariant
            i <= moves.len(),
            forall|j: int| 0 <= j < i ==> (#[trigger] moves@[j]).to != target,
        decreases moves.len() - i,
    {
        if moves[i].to == target {
            return true;
        }
        i += 1;
    }
    false
}

/// Returns `true` if the king of `color` is in check: some piece of the
/// other colour has a pseudo-legal move onto the king's square. Pawns
/// therefore threaten only diagonally. On a position where `color` has no
/// king the answer is `false`.
pub fn is_checked(color: Color, position: &Position) -> (checked: bool)
    ensures
        checked == in_check(position@, color),
{
    let (friendly_index, enemy_index) = match color {
        Color::White => (Sides::WHITE, Sides::BLACK),
        Color::Black => (Sides::BLACK, Sides::WHITE),
    };
    let king_bb: u64 = position.bb_pieces[friendly_index][Pieces::KING].0;
    proof {
        reveal(in_check);
        lemma_mask_zero(king_bb);
    }
    if king_bb == 0 {
        assert(!exists|sq: int| position@.pieces[color.side()][5].contains(sq));
        return false;
    }
    let king_sq: u8 = king_bb.trailing_zeros() as u8;
    let enemy_color = match color {
        Color::White => Color::Black,
        Color::Black => Color::White,
    };
    proof {
        lemma_mask_lowest(king_bb);
        let kings = position@.pieces[color.side()][5];
        assert(kings.contains(king_sq as int));
        assert(least(kings) == king_sq as int);
    }
    // go through all enemy pieces and see whether any threatens the king
    let mut piece_type: usize = 0;
    while piece_type < 6
        invariant
            piece_type <= 6,
            enemy_index == enemy_color.side(),
            enemy_color == color.opponent(),
            position@.pieces[color.side()][5].contains(king_sq as int),
            least(position@.pieces[color.side()][5]) == king_sq as int,
            forall|kind: int, from: int|
                0 <= kind < piece_type && #[trigger] position@.pieces[enemy_index as int][kind]
                    .contains(from) ==> !attacks(
                    position@,
                    Piece::of_kind(kind, enemy_color),
                    from,
                    king_sq as int,
                ),
        decreases 6 - piece_type,
    {
        let mut bb: u64 = position.bb_pieces[enemy_index][piece_type].0;
        let ghost attackers = position@.pieces[enemy_index as int][piece_type as int];
        let ghost attacker = Piece::of_kind(piece_type as int, enemy_color);
        while bb != 0
            invariant
                piece_type < 6,
                enemy_index == enemy_color.side(),
                enemy_color == color.opponent(),
                position@.pieces[color.side()][5].contains(king_sq as int),
                least(position@.pieces[color.side()][5]) == king_sq as int,
                attackers == position@.pieces[enemy_index as int][piece_type as int],
                attacker == Piece::of_kind(piece_type as int, enemy_color),
                forall|from: int| BitBoard(bb)@.contains(from) ==> attackers.contains(from),
                forall|from: int|
                    #[trigger] attackers.contains(from) && !BitBoard(bb)@.contains(from)
                        ==> !attacks(position@, attacker, from, king_sq as int),
            decreases bb,
        {
            proof {
                lemma_mask_lowest(bb);
            }
            let from: u8 = bb.trailing_zeros() as u8;
            bb &= bb - 1;  // drop the lowest set bit
            let piece = piece_of_kind(piece_type, enemy_color);
            let moves = valid_moves(from, piece, position);
            if reaches(&moves, king_sq) {
                proof {
                    reveal(in_check);
                    assert(attackers.contains(from as int));
                    assert(attacks(position@, attacker, from as int, king_sq as int));
                }
                return true;
            }
        }
        proof {
            lemma_mask_zero(bb);
        }
        piece_type += 1;
    }
    false
}

/// Squares that hold no piece of the given type add no legal moves.
proof fn lemma_legal_below_skip(board: Board, color: Color, kind: int, low: int, high: int)
    requires
        low <= high,
        forall|sq: int| low <= sq < high ==> !board.pieces[color.side()][kind].contains(sq),
    ensures
        legal_below(board, color, kind, high) == legal_below(board, color, kind, low),
    decreases high - low,
{
    if low < high {
        lemma_legal_below_skip(board, color, kind, low, high - 1);
    }
}

/// Returns all legal moves of `color`.
///
/// For every piece of `color`, by piece type from pawn to king and by
/// ascending square within a type, each pseudo-legal move is committed on a
/// copy of the position and kept only if the mover's own king is not in
/// check afterwards. The position itself is not changed.
pub fn legal_moves(color: Color, position: &Position) -> (result: Vec<Move>)
    ensures
        result@ == all_legal_moves(position@, color),
        forall|i: int|
            0 <= i < result@.len() ==> moved_by_own_piece(position@, color, #[trigger] result@[i])
                && pseudo_legal(result@[i], position@) && keeps_king_safe(
                position@,
                color,
                result@[i],
            ),
{
    let mut result: Vec<Move> = Vec::new();
    // find all friendly pieces
    let side_index = match color {
        Color::White => Sides::WHITE,
        Color::Black => Sides::BLACK,
    };
    let mut piece_type: usize = 0;
    while piece_type < 6
        invariant
            piece_type <= 6,
            side_index == color.side(),
            result@ == legal_of_kinds(position@, color, piece_type as int),
        decreases 6 - piece_type,
    {
        let mut bb: u64 = position.bb_pieces[side_index][piece_type].0;
        let ghost own = position@.pieces[side_index as int][piece_type as int];
        let ghost mut cursor: int = 0;
        proof {
            lemma_view_shaped(*position);
        }
        while bb != 0
            invariant
                piece_type < 6,
                side_index == color.side(),
                own == position@.pieces[side_index as int][piece_type as int],
                0 <= cursor <= 64,
                forall|sq: int|
                    #[trigger] BitBoard(bb)@.contains(sq) ==> own.contains(sq) && cursor <= sq,
                forall|sq: int|
                    #[trigger] own.contains(sq) && cursor <= sq ==> BitBoard(bb)@.contains(sq),
                result@ == legal_of_kinds(position@, color, piece_type as int) + legal_below(
                    position@,
                    color,
                    piece_type as int,
                    cursor,
                ),
            decreases bb,
        {
            proof {
                lemma_mask_lowest(bb);
            }
            let from: u8 = bb.trailing_zeros() as u8;
            bb &= bb - 1;
            let piece = piece_of_kind(piece_type, color);
            let pseudo_moves = valid_moves(from, piece, position);
            let ghost before = result@;
            proof {
                lemma_legal_below_skip(position@, color, piece_type as int, cursor, from as int);
                lemma_moves_from(position@, piece, from as int);
            }
            // filter out moves that leave the king in check
            let mut j: usize = 0;
            while j < pseudo_moves.len()
                invariant
                    j <= pseudo_moves.len(),
                    from < 64,
                    all_from(pseudo_moves@, from as int),
                    result@ == before + safe_moves(position@, color, pseudo_moves@.take(j as int)),
                decreases pseudo_moves.len() - j,
            {
                let m = pseudo_moves[j];
                let mut test_pos = *position;
                apply_move_unchecked(m, &mut test_pos);
                let exposed = is_checked(color, &test_pos);
                proof {
                    reveal(keeps_king_safe);
                    let keep = |m: Move| keeps_king_safe(position@, color, m);
                    let done = pseudo_moves@.take(j as int);
                    assert(pseudo_moves@.take(j + 1) =~= done.push(m));
                    done.lemma_filter_push(m, keep);
                }
                if !exposed {
                    result.push(m);
                }
                j += 1;
            }
            proof {
                assert(pseudo_moves@.take(pseudo_moves.len() as int) =~= pseudo_moves@);
                cursor = from as int + 1;
            }
        }
        proof {
            lemma_mask_zero(bb);
            lemma_legal_below_skip(position@, color, piece_type as int, cursor, 64);
        }
        piece_type += 1;
    }
    proof {
        assert forall|i: int| 0 <= i < result@.len() implies moved_by_own_piece(
            position@,
            color,
            #[trigger] result@[i],
        ) && pseudo_legal(result@[i], position@) && keeps_king_safe(
            position@,
            color,
            result@[i],
        ) by {
            legal_moves_are_pseudo_legal(position@, color, result@[i]);
            legal_moves_start_on_their_mover(position@, color, result@[i]);
        }
    }
    result
}

/// Returns `true` if `color` is checkmated: its king is in check and it has
/// no legal move.
pub fn is_checkmated(color: Color, position: &Position) -> (mated: bool)
    ensures
        mated == checkmated(position@, color),
{
    is_checked(color, position) && legal_moves(color, position).is_empty()
}

/// Returns `true` if `color` is stalemated: its king is not in check and it
/// has no legal move.
pub fn is_stalemated(color: Color, position: &Position) -> (stuck: bool)
    ensures
        stuck == stalemated(position@, color),
{
    !is_checked(color, position) && legal_moves(color, position).is_empty()
}

/// Whether `m` is among the pseudo-legal moves generated for the piece that
/// makes it, standing on the move's origin.
pub open spec fn generated(m: Move, board: Board) -> bool {
    pseudo_legal_moves(board, m.mover(), m.from as int).contains(m)
}

/// The board after `m` has been played: committed, with the castling rights
/// brought up to date.
pub open spec fn played(m: Move, board: Board) -> Board {
    Board { castling_rights: rights_after(m, board.castling_rights), ..commit(m, board) }
}

/// How the game stands once the player of `mover` has brought about
/// `board`: the other player is checkmated, or stalemated, or the game goes on.
pub open spec fn result_after(board: Board, mover: Color) -> GameResult {
    let enemy = mover.opponent();
    if checkmated(board, enemy) {
        GameResult::Checkmate(enemy)
    } else if stalemated(board, enemy) {
        GameResult::Stalemate
    } else {
        GameResult::Ongoing
    }
}

/// Whether `outcome` is the rejection that carries `message`.
pub open spec fn rejected_with(outcome: Result<(), String>, message: Seq<char>) -> bool {
    outcome matches Err(text) && text@ == message
}

/// Whether `moves` holds `m`.
fn contains_move(moves: &Vec<Move>, m: Move) -> (found: bool)
    ensures
        found == moves@.contains(m),
{
    let mut i: usize = 0;
    while i < moves.len()
        invariant
            i <= moves.len(),
            forall|j: int| 0 <= j < i ==> moves@[j] != m,
        decreases moves.len() - i,
    {
        if moves[i] == m {
            return true;
        }
        i += 1;
    }
    false
}

/// Plays the move `m` in `game`, if it is legal.
///
/// The move is rejected, and the game left as it was, if the game is over, if
/// the move is not among the pseudo-legal moves of the piece that makes it,
/// or if it would leave the mover's own king in check; each case has its own
/// message. Otherwise the move is committed and the castling rights are
/// brought up to date. If the opponent is now checkmated or stalemated the
/// result says so and the turn stays; else the turn passes to the opponent.
pub fn make_move(m: Move, game: &mut Game) -> (outcome: Result<(), String>)
    requires
        m.from < 64,
        m.to < 64,
        old(game).turn < u32::MAX,
    ensures
        old(game).over() ==> rejected_with(outcome, "Illegal move: the game is over"@)
            && *final(game) == *old(game),
        !old(game).over() && !generated(m, old(game).position@) ==> rejected_with(
            outcome,
            "Illegal move (not in generated valid moves)"@,
        ) && *final(game) == *old(game),
        !old(game).over() && generated(m, old(game).position@) && !keeps_king_safe(
            old(game).position@,
            m.piece.owner(),
            m,
        ) ==> rejected_with(outcome, "Illegal move: would leave your king in check"@)
            && *final(game) == *old(game),
        !old(game).over() && generated(m, old(game).position@) && keeps_king_safe(
            old(game).position@,
            m.piece.owner(),
            m,
        ) ==> {
            &&& outcome.is_ok()
            &&& final(game).position@ == played(m, old(game).position@)
            &&& final(game).result == result_after(final(game).position@, m.piece.owner())
            &&& final(game).turn == if final(game).over() {
                old(game).turn as int
            } else {
                old(game).turn + 1
            }
            &&& final(game).selected == old(game).selected
        },
        old(game).position.castling_rights.kept_by(final(game).position.castling_rights),
        old(game).position@.well_formed() && old(game).position@.squares(m.mover()).contains(
            m.from as int,
        ) && rook_at_home(m, old(game).position@) ==> final(game).position@.well_formed(),
{
    proof {
        reveal(keeps_king_safe);
    }
    if game.is_over() {
        return Err("Illegal move: the game is over".to_string());
    }
    let mover = if m.promoted_from_pawn {
        Piece::Pawn(m.piece.color())
    } else {
        m.piece
    };
    let valid = valid_moves(m.from, mover, &game.position);
    if !contains_move(&valid, m) {
        return Err("Illegal move (not in generated valid moves)".to_string());
    }
    // try the move on a copy to see whether it leaves the mover's king in check
    let mut test_pos = game.position;
    apply_move_unchecked(m, &mut test_pos);
    if is_checked(m.piece.color(), &test_pos) {
        return Err("Illegal move: would leave your king in check".to_string());
    }
    // commit to the real position
    apply_move_unchecked(m, &mut game.position);
    update_castling_rights(m, &mut game.position);
    proof {
        assert(game.position@ =~~= played(m, old(game).position@));
        let before = old(game).position@;
        if before.well_formed() && before.squares(m.mover()).contains(m.from as int)
            && rook_at_home(m, before) {
            commit_preserves_well_formed(m, before);
        }
    }
    let enemy_color = match m.piece.color() {
        Color::White => Color::Black,
        Color::Black => Color::White,
    };
    if is_checkmated(enemy_color, &game.position) {
        game.result = GameResult::Checkmate(enemy_color);
        return Ok(());
    } else if is_stalemated(enemy_color, &game.position) {
        game.result = GameResult::Stalemate;
        return Ok(());
    }
    game.turn_tracker();
    Ok(())
}

} // verus!
