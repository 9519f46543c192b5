//! The position as bit masks, and its reading as sets of squares.

use vstd::prelude::*;
use crate::bitboard::{
    BitBoard, lemma_mask_clear, lemma_mask_empty, lemma_mask_set, lemma_mask_test,
};
use crate::piece::{CastlingRights, Color, Piece};

verus! {

/// The state of the board as bit masks.
///
/// `bb_sides[s]` marks every square held by side `s`; `bb_pieces[s][k]` marks
/// the squares held by that side's pieces of type `k`. See [`Sides`] and
/// [`Pieces`] for the indices.
#[derive(Debug, Clone, Hash, PartialEq, Eq, Copy)]
pub struct Position {
    /// Occupancy per side, whatever the piece type.
    pub bb_sides: [BitBoard; 2],
    /// Occupancy per side and piece type, read as `bb_pieces[side][piece_type]`.
    pub bb_pieces: [[BitBoard; 6]; 2],
    /// Which kings and rooks have moved so far.
    pub castling_rights: CastlingRights,
    /// The square a pawn has just skipped with a two-square advance, if any.
    pub en_passant: Option<u8>,
}

/// Indices of the two sides in [`Position::bb_sides`] and [`Position::bb_pieces`].
pub struct Sides;

impl Sides {
    pub const WHITE: usize = 0;

    pub const BLACK: usize = 1;
}

/// Indices of the piece types in a row of [`Position::bb_pieces`].
pub struct Pieces;

impl Pieces {
    pub const PAWN: usize = 0;

    pub const KNIGHT: usize = 1;

    pub const BISHOP: usize = 2;

    pub const ROOK: usize = 3;

    pub const QUEEN: usize = 4;

    pub const KING: usize = 5;
}

/// Rank of a square, 0 for the first rank.
pub open spec fn rank_of(sq: int) -> int {
    sq / 8
}

/// File of a square, 0 for the a-file.
pub open spec fn file_of(sq: int) -> int {
    sq % 8
}

/// Whether a rank and a file name a square of the board.
pub open spec fn on_board(rank: int, file: int) -> bool {
    0 <= rank < 8 && 0 <= file < 8
}

/// The square with the given rank and file.
pub open spec fn square_at(rank: int, file: int) -> int {
    rank * 8 + file
}

/// A rank and a file on the board name a square of the board, and are its
/// rank and file.
pub proof fn lemma_square_coordinates(rank: int, file: int)
    requires
        on_board(rank, file),
    ensures
        0 <= square_at(rank, file) < 64,
        rank_of(square_at(rank, file)) == rank,
        file_of(square_at(rank, file)) == file,
{
}

/// The mathematical content of a [`Position`]: each mask as a set of squares.
#[verifier::ext_equal]
pub struct Board {
    /// Squares held by each side; index 0 is White, 1 is Black.
    pub sides: Seq<Set<int>>,
    /// Squares held by each side's pieces of each type.
    pub pieces: Seq<Seq<Set<int>>>,
    pub castling_rights: CastlingRights,
    pub en_passant: Option<u8>,
}

/// Index of the first of six sets that contains `sq`, or 6 if none does.
pub open spec fn first_holder(row: Seq<Set<int>>, sq: int) -> int {
    if row[0].contains(sq) {
        0
    } else if row[1].contains(sq) {
        1
    } else if row[2].contains(sq) {
        2
    } else if row[3].contains(sq) {
        3
    } else if row[4].contains(sq) {
        4
    } else if row[5].contains(sq) {
        5
    } else {
        6
    }
}

/// The union of a row of six sets.
pub open spec fn union_of(row: Seq<Set<int>>) -> Set<int> {
    row[0] + row[1] + row[2] + row[3] + row[4] + row[5]
}

impl Board {
    /// Squares held by any piece of `color`, as the side mask records them.
    pub open spec fn occupied(self, color: Color) -> Set<int> {
        self.sides[color.side()]
    }

    /// Squares held by pieces equal to `piece`.
    pub open spec fn squares(self, piece: Piece) -> Set<int> {
        self.pieces[piece.owner().side()][piece.kind()]
    }

    /// Whether neither side mask marks `sq`.
    pub open spec fn vacant(self, sq: int) -> bool {
        !self.sides[0].contains(sq) && !self.sides[1].contains(sq)
    }

    /// The piece found on `sq` when White's masks are searched before
    /// Black's, each from pawn to king.
    pub open spec fn piece_at(self, sq: int) -> Option<Piece> {
        let white = first_holder(self.pieces[0], sq);
        let black = first_holder(self.pieces[1], sq);
        if white < 6 {
            Some(Piece::of_kind(white, Color::White))
        } else if black < 6 {
            Some(Piece::of_kind(black, Color::Black))
        } else {
            None
        }
    }

    /// The board has two sides of six piece sets each, all within the 64
    /// squares.
    pub open spec fn shaped(self) -> bool {
        &&& self.sides.len() == 2
        &&& self.pieces.len() == 2
        &&& self.pieces[0].len() == 6
        &&& self.pieces[1].len() == 6
        &&& forall|c: int, sq: int|
            0 <= c < 2 && #[trigger] self.sides[c].contains(sq) ==> 0 <= sq < 64
        &&& forall|c: int, k: int, sq: int|
            0 <= c < 2 && 0 <= k < 6 && #[trigger] self.pieces[c][k].contains(sq) ==> 0 <= sq < 64
    }

    /// No square belongs to two of the twelve piece sets.
    pub open spec fn pieces_disjoint(self) -> bool {
        forall|c1: int, k1: int, c2: int, k2: int, sq: int|
            0 <= c1 < 2 && 0 <= k1 < 6 && 0 <= c2 < 2 && 0 <= k2 < 6
                && #[trigger] self.pieces[c1][k1].contains(sq)
                && #[trigger] self.pieces[c2][k2].contains(sq) ==> c1 == c2 && k1 == k2
    }

    /// Each side set is the union of that side's six piece sets.
    pub open spec fn sides_consistent(self) -> bool {
        &&& self.sides[0] =~= union_of(self.pieces[0])
        &&& self.sides[1] =~= union_of(self.pieces[1])
    }

    /// An en-passant target records a two-square advance made on the move
    /// before: it lies on the third or the sixth rank, the pawn stands on the
    /// square past it, and the target and the pawn's origin are empty.
    pub open spec fn en_passant_sound(self) -> bool {
        match self.en_passant {
            None => true,
            Some(target) => {
                let t = target as int;
                if 16 <= t < 24 {
                    &&& self.vacant(t)
                    &&& self.vacant(t - 8)
                    &&& self.pieces[0][0].contains(t + 8)
                } else if 40 <= t < 48 {
                    &&& self.vacant(t)
                    &&& self.vacant(t + 8)
                    &&& self.pieces[1][0].contains(t - 8)
                } else {
                    false
                }
            },
        }
    }

    /// The board with `sq` taken out of side `side` and out of that side's
    /// piece set `kind`.
    pub open spec fn lifted(self, side: int, kind: int, sq: int) -> Board {
        Board {
            sides: self.sides.update(side, self.sides[side].remove(sq)),
            pieces: self.pieces.update(
                side,
                self.pieces[side].update(kind, self.pieces[side][kind].remove(sq)),
            ),
            ..self
        }
    }

    /// The board with `sq` put into side `side` and into that side's piece
    /// set `kind`.
    pub open spec fn placed(self, side: int, kind: int, sq: int) -> Board {
        Board {
            sides: self.sides.update(side, self.sides[side].insert(sq)),
            pieces: self.pieces.update(
                side,
                self.pieces[side].update(kind, self.pieces[side][kind].insert(sq)),
            ),
            ..self
        }
    }

    /// The board after whatever piece of side `side` stands on `sq` has been
    /// captured: if the side set marks `sq`, the square leaves it and the
    /// first piece set of that side that holds it.
    pub open spec fn captured(self, side: int, sq: int) -> Board {
        let holder = first_holder(self.pieces[side], sq);
        if !self.sides[side].contains(sq) {
            self
        } else if holder < 6 {
            self.lifted(side, holder, sq)
        } else {
            Board { sides: self.sides.update(side, self.sides[side].remove(sq)), ..self }
        }
    }

    /// The part of the invariant that speaks of the masks alone: the shape,
    /// no square in two piece sets, and each side the union of its pieces.
    pub open spec fn masks_sound(self) -> bool {
        &&& self.shaped()
        &&& self.pieces_disjoint()
        &&& self.sides_consistent()
    }

    /// The invariant of a position that arises in play.
    pub open spec fn well_formed(self) -> bool {
        &&& self.masks_sound()
        &&& self.en_passant_sound()
    }
}

impl View for Position {
    type V = Board;

    open spec fn view(&self) -> Board {
        Board {
            sides: Seq::new(2, |s: int| self.bb_sides[s]@),
            pieces: Seq::new(2, |s: int| Seq::new(6, |k: int| self.bb_pieces[s][k]@)),
            castling_rights: self.castling_rights,
            en_passant: self.en_passant,
        }
    }
}

/// On a board with sound masks the piece found on a square is the one piece
/// whose set holds the square.
pub proof fn lemma_piece_at_holder(board: Board, sq: int, piece: Piece)
    requires
        board.masks_sound(),
    ensures
        board.piece_at(sq) == Some(piece) <==> board.squares(piece).contains(sq),
{
    let side = piece.owner().side();
    let kind = piece.kind();
    assert(Piece::of_kind(kind, piece.owner()) == piece);
    if board.squares(piece).contains(sq) {
        assert(board.pieces[side][kind].contains(sq));
        assert(first_holder(board.pieces[side], sq) == kind);
        assert(first_holder(board.pieces[1 - side], sq) == 6);
    }
}

/// The piece of colour `color` whose type has index `kind`.
pub(crate) fn piece_of_kind(kind: usize, color: Color) -> (piece: Piece)
    requires
        kind < 6,
    ensures
        piece == Piece::of_kind(kind as int, color),
{
    if kind == Pieces::PAWN {
        Piece::Pawn(color)
    } else if kind == Pieces::KNIGHT {
        Piece::Knight(color)
    } else if kind == Pieces::BISHOP {
        Piece::Bishop(color)
    } else if kind == Pieces::ROOK {
        Piece::Rook(color)
    } else if kind == Pieces::QUEEN {
        Piece::Queen(color)
    } else {
        Piece::King(color)
    }
}

/// Returns the piece on `square`, or `None` if no piece mask marks it.
///
/// White's masks are searched before Black's, each from pawn to king, so on
/// a well-formed position the answer is the one piece that stands there.
pub fn get_piece_at(position: &Position, square: u8) -> (found: Option<Piece>)
    requires
        square < 64,
    ensures
        found == position@.piece_at(square as int),
        position@.masks_sound() ==> forall|piece: Piece|
            found == Some(piece) <==> #[trigger] position@.squares(piece).contains(square as int),
{
    proof {
        if position@.masks_sound() {
            assert forall|piece: Piece|
                position@.piece_at(square as int) == Some(piece) <==> #[trigger] position@.squares(
                    piece,
                ).contains(square as int) by {
                lemma_piece_at_holder(position@, square as int, piece);
            }
        }
    }
    let spotlight: u64 = 1u64 << square;
    let mut side: usize = 0;
    while side < 2
        invariant
            side <= 2,
            square < 64,
            spotlight == 1u64 << square,
            side >= 1 ==> first_holder(position@.pieces[0], square as int) == 6,
            side >= 2 ==> first_holder(position@.pieces[1], square as int) == 6,
        decreases 2 - side,
    {
        let mut piece_type: usize = 0;
        while piece_type < 6
            invariant
                side < 2,
                piece_type <= 6,
                square < 64,
                spotlight == 1u64 << square,
                side >= 1 ==> first_holder(position@.pieces[0], square as int) == 6,
                forall|k: int|
                    0 <= k < piece_type ==> !position@.pieces[side as int][k].contains(
                        square as int,
                    ),
            decreases 6 - piece_type,
        {
            proof {
                lemma_mask_test(
                    position.bb_pieces[side as int][piece_type as int].0,
                    square as u64,
                );
            }
            if (position.bb_pieces[side][piece_type].0 & spotlight) != 0 {
                let color = if side == Sides::WHITE {
                    Color::White
                } else {
                    Color::Black
                };
                return Some(piece_of_kind(piece_type, color));
            }
            piece_type += 1;
        }
        side += 1;
    }
    None
}

/// Every view of a position has the shape of a board.
pub proof fn lemma_view_shaped(position: Position)
    ensures
        position@.shaped(),
{
    assert forall|c: int, sq: int| 0 <= c < 2 && #[trigger] position@.sides[c].contains(
        sq,
    ) implies 0 <= sq < 64 by {
        lemma_mask_empty(position.bb_sides[c].0);
    }
    assert forall|c: int, k: int, sq: int|
        0 <= c < 2 && 0 <= k < 6 && #[trigger] position@.pieces[c][k].contains(
            sq,
        ) implies 0 <= sq < 64 by {
        lemma_mask_empty(position.bb_pieces[c][k].0);
    }
}

/// Clears the bit of `square` in the masks of side `side` and of its pieces
/// of type `kind`.
pub(crate) fn lift(position: &mut Position, side: usize, kind: usize, square: u8)
    requires
        side < 2,
        kind < 6,
        square < 64,
    ensures
        final(position)@ == old(position)@.lifted(side as int, kind as int, square as int),
{
    let mask: u64 = 1u64 << square;
    proof {
        lemma_mask_clear(position.bb_sides[side as int].0, square as u64);
        lemma_mask_clear(position.bb_pieces[side as int][kind as int].0, square as u64);
    }
    position.bb_sides[side].0 &= !mask;
    position.bb_pieces[side][kind].0 &= !mask;
    assert(position@ =~~= old(position)@.lifted(side as int, kind as int, square as int));
}

/// Sets the bit of `square` in the masks of side `side` and of its pieces of
/// type `kind`.
pub(crate) fn place(position: &mut Position, side: usize, kind: usize, square: u8)
    requires
        side < 2,
        kind < 6,
        square < 64,
    ensures
        final(position)@ == old(position)@.placed(side as int, kind as int, square as int),
{
    let mask: u64 = 1u64 << square;
    proof {
        lemma_mask_set(position.bb_sides[side as int].0, square as u64);
        lemma_mask_set(position.bb_pieces[side as int][kind as int].0, square as u64);
    }
    position.bb_sides[side].0 |= mask;
    position.bb_pieces[side][kind].0 |= mask;
    assert(position@ =~~= old(position)@.placed(side as int, kind as int, square as int));
}

/// Removes whatever piece of side `side` the side mask shows on `square`.
pub(crate) fn capture(position: &mut Position, side: usize, square: u8)
    requires
        side < 2,
        square < 64,
    ensures
        final(position)@ == old(position)@.captured(side as int, square as int),
{
    let mask: u64 = 1u64 << square;
    proof {
        lemma_mask_test(position.bb_sides[side as int].0, square as u64);
        lemma_mask_clear(position.bb_sides[side as int].0, square as u64);
    }
    if (position.bb_sides[side].0 & mask) != 0 {
        // remove from the side's occupancy
        position.bb_sides[side].0 &= !mask;
        // find the piece layer that has the bit and clear it
        let mut i: usize = 0;
        while i < 6
            invariant
                i <= 6,
                side < 2,
                square < 64,
                mask == 1u64 << square,
                position.bb_pieces == old(position).bb_pieces,
                old(position)@.sides[side as int].contains(square as int),
                position@ =~~= (Board {
                    sides: old(position)@.sides.update(
                        side as int,
                        old(position)@.sides[side as int].remove(square as int),
                    ),
                    ..old(position)@
                }),
                forall|k: int|
                    0 <= k < i ==> !old(position)@.pieces[side as int][k].contains(square as int),
            decreases 6 - i,
        {
            proof {
                lemma_mask_test(position.bb_pieces[side as int][i as int].0, square as u64);
                lemma_mask_clear(position.bb_pieces[side as int][i as int].0, square as u64);
            }
            if (position.bb_pieces[side][i].0 & mask) != 0 {
                position.bb_pieces[side][i].0 &= !mask;
                proof {
                    let before = old(position)@;
                    let after = before.lifted(side as int, i as int, square as int);
                    assert(position@.sides =~~= after.sides);
                    assert(position@.pieces =~~= after.pieces);
                    assert(position@ =~~= before.captured(side as int, square as int));
                }
                return ;
            }
            i += 1;
        }
    }
}

/// Taking a piece off the square it stands on keeps the masks sound; so does
/// taking a square out of a side that does not hold it.
pub proof fn lemma_lifted_sound(board: Board, side: int, kind: int, sq: int)
    requires
        board.masks_sound(),
        0 <= side < 2,
        0 <= kind < 6,
        board.pieces[side][kind].contains(sq) || !board.sides[side].contains(sq),
    ensures
        board.lifted(side, kind, sq).masks_sound(),
{
    let after = board.lifted(side, kind, sq);
    assert(after.shaped());
    assert(after.pieces_disjoint());
    assert(after.sides[0] =~= union_of(after.pieces[0]));
    assert(after.sides[1] =~= union_of(after.pieces[1]));
}

/// Putting a piece on an empty square of the board keeps the masks sound.
pub proof fn lemma_placed_sound(board: Board, side: int, kind: int, sq: int)
    requires
        board.masks_sound(),
        0 <= side < 2,
        0 <= kind < 6,
        0 <= sq < 64,
        board.vacant(sq),
    ensures
        board.placed(side, kind, sq).masks_sound(),
{
    let after = board.placed(side, kind, sq);
    assert(after.shaped());
    assert(after.pieces_disjoint());
    assert(after.sides[0] =~= union_of(after.pieces[0]));
    assert(after.sides[1] =~= union_of(after.pieces[1]));
}

/// Capturing on a square keeps the masks sound and leaves the square free
/// of the side captured from.
pub proof fn lemma_captured_sound(board: Board, side: int, sq: int)
    requires
        board.masks_sound(),
        0 <= side < 2,
    ensures
        board.captured(side, sq).masks_sound(),
        !board.captured(side, sq).sides[side].contains(sq),
{
    let holder = first_holder(board.pieces[side], sq);
    if board.sides[side].contains(sq) {
        assert(union_of(board.pieces[side]).contains(sq));
        assert(holder < 6);
        lemma_lifted_sound(board, side, holder, sq);
    }
}

} // verus!
