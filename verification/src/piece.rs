//! Pieces, colours and castling rights.

use vstd::prelude::*;

verus! {

/// One of the six piece types, tagged with the colour that owns it.
#[derive(Debug, Clone, Copy, PartialEq, Eq, Structural)]
pub enum Piece {
    Pawn(Color),
    Rook(Color),
    Knight(Color),
    Bishop(Color),
    Queen(Color),
    King(Color),
}

/// The two players.
#[derive(Debug, Clone, Copy, PartialEq, Eq, Structural)]
pub enum Color {
    White,
    Black,
}

impl Color {
    /// The other player.
    pub open spec fn opponent(self) -> Color {
        match self {
            Color::White => Color::Black,
            Color::Black => Color::White,
        }
    }

    /// Index of this colour's masks inside a position: 0 for White, 1 for Black.
    pub open spec fn side(self) -> int {
        match self {
            Color::White => 0,
            Color::Black => 1,
        }
    }
}

impl Piece {
    /// The colour that owns the piece.
    pub open spec fn owner(&self) -> Color {
        match self {
            Piece::Pawn(c) => *c,
            Piece::Rook(c) => *c,
            Piece::Knight(c) => *c,
            Piece::Bishop(c) => *c,
            Piece::Queen(c) => *c,
            Piece::King(c) => *c,
        }
    }

    /// Index of the piece type inside a colour's row of masks:
    /// pawn 0, knight 1, bishop 2, rook 3, queen 4, king 5.
    pub open spec fn kind(self) -> int {
        match self {
            Piece::Pawn(_) => 0,
            Piece::Knight(_) => 1,
            Piece::Bishop(_) => 2,
            Piece::Rook(_) => 3,
            Piece::Queen(_) => 4,
            Piece::King(_) => 5,
        }
    }

    /// The piece of colour `color` whose type has index `kind`; a king for
    /// every index past the queen's.
    pub open spec fn of_kind(kind: int, color: Color) -> Piece {
        if kind == 0 {
            Piece::Pawn(color)
        } else if kind == 1 {
            Piece::Knight(color)
        } else if kind == 2 {
            Piece::Bishop(color)
        } else if kind == 3 {
            Piece::Rook(color)
        } else if kind == 4 {
            Piece::Queen(color)
        } else {
            Piece::King(color)
        }
    }

    /// Returns the colour that owns the piece.
    #[verifier::when_used_as_spec(owner)]
    pub fn color(&self) -> (c: Color)
        ensures
            c == self.owner(),
    {
        match self {
            Piece::Pawn(c)
            | Piece::Knight(c)
            | Piece::Bishop(c)
            | Piece::Rook(c)
            | Piece::Queen(c)
            | Piece::King(c) => *c,
        }
    }
}

/// Records, for each colour, whether the king and each rook have ever moved.
///
/// A flag that is set stays set: castling with a piece that has moved is
/// never allowed again.
#[derive(Debug, Clone, Copy, PartialEq, Eq, Structural, Hash)]
pub struct CastlingRights {
    pub white_king_moved: bool,
    pub white_kingside_rook_moved: bool,
    pub white_queenside_rook_moved: bool,
    pub black_king_moved: bool,
    pub black_kingside_rook_moved: bool,
    pub black_queenside_rook_moved: bool,
}

impl CastlingRights {
    /// The rights at the start of a game: nothing has moved.
    pub open spec fn untouched() -> CastlingRights {
        CastlingRights {
            white_king_moved: false,
            white_kingside_rook_moved: false,
            white_queenside_rook_moved: false,
            black_king_moved: false,
            black_kingside_rook_moved: false,
            black_queenside_rook_moved: false,
        }
    }

    /// Every flag set in `self` is also set in `later`.
    pub open spec fn kept_by(self, later: CastlingRights) -> bool {
        &&& self.white_king_moved ==> later.white_king_moved
        &&& self.white_kingside_rook_moved ==> later.white_kingside_rook_moved
        &&& self.white_queenside_rook_moved ==> later.white_queenside_rook_moved
        &&& self.black_king_moved ==> later.black_king_moved
        &&& self.black_kingside_rook_moved ==> later.black_kingside_rook_moved
        &&& self.black_queenside_rook_moved ==> later.black_queenside_rook_moved
    }

    /// Creates the rights of a fresh game, with every flag cleared.
    pub fn new() -> (rights: Self)
        ensures
            rights == CastlingRights::untouched(),
    {
        Self {
            white_king_moved: false,
            white_kingside_rook_moved: false,
            white_queenside_rook_moved: false,
            black_king_moved: false,
            black_kingside_rook_moved: false,
            black_queenside_rook_moved: false,
        }
    }
}

} // verus!
