//! A game: a position, a turn counter, a selection and a result.

use vstd::prelude::*;
use crate::piece::{Color, Piece};
use crate::position::{Position, get_piece_at};

verus! {

/// How a game stands: still being played, or ended.
#[derive(Debug, Clone, Copy, PartialEq, Eq, Structural)]
pub enum GameResult {
    Ongoing,
    /// One player has been checkmated. Holds the colour of the losing side.
    Checkmate(Color),
    Stalemate,
}

/// A game in progress: the board, whose turn it is, what is selected, and
/// the result so far.
pub struct Game {
    /// Position of all pieces currently on the board.
    pub position: Position,
    /// Current turn number: 1 is White's first move, 2 is Black's, and so on.
    pub turn: u32,
    /// The currently selected piece and its square, if any.
    pub selected: Option<(Piece, u8)>,
    pub result: GameResult,
}

/// The player who moves on turn number `turn`: White on odd turns, Black on
/// even ones.
pub open spec fn mover_on(turn: u32) -> Color {
    if turn % 2 == 1 {
        Color::White
    } else {
        Color::Black
    }
}

impl Game {
    /// The player whose turn it is.
    pub open spec fn to_move(&self) -> Color {
        mover_on(self.turn)
    }

    /// Whether the game has ended.
    pub open spec fn over(&self) -> bool {
        self.result != GameResult::Ongoing
    }

    /// Starts a game from `position`: turn 1, nothing selected, ongoing.
    pub fn new(position: Position) -> (game: Self)
        ensures
            game.position == position,
            game.turn == 1,
            game.selected.is_none(),
            game.result == GameResult::Ongoing,
    {
        Game { position, turn: 1, selected: None, result: GameResult::Ongoing }
    }

    /// Advances the turn counter by one, handing the move to the other player.
    pub fn turn_tracker(&mut self)
        requires
            old(self).turn < u32::MAX,
        ensures
            final(self).turn == old(self).turn + 1,
            final(self).to_move() == old(self).to_move().opponent(),
            final(self).position == old(self).position,
            final(self).selected == old(self).selected,
            final(self).result == old(self).result,
    {
        self.turn += 1;
    }

    /// Returns the player whose turn it is: White on odd turns, Black on even
    /// ones.
    #[verifier::when_used_as_spec(to_move)]
    pub fn player_tracker(&self) -> (color: Color)
        ensures
            color == self.to_move(),
    {
        if self.turn % 2 == 1 {
            Color::White
        } else {
            Color::Black
        }
    }

    /// Returns `true` once the game has ended in checkmate or stalemate.
    #[verifier::when_used_as_spec(over)]
    pub fn is_over(&self) -> (ended: bool)
        ensures
            ended == self.over(),
    {
        self.result != GameResult::Ongoing
    }

    /// Checks that `piece` belongs to the player whose turn it is.
    ///
    /// Returns the piece itself if it does, and an error message if it
    /// belongs to the opponent.
    pub fn color_check(&self, piece: Piece) -> (checked: Result<Piece, &'static str>)
        ensures
            piece.owner() == self.to_move() ==> checked == Ok::<Piece, &'static str>(piece),
            piece.owner() != self.to_move() ==> (checked matches Err(message) && message@
                == "That piece does not belong to you."@),
    {
        let current_color = self.player_tracker();
        match piece {
            Piece::Pawn(c)
            | Piece::Rook(c)
            | Piece::Knight(c)
            | Piece::Bishop(c)
            | Piece::Queen(c)
            | Piece::King(c) => {
                if c == current_color {
                    Ok(piece)
                } else {
                    Err("That piece does not belong to you.")
                }
            },
        }
    }

    /// Selects the piece on `square` for the player whose turn it is.
    ///
    /// On success the piece is returned and remembered in `selected`. On an
    /// empty square, or on a piece of the opponent, an error message is
    /// returned and the game is left as it was.
    pub fn select_piece(&mut self, square: u8) -> (chosen: Result<Piece, &'static str>)
        requires
            square < 64,
        ensures
            final(self).position == old(self).position,
            final(self).turn == old(self).turn,
            final(self).result == old(self).result,
            match old(self).position@.piece_at(square as int) {
                Some(piece) => if piece.owner() == old(self).to_move() {
                    &&& chosen == Ok::<Piece, &'static str>(piece)
                    &&& final(self).selected == Some((piece, square))
                } else {
                    &&& chosen matches Err(message) && message@
                        == "You can only select your own pieces"@
                    &&& final(self).selected == old(self).selected
                },
                None => {
                    &&& chosen matches Err(message) && message@ == "No piece here"@
                    &&& final(self).selected == old(self).selected
                },
            },
    {
        match get_piece_at(&self.position, square) {
            Some(piece) => {
                if piece.color() != self.player_tracker() {
                    return Err("You can only select your own pieces");
                }
                self.selected = Some((piece, square));
                Ok(piece)
            },
            None => Err("No piece here"),
        }
    }
}

} // verus!
