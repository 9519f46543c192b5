//! Pseudo-legal move generation for each piece type.

use vstd::prelude::*;
use crate::bitboard::lemma_mask_test;
use crate::laws::{
    bishop_moves_have_clear_paths, knight_moves_are_l_shaped, queen_moves_have_clear_paths,
    rook_moves_have_clear_paths,
};
use crate::piece::{Color, Piece};
use crate::position::{
    Board, Position, file_of, lemma_square_coordinates, on_board, rank_of, square_at,
};
use crate::special_moves::{
    castling, castling_moves, is_pawn_promotion, promotions_of, reaches_last_rank,
    valid_pawn_promotions,
};

verus! {

/// A move of one piece from one square to another.
///
/// For a promotion `piece` is the piece the pawn turns into and
/// `promoted_from_pawn` is set; otherwise `piece` is the piece that moves.
#[derive(Debug, Clone, Copy, PartialEq, Eq, Structural)]
pub struct Move {
    pub from: u8,
    pub to: u8,
    pub piece: Piece,
    pub promoted_from_pawn: bool,
}

impl Move {
    /// The piece that stands on the origin before the move: a pawn for a
    /// promotion, else the piece the move names.
    pub open spec fn mover(self) -> Piece {
        if self.promoted_from_pawn {
            Piece::Pawn(self.piece.owner())
        } else {
            self.piece
        }
    }
}

/// The move of `piece` from `from` to `to` that is no promotion.
pub open spec fn plain_move(from: int, to: int, piece: Piece) -> Move {
    Move { from: from as u8, to: to as u8, piece, promoted_from_pawn: false }
}

/// The moves of a piece that makes the single step `(dr, df)` in rank and
/// file: the step itself, unless it leaves the board or lands on a piece of
/// the mover's colour.
pub open spec fn step(board: Board, piece: Piece, from: int, dr: int, df: int) -> Seq<Move> {
    let rank = rank_of(from) + dr;
    let file = file_of(from) + df;
    if on_board(rank, file) && !board.occupied(piece.owner()).contains(square_at(rank, file)) {
        seq![plain_move(from, square_at(rank, file), piece)]
    } else {
        Seq::empty()
    }
}

/// The steps of `jumps` taken in order, each as [`step`] has it.
pub open spec fn steps(board: Board, piece: Piece, from: int, jumps: Seq<(int, int)>) -> Seq<Move>
    decreases jumps.len(),
{
    if jumps.len() == 0 {
        Seq::empty()
    } else {
        steps(board, piece, from, jumps.drop_last()) + step(
            board,
            piece,
            from,
            jumps.last().0,
            jumps.last().1,
        )
    }
}

/// The moves along one ray, continued from the square `(rank, file)` in
/// direction `(dr, df)` for at most `reach` squares. The ray passes over
/// empty squares, ends before a piece of the mover's colour, and ends on a
/// piece of the other colour, which it captures.
pub open spec fn ray(
    board: Board,
    piece: Piece,
    origin: int,
    rank: int,
    file: int,
    dr: int,
    df: int,
    reach: nat,
) -> Seq<Move>
    decreases reach,
{
    let r = rank + dr;
    let f = file + df;
    let target = square_at(r, f);
    if reach == 0 || !on_board(r, f) || board.occupied(piece.owner()).contains(target) {
        Seq::empty()
    } else if board.occupied(piece.owner().opponent()).contains(target) {
        seq![plain_move(origin, target, piece)]
    } else {
        seq![plain_move(origin, target, piece)] + ray(
            board,
            piece,
            origin,
            r,
            f,
            dr,
            df,
            (reach - 1) as nat,
        )
    }
}

/// The moves of a sliding piece from `from` in direction `(dr, df)`, nearest
/// square first.
pub open spec fn slide(board: Board, piece: Piece, from: int, dr: int, df: int) -> Seq<Move> {
    ray(board, piece, from, rank_of(from), file_of(from), dr, df, 7)
}

/// The eight knight jumps as rank and file steps, in the order they are tried.
pub open spec fn knight_jumps() -> Seq<(int, int)> {
    seq![(2, 1), (2, -1), (1, 2), (1, -2), (-2, -1), (-2, 1), (-1, -2), (-1, 2)]
}

/// The pseudo-legal moves of a knight on `from`.
pub open spec fn knight_moves(board: Board, piece: Piece, from: int) -> Seq<Move> {
    steps(board, piece, from, knight_jumps())
}

/// The eight king steps as rank and file steps, in the order they are tried.
pub open spec fn king_jumps() -> Seq<(int, int)> {
    seq![(0, 1), (0, -1), (1, 0), (-1, 0), (1, -1), (-1, 1), (1, 1), (-1, -1)]
}

/// The pseudo-legal moves of a king on `from`: its single steps, followed by
/// the castling moves open to it.
pub open spec fn king_moves(board: Board, piece: Piece, from: int) -> Seq<Move> {
    steps(board, piece, from, king_jumps()) + castling(board, piece, from)
}

/// The pseudo-legal moves of a rook on `from`: the rays towards the h-file,
/// the eighth rank, the a-file and the first rank, in that order.
pub open spec fn rook_moves(board: Board, piece: Piece, from: int) -> Seq<Move> {
    slide(board, piece, from, 0, 1) + slide(board, piece, from, 1, 0) + slide(
        board,
        piece,
        from,
        0,
        -1,
    ) + slide(board, piece, from, -1, 0)
}

/// The pseudo-legal moves of a bishop on `from`: the four diagonal rays, up
/// and towards the a-file first, down and towards the a-file last.
pub open spec fn bishop_moves(board: Board, piece: Piece, from: int) -> Seq<Move> {
    slide(board, piece, from, 1, -1) + slide(board, piece, from, 1, 1) + slide(
        board,
        piece,
        from,
        -1,
        1,
    ) + slide(board, piece, from, -1, -1)
}

/// The pseudo-legal moves of a queen on `from`: those of a rook, followed by
/// those of a bishop.
pub open spec fn queen_moves(board: Board, piece: Piece, from: int) -> Seq<Move> {
    rook_moves(board, piece, from) + bishop_moves(board, piece, from)
}

/// The direction in which pawns of `color` advance, as a rank step.
pub open spec fn forward(color: Color) -> int {
    match color {
        Color::White => 1,
        Color::Black => -1,
    }
}

/// The rank on which pawns of `color` start, counted from 0.
pub open spec fn home_rank(color: Color) -> int {
    match color {
        Color::White => 1,
        Color::Black => 6,
    }
}

/// The promotion of a pawn that moves from `from` to `to` into `piece`.
pub open spec fn promotion_move(from: int, to: int, piece: Piece) -> Move {
    Move { from: from as u8, to: to as u8, piece, promoted_from_pawn: true }
}

/// The moves by which the pawn `piece` arrives on `to`: the four promotions
/// if `to` lies on its last rank, the plain move otherwise.
pub open spec fn arrival(from: int, to: int, piece: Piece) -> Seq<Move> {
    if reaches_last_rank(to, piece) {
        Seq::new(
            promotions_of(piece).len(),
            |i: int| promotion_move(from, to, promotions_of(piece)[i]),
        )
    } else {
        seq![plain_move(from, to, piece)]
    }
}

/// The advances of a pawn of `color` on `from`: one square forward if that
/// square is empty, and after it two squares forward if the pawn stands on
/// its home rank and the second square is empty as well.
pub open spec fn pawn_pushes(board: Board, color: Color, from: int) -> Seq<Move> {
    let rank = rank_of(from) + forward(color);
    let one = square_at(rank, file_of(from));
    let two = square_at(rank + forward(color), file_of(from));
    if on_board(rank, file_of(from)) && board.vacant(one) {
        arrival(from, one, Piece::Pawn(color)) + (if rank_of(from) == home_rank(color)
            && board.vacant(two) {
            seq![plain_move(from, two, Piece::Pawn(color))]
        } else {
            Seq::empty()
        })
    } else {
        Seq::empty()
    }
}

/// The capture of a pawn of `color` on `from` towards the file `df` steps
/// away: made if the square diagonally ahead is on the board and either
/// holds a piece of the other colour or is the en-passant target.
pub open spec fn pawn_capture(board: Board, color: Color, from: int, df: int) -> Seq<Move> {
    let rank = rank_of(from) + forward(color);
    let file = file_of(from) + df;
    let target = square_at(rank, file);
    if on_board(rank, file) && (board.occupied(color.opponent()).contains(target)
        || board.en_passant == Some(target as u8)) {
        arrival(from, target, Piece::Pawn(color))
    } else {
        Seq::empty()
    }
}

/// The pseudo-legal moves of a pawn on `from`: its advances, the capture
/// towards the a-file, and the capture towards the h-file. A piece that is
/// no pawn has none.
pub open spec fn pawn_moves(board: Board, piece: Piece, from: int) -> Seq<Move> {
    match piece {
        Piece::Pawn(color) => pawn_pushes(board, color, from) + pawn_capture(
            board,
            color,
            from,
            -1,
        ) + pawn_capture(board, color, from, 1),
        _ => Seq::empty(),
    }
}

/// The pseudo-legal moves of `piece` standing on `from`: every move that
/// obeys the piece's geometry and the occupancy of the board, whether or not
/// it leaves the mover's king attacked.
#[verifier::opaque]
pub open spec fn pseudo_legal_moves(board: Board, piece: Piece, from: int) -> Seq<Move> {
    match piece {
        Piece::Knight(_) => knight_moves(board, piece, from),
        Piece::Pawn(_) => pawn_moves(board, piece, from),
        Piece::Bishop(_) => bishop_moves(board, piece, from),
        Piece::Rook(_) => rook_moves(board, piece, from),
        Piece::Queen(_) => queen_moves(board, piece, from),
        Piece::King(_) => king_moves(board, piece, from),
    }
}

/// Rank step of a compass offset between neighbouring squares.
pub open spec fn rank_step(dir: int) -> int {
    if dir == 7 || dir == 8 || dir == 9 {
        1
    } else if dir == -7 || dir == -8 || dir == -9 {
        -1
    } else {
        0
    }
}

/// File step of a compass offset between neighbouring squares.
pub open spec fn file_step(dir: int) -> int {
    if dir == 1 || dir == 9 || dir == -7 {
        1
    } else if dir == -1 || dir == -9 || dir == 7 {
        -1
    } else {
        0
    }
}

/// The eight offsets between a square and its neighbours.
pub open spec fn is_compass(dir: int) -> bool {
    dir == 1 || dir == -1 || dir == 8 || dir == -8 || dir == 7 || dir == -7 || dir == 9 || dir
        == -9
}

/// `k` unit steps of `d`, where `d` is -1, 0 or 1.
pub open spec fn scale(k: int, d: int) -> int {
    if d == 1 {
        k
    } else if d == -1 {
        -k
    } else {
        0
    }
}

/// Distance between two numbers.
pub open spec fn distance(a: int, b: int) -> int {
    if a >= b {
        a - b
    } else {
        b - a
    }
}

/// Whether `to` lies a knight's jump from `from`: one rank and two files, or
/// two ranks and one file, away.
pub open spec fn l_shaped(from: int, to: int) -> bool {
    let files = distance(file_of(to), file_of(from));
    let ranks = distance(rank_of(to), rank_of(from));
    &&& files == 1 || files == 2
    &&& ranks == 1 || ranks == 2
    &&& files + ranks == 3
}

/// The rank and file steps of the eight directions a sliding piece may take.
pub open spec fn is_direction(dr: int, df: int) -> bool {
    -1 <= dr <= 1 && -1 <= df <= 1 && (dr != 0 || df != 0)
}

/// What holds of a move that slides `n` squares from `from` in direction
/// `(dr, df)`: it ends on the board, every square strictly between origin
/// and destination is empty, and the destination holds no piece of the
/// mover's colour, so it is empty or held by the other side.
pub open spec fn slides_freely(
    board: Board,
    piece: Piece,
    from: int,
    m: Move,
    dr: int,
    df: int,
    n: int,
) -> bool {
    let rank = rank_of(from);
    let file = file_of(from);
    &&& is_direction(dr, df)
    &&& 1 <= n <= 7
    &&& on_board(rank + scale(n, dr), file + scale(n, df))
    &&& m == plain_move(from, square_at(rank + scale(n, dr), file + scale(n, df)), piece)
    &&& forall|j: int|
        1 <= j < n ==> board.vacant(#[trigger] square_at(rank + scale(j, dr), file + scale(j, df)))
    &&& !board.occupied(piece.owner()).contains(m.to as int)
    &&& board.vacant(m.to as int) || board.occupied(piece.owner().opponent()).contains(m.to as int)
}

/// Whether `m` slides from `from` along a straight line over empty squares
/// only, onto a square that is empty or held by the other side.
pub open spec fn has_clear_path(board: Board, piece: Piece, from: int, m: Move) -> bool {
    exists|dr: int, df: int, n: int| slides_freely(board, piece, from, m, dr, df, n)
}

/// Absolute difference of two small numbers.
fn gap(a: u8, b: u8) -> (d: u8)
    ensures
        d == if a >= b { a - b } else { b - a },
{
    if a >= b {
        a - b
    } else {
        b - a
    }
}

/// Returns the index of the piece's own side and that of the other side.
pub fn piece_indexes(piece: Piece) -> (indexes: (usize, usize))
    ensures
        indexes.0 == piece.owner().side(),
        indexes.1 == piece.owner().opponent().side(),
{
    match piece {
        Piece::Bishop(Color::White)
        | Piece::Knight(Color::White)
        | Piece::Pawn(Color::White)
        | Piece::Rook(Color::White)
        | Piece::Queen(Color::White)
        | Piece::King(Color::White) => (0, 1),
        Piece::Bishop(Color::Black)
        | Piece::Knight(Color::Black)
        | Piece::Pawn(Color::Black)
        | Piece::Rook(Color::Black)
        | Piece::Queen(Color::Black)
        | Piece::King(Color::Black) => (1, 0),
    }
}

/// Adding a jump to a list of jumps appends its step to the moves.
pub proof fn lemma_steps_extend(
    board: Board,
    piece: Piece,
    from: int,
    jumps: Seq<(int, int)>,
    n: int,
)
    requires
        0 <= n < jumps.len(),
    ensures
        steps(board, piece, from, jumps.take(n + 1)) == steps(board, piece, from, jumps.take(n))
            + step(board, piece, from, jumps[n].0, jumps[n].1),
{
    assert(jumps.take(n + 1).drop_last() =~= jumps.take(n));
}

/// A knight's offset of 8 * dr + df squares stays within two ranks and two
/// files of its origin exactly when the jump `(dr, df)` stays on the board.
proof fn lemma_knight_guard(from: int, dr: int, df: int)
    requires
        0 <= from < 64,
        (dr == 2 || dr == -2) && (df == 1 || df == -1) || (dr == 1 || dr == -1) && (df == 2 || df
            == -2),
    ensures
        ({
            let target = from + 8 * dr + df;
            let near = -2 <= file_of(from) - file_of(target) <= 2 && -2 <= rank_of(from) - rank_of(
                target,
            ) <= 2;
            &&& (0 <= target <= 63 && near) <==> on_board(rank_of(from) + dr, file_of(from) + df)
            &&& on_board(rank_of(from) + dr, file_of(from) + df) ==> target == square_at(
                rank_of(from) + dr,
                file_of(from) + df,
            )
        }),
{
}

/// Returns the pseudo-legal moves of the knight `piece` standing on `from`:
/// each of the eight jumps that stays on the board and does not land on a
/// piece of its own colour, in the fixed order of [`knight_jumps`].
pub fn valid_knight_moves(from: u8, piece: Piece, position: &Position) -> (moves: Vec<Move>)
    requires
        from < 64,
    ensures
        moves@ == knight_moves(position@, piece, from as int),
        forall|i: int|
            0 <= i < moves@.len() ==> l_shaped(from as int, (#[trigger] moves@[i]).to as int),
{
    let knight_offsets: [i8; 8] = [17, 15, 10, 6, -17, -15, -10, -6];
    let mut moves: Vec<Move> = Vec::new();
    let from_column: u8 = from % 8;
    let from_row: u8 = from / 8;
    let (side_index, _enemy_index) = piece_indexes(piece);
    let mut i: usize = 0;
    while i < 8
        invariant
            i <= 8,
            from < 64,
            from_column == from % 8,
            from_row == from / 8,
            side_index == piece.owner().side(),
            forall|j: int|
                0 <= j < 8 ==> knight_offsets[j] == 8 * (#[trigger] knight_jumps()[j]).0
                    + knight_jumps()[j].1,
            moves@ == steps(position@, piece, from as int, knight_jumps().take(i as int)),
        decreases 8 - i,
    {
        let offset: i8 = knight_offsets[i];
        let target: i8 = from as i8 + offset;
        proof {
            let jump = knight_jumps()[i as int];
            lemma_knight_guard(from as int, jump.0, jump.1);
            lemma_steps_extend(position@, piece, from as int, knight_jumps(), i as int);
        }
        if target >= 0 && target <= 63 {
            let square: u8 = target as u8;
            let target_column: u8 = square % 8;
            let target_row: u8 = square / 8;
            // a knight never moves more than two squares in one direction
            if gap(from_column, target_column) <= 2 && gap(from_row, target_row) <= 2 {
                let spotlight: u64 = 1u64 << square;
                proof {
                    lemma_mask_test(position.bb_sides[side_index as int].0, square as u64);
                }
                // it cannot land on a piece of its own side
                if (position.bb_sides[side_index].0 & spotlight) == 0 {
                    moves.push(Move { from, to: square, piece, promoted_from_pawn: false });
                }
            }
        }
        i += 1;
    }
    proof {
        assert(knight_jumps().take(8) =~= knight_jumps());
        assert forall|i: int| 0 <= i < moves@.len() implies l_shaped(
            from as int,
            (#[trigger] moves@[i]).to as int,
        ) by {
            knight_moves_are_l_shaped(position@, piece, from as int, moves@[i]);
        }
    }
    moves
}

/// A king's offset of 8 * dr + df squares passes the wrap guards exactly
/// when the step `(dr, df)` stays on the board.
proof fn lemma_king_guard(from: int, dr: int, df: int)
    requires
        0 <= from < 64,
        -1 <= dr <= 1,
        -1 <= df <= 1,
        dr != 0 || df != 0,
    ensures
        ({
            let target = from + 8 * dr + df;
            let rows = rank_of(target) - rank_of(from);
            let cols = file_of(target) - file_of(from);
            let same_row = dr == 0 ==> rows == 0;
            let diagonal = dr != 0 && df != 0 ==> (rows == cols || rows == -cols);
            &&& (0 <= target <= 63 && same_row && diagonal) <==> on_board(
                rank_of(from) + dr,
                file_of(from) + df,
            )
            &&& on_board(rank_of(from) + dr, file_of(from) + df) ==> target == square_at(
                rank_of(from) + dr,
                file_of(from) + df,
            )
        }),
{
}

/// Returns the pseudo-legal moves of the king `piece` standing on `from`:
/// each single step that stays on the board and does not land on a piece of
/// its own colour, in the fixed order of [`king_jumps`], followed by the
/// castling moves open to it. Moves onto attacked squares are included.
pub fn valid_king_moves(from: u8, piece: Piece, position: &Position) -> (moves: Vec<Move>)
    requires
        from < 64,
    ensures
        moves@ == king_moves(position@, piece, from as int),
{
    let mut moves: Vec<Move> = Vec::new();
    let (own_index, _enemy_index) = piece_indexes(piece);
    let directions: [i8; 8] = [1, -1, 8, -8, 7, -7, 9, -9];
    let from_row: u8 = from / 8;
    let from_col: u8 = from % 8;
    let mut i: usize = 0;
    while i < 8
        invariant
            i <= 8,
            from < 64,
            from_col == from % 8,
            from_row == from / 8,
            own_index == piece.owner().side(),
            forall|j: int|
                0 <= j < 8 ==> directions[j] == 8 * (#[trigger] king_jumps()[j]).0
                    + king_jumps()[j].1,
            moves@ == steps(position@, piece, from as int, king_jumps().take(i as int)),
        decreases 8 - i,
    {
        let dir: i8 = directions[i];
        let target: i8 = from as i8 + dir;
        proof {
            let jump = king_jumps()[i as int];
            lemma_king_guard(from as int, jump.0, jump.1);
            lemma_steps_extend(position@, piece, from as int, king_jumps(), i as int);
        }
        if target >= 0 && target <= 63 {
            let square: u8 = target as u8;
            let target_row: u8 = square / 8;
            let target_col: u8 = square % 8;
            let wrapped: bool = if dir == 1 || dir == -1 {
                // must stay in the same row
                target_row != from_row
            } else if dir == 7 || dir == -7 || dir == 9 || dir == -9 {
                // must stay on the diagonal
                gap(target_row, from_row) != gap(target_col, from_col)
            } else {
                false
            };
            if !wrapped {
                let spotlight: u64 = 1u64 << square;
                proof {
                    lemma_mask_test(position.bb_sides[own_index as int].0, square as u64);
                }
                // cannot land on a piece of its own side
                if (position.bb_sides[own_index].0 & spotlight) == 0 {
                    moves.push(Move { from, to: square, piece, promoted_from_pawn: false });
                }
            }
        }
        i += 1;
    }
    proof {
        assert(king_jumps().take(8) =~= king_jumps());
    }
    let mut castles = castling_moves(from, piece, position);
    moves.append(&mut castles);
    moves
}

/// One more square along a ray: the offset `dir` added to the square at
/// `(rank, file)`, which lies `k` steps from `from`, passes the wrap guards
/// exactly when the next square of the ray is on the board.
proof fn lemma_ray_guard(from: int, rank: int, file: int, dir: int, k: int)
    requires
        0 <= from < 64,
        on_board(rank, file),
        is_compass(dir),
        0 <= k,
        rank == rank_of(from) + scale(k, rank_step(dir)),
        file == file_of(from) + scale(k, file_step(dir)),
    ensures
        ({
            let dr = rank_step(dir);
            let df = file_step(dir);
            let target = square_at(rank, file) + dir;
            let rows = rank_of(target) - rank_of(from);
            let cols = file_of(target) - file_of(from);
            let same_row = dr == 0 ==> rows == 0;
            let diagonal = dr != 0 && df != 0 ==> (rows == cols || rows == -cols);
            &&& (0 <= target <= 63 && same_row && diagonal) <==> on_board(rank + dr, file + df)
            &&& on_board(rank + dr, file + df) ==> target == square_at(rank + dr, file + df)
                && rank_of(target) == rank + dr && file_of(target) == file + df && k < 7
        }),
{
}

/// Appends to `moves` the moves of the sliding piece `piece` from `from`
/// along the ray whose neighbouring squares lie `dir` apart.
fn slide_along(from: u8, piece: Piece, position: &Position, dir: i8, moves: &mut Vec<Move>)
    requires
        from < 64,
        is_compass(dir as int),
    ensures
        final(moves)@ == old(moves)@ + slide(
            position@,
            piece,
            from as int,
            rank_step(dir as int),
            file_step(dir as int),
        ),
{
    let (friendly_index, enemy_index) = piece_indexes(piece);
    let from_row: u8 = from / 8;
    let from_col: u8 = from % 8;
    let mut target: i8 = from as i8;
    let ghost dr = rank_step(dir as int);
    let ghost df = file_step(dir as int);
    let ghost all = old(moves)@ + slide(position@, piece, from as int, dr, df);
    let ghost mut k: int = 0;
    let ghost mut rank: int = rank_of(from as int);
    let ghost mut file: int = file_of(from as int);
    loop
        invariant_except_break
            0 <= k <= 7,
            on_board(rank, file),
            target == square_at(rank, file),
            rank == rank_of(from as int) + scale(k, dr),
            file == file_of(from as int) + scale(k, df),
            all == moves@ + ray(position@, piece, from as int, rank, file, dr, df, (7 - k) as nat),
        invariant
            from < 64,
            is_compass(dir as int),
            dr == rank_step(dir as int),
            df == file_step(dir as int),
            from_row == rank_of(from as int),
            from_col == file_of(from as int),
            friendly_index == piece.owner().side(),
            enemy_index == piece.owner().opponent().side(),
        ensures
            moves@ == all,
        decreases 7 - k,
    {
        proof {
            lemma_ray_guard(from as int, rank, file, dir as int, k);
        }
        target = target + dir;
        if target < 0 || target > 63 {
            break ;
        }
        let square: u8 = target as u8;
        let target_row: u8 = square / 8;
        let target_col: u8 = square % 8;
        if dir == 1 || dir == -1 {
            // left the rank
            if target_row != from_row {
                break ;
            }
        } else if dir != 8 && dir != -8 {
            // left the diagonal
            if gap(target_row, from_row) != gap(target_col, from_col) {
                break ;
            }
        }
        let spotlight: u64 = 1u64 << square;
        proof {
            lemma_mask_test(position.bb_sides[friendly_index as int].0, square as u64);
            lemma_mask_test(position.bb_sides[enemy_index as int].0, square as u64);
        }
        // a piece of its own side stops the ray
        if (position.bb_sides[friendly_index].0 & spotlight) != 0 {
            break ;
        }
        // a piece of the other side is captured and stops the ray
        if (position.bb_sides[enemy_index].0 & spotlight) != 0 {
            moves.push(Move { from, to: square, piece, promoted_from_pawn: false });
            break ;
        }
        moves.push(Move { from, to: square, piece, promoted_from_pawn: false });
        proof {
            k = k + 1;
            rank = rank + dr;
            file = file + df;
        }
    }
}

/// Returns the pseudo-legal moves of the bishop `piece` standing on `from`:
/// along each diagonal every empty square up to the first piece, and that
/// piece's square too if it belongs to the other side. Directions are walked
/// in the order +7, +9, -7, -9, each from the nearest square outwards.
pub fn valid_bishop_moves(from: u8, piece: Piece, position: &Position) -> (moves: Vec<Move>)
    requires
        from < 64,
    ensures
        moves@ == bishop_moves(position@, piece, from as int),
        forall|i: int|
            0 <= i < moves@.len() ==> has_clear_path(
                position@,
                piece,
                from as int,
                #[trigger] moves@[i],
            ),
{
    let mut moves: Vec<Move> = Vec::new();
    slide_along(from, piece, position, 7, &mut moves);
    slide_along(from, piece, position, 9, &mut moves);
    slide_along(from, piece, position, -7, &mut moves);
    slide_along(from, piece, position, -9, &mut moves);
    proof {
        assert forall|i: int| 0 <= i < moves@.len() implies has_clear_path(
            position@,
            piece,
            from as int,
            #[trigger] moves@[i],
        ) by {
            bishop_moves_have_clear_paths(position@, piece, from as int, moves@[i]);
        }
    }
    moves
}

/// Returns the pseudo-legal moves of the rook `piece` standing on `from`:
/// along its rank and its file every empty square up to the first piece, and
/// that piece's square too if it belongs to the other side. Directions are
/// walked in the order +1, +8, -1, -8, each from the nearest square outwards.
pub fn valid_rook_moves(from: u8, piece: Piece, position: &Position) -> (moves: Vec<Move>)
    requires
        from < 64,
    ensures
        moves@ == rook_moves(position@, piece, from as int),
        forall|i: int|
            0 <= i < moves@.len() ==> has_clear_path(
                position@,
                piece,
                from as int,
                #[trigger] moves@[i],
            ),
{
    let mut moves: Vec<Move> = Vec::new();
    slide_along(from, piece, position, 1, &mut moves);
    slide_along(from, piece, position, 8, &mut moves);
    slide_along(from, piece, position, -1, &mut moves);
    slide_along(from, piece, position, -8, &mut moves);
    proof {
        assert forall|i: int| 0 <= i < moves@.len() implies has_clear_path(
            position@,
            piece,
            from as int,
            #[trigger] moves@[i],
        ) by {
            rook_moves_have_clear_paths(position@, piece, from as int, moves@[i]);
        }
    }
    moves
}

/// Returns the pseudo-legal moves of the queen `piece` standing on `from`:
/// the moves of a rook followed by those of a bishop.
pub fn valid_queen_moves(from: u8, piece: Piece, position: &Position) -> (moves: Vec<Move>)
    requires
        from < 64,
    ensures
        moves@ == queen_moves(position@, piece, from as int),
        forall|i: int|
            0 <= i < moves@.len() ==> has_clear_path(
                position@,
                piece,
                from as int,
                #[trigger] moves@[i],
            ),
{
    let mut moves = valid_rook_moves(from, piece, position);
    let mut diagonal = valid_bishop_moves(from, piece, position);
    moves.append(&mut diagonal);
    proof {
        assert forall|i: int| 0 <= i < moves@.len() implies has_clear_path(
            position@,
            piece,
            from as int,
            #[trigger] moves@[i],
        ) by {
            queen_moves_have_clear_paths(position@, piece, from as int, moves@[i]);
        }
    }
    moves
}

/// Appends to `moves` the moves by which the pawn `piece` arrives on `to`.
fn push_arrival(from: u8, to: u8, piece: Piece, moves: &mut Vec<Move>)
    ensures
        final(moves)@ == old(moves)@ + arrival(from as int, to as int, piece),
{
    if is_pawn_promotion(to, piece) {
        let choices = valid_pawn_promotions(piece);
        let mut i: usize = 0;
        while i < choices.len()
            invariant
                i <= choices.len(),
                choices@ == promotions_of(piece),
                reaches_last_rank(to as int, piece),
                moves@ == old(moves)@ + arrival(from as int, to as int, piece).take(i as int),
            decreases choices.len() - i,
        {
            moves.push(Move { from, to, piece: choices[i], promoted_from_pawn: true });
            proof {
                let whole = arrival(from as int, to as int, piece);
                assert(whole.take(i + 1) =~= whole.take(i as int).push(whole[i as int]));
            }
            i += 1;
        }
        proof {
            let whole = arrival(from as int, to as int, piece);
            assert(whole.take(choices.len() as int) =~= whole);
        }
    } else {
        moves.push(Move { from, to, piece, promoted_from_pawn: false });
    }
}

/// A pawn's diagonal offset passes the wrap guard exactly when the square
/// diagonally ahead is on the board.
proof fn lemma_pawn_guard(from: int, fwd: int, df: int)
    requires
        0 <= from < 64,
        fwd == 1 || fwd == -1,
        df == 1 || df == -1,
    ensures
        ({
            let target = from + 8 * fwd + df;
            let cols = file_of(target) - file_of(from);
            &&& (0 <= target <= 63 && (cols == 1 || cols == -1)) <==> on_board(
                rank_of(from) + fwd,
                file_of(from) + df,
            )
            &&& on_board(rank_of(from) + fwd, file_of(from) + df) ==> target == square_at(
                rank_of(from) + fwd,
                file_of(from) + df,
            )
        }),
{
}

/// Appends to `moves` the capture of the pawn of `color` on `from` towards the
/// square `diag` away, if that capture can be made.
fn capture_toward(
    from: u8,
    color: Color,
    position: &Position,
    diag: i8,
    moves: &mut Vec<Move>,
)
    requires
        from < 64,
        diag == 8 * forward(color) + 1 || diag == 8 * forward(color) - 1,
    ensures
        final(moves)@ == old(moves)@ + pawn_capture(
            position@,
            color,
            from as int,
            diag - 8 * forward(color),
        ),
{
    let piece = Piece::Pawn(color);
    let (_friendly_index, enemy_index) = piece_indexes(piece);
    let from_col: u8 = from % 8;
    let target: i8 = from as i8 + diag;
    proof {
        lemma_pawn_guard(from as int, forward(color), diag - 8 * forward(color));
    }
    if target < 0 || target > 63 {
        return ;
    }
    let square: u8 = target as u8;
    let target_col: u8 = square % 8;
    // cannot wrap around the edge of the board
    if gap(target_col, from_col) != 1 {
        return ;
    }
    let spotlight: u64 = 1u64 << square;
    proof {
        lemma_mask_test(position.bb_sides[enemy_index as int].0, square as u64);
    }
    let en_passant: bool = match position.en_passant {
        Some(ep_square) => ep_square == square,
        None => false,
    };
    if (position.bb_sides[enemy_index].0 & spotlight) != 0 || en_passant {
        push_arrival(from, square, piece, moves);
    }
}

/// Returns the pseudo-legal moves of the pawn `piece` standing on `from`.
///
/// First the advance by one square onto an empty square, then the advance by
/// two from the home rank over and onto empty squares, then the diagonal
/// captures, towards the a-file first: onto a piece of the other side or
/// onto the en-passant target. A move that reaches the last rank is given
/// four times, once for each piece the pawn may turn into, and never as a
/// plain pawn move. A piece that is no pawn has no such moves.
pub fn valid_pawn_moves(from: u8, piece: Piece, position: &Position) -> (moves: Vec<Move>)
    requires
        from < 64,
    ensures
        moves@ == pawn_moves(position@, piece, from as int),
{
    let mut moves: Vec<Move> = Vec::new();
    let color = match piece {
        Piece::Pawn(color) => color,
        _ => {
            return moves;
        },
    };
    let dir: i8 = match color {
        Color::White => 8,  // white moves up
        Color::Black => -8,  // black moves down
    };
    let start_row: u8 = match color {
        Color::White => 1,
        Color::Black => 6,
    };
    let from_row: u8 = from / 8;
    let forward1: i8 = from as i8 + dir;
    if forward1 >= 0 && forward1 < 64 {
        let one: u8 = forward1 as u8;
        let spotlight: u64 = 1u64 << one;
        proof {
            lemma_mask_test(position.bb_sides[0].0, one as u64);
            lemma_mask_test(position.bb_sides[1].0, one as u64);
        }
        if (position.bb_sides[0].0 & spotlight) == 0 && (position.bb_sides[1].0 & spotlight) == 0 {
            push_arrival(from, one, piece, &mut moves);
            // two squares forward from the starting row
            if from_row == start_row {
                let forward2: i8 = forward1 + dir;
                if forward2 >= 0 && forward2 < 64 {
                    let two: u8 = forward2 as u8;
                    let spotlight2: u64 = 1u64 << two;
                    proof {
                        lemma_mask_test(position.bb_sides[0].0, two as u64);
                        lemma_mask_test(position.bb_sides[1].0, two as u64);
                    }
                    if (position.bb_sides[0].0 & spotlight2) == 0 && (position.bb_sides[1].0
                        & spotlight2) == 0 {
                        moves.push(Move { from, to: two, piece, promoted_from_pawn: false });
                    }
                }
            }
        }
    }
    assert(moves@ =~= pawn_pushes(position@, color, from as int));
    // captures
    capture_toward(from, color, position, dir - 1, &mut moves);
    capture_toward(from, color, position, dir + 1, &mut moves);
    moves
}

/// Returns every pseudo-legal move of `piece` standing on `from`, in the
/// order in which the generator of its piece type finds them.
pub fn valid_moves(from: u8, piece: Piece, position: &Position) -> (moves: Vec<Move>)
    requires
        from < 64,
    ensures
        moves@ == pseudo_legal_moves(position@, piece, from as int),
{
    proof {
        reveal(pseudo_legal_moves);
    }
    match piece {
        Piece::Knight(_) => valid_knight_moves(from, piece, position),
        Piece::Pawn(_) => valid_pawn_moves(from, piece, position),
        Piece::Bishop(_) => valid_bishop_moves(from, piece, position),
        Piece::Rook(_) => valid_rook_moves(from, piece, position),
        Piece::Queen(_) => valid_queen_moves(from, piece, position),
        Piece::King(_) => valid_king_moves(from, piece, position),
    }
}

/// Every move of `moves` starts on `from` and ends on the board.
pub open spec fn all_from(moves: Seq<Move>, from: int) -> bool {
    forall|i: int| 0 <= i < moves.len() ==> (#[trigger] moves[i]).from == from && moves[i].to < 64
}

proof fn lemma_steps_from(board: Board, piece: Piece, from: int, jumps: Seq<(int, int)>)
    requires
        0 <= from < 64,
    ensures
        all_from(steps(board, piece, from, jumps), from),
    decreases jumps.len(),
{
    if jumps.len() > 0 {
        lemma_steps_from(board, piece, from, jumps.drop_last());
    }
}

proof fn lemma_ray_from(
    board: Board,
    piece: Piece,
    origin: int,
    rank: int,
    file: int,
    dr: int,
    df: int,
    reach: nat,
)
    requires
        0 <= origin < 64,
    ensures
        all_from(ray(board, piece, origin, rank, file, dr, df, reach), origin),
    decreases reach,
{
    if reach > 0 {
        lemma_ray_from(board, piece, origin, rank + dr, file + df, dr, df, (reach - 1) as nat);
    }
}

proof fn lemma_slide_from(board: Board, piece: Piece, from: int, dr: int, df: int)
    requires
        0 <= from < 64,
    ensures
        all_from(slide(board, piece, from, dr, df), from),
{
    lemma_ray_from(board, piece, from, rank_of(from), file_of(from), dr, df, 7);
}

proof fn lemma_rook_from(board: Board, piece: Piece, from: int)
    requires
        0 <= from < 64,
    ensures
        all_from(rook_moves(board, piece, from), from),
{
    lemma_slide_from(board, piece, from, 0, 1);
    lemma_slide_from(board, piece, from, 1, 0);
    lemma_slide_from(board, piece, from, 0, -1);
    lemma_slide_from(board, piece, from, -1, 0);
}

proof fn lemma_bishop_from(board: Board, piece: Piece, from: int)
    requires
        0 <= from < 64,
    ensures
        all_from(bishop_moves(board, piece, from), from),
{
    lemma_slide_from(board, piece, from, 1, -1);
    lemma_slide_from(board, piece, from, 1, 1);
    lemma_slide_from(board, piece, from, -1, 1);
    lemma_slide_from(board, piece, from, -1, -1);
}

proof fn lemma_pawn_from(board: Board, color: Color, from: int)
    requires
        0 <= from < 64,
    ensures
        all_from(pawn_moves(board, Piece::Pawn(color), from), from),
{
    let rank = rank_of(from) + forward(color);
    if on_board(rank, file_of(from)) {
        lemma_square_coordinates(rank, file_of(from));
    }
    if on_board(rank, file_of(from) - 1) {
        lemma_square_coordinates(rank, file_of(from) - 1);
    }
    if on_board(rank, file_of(from) + 1) {
        lemma_square_coordinates(rank, file_of(from) + 1);
    }
}

/// Every pseudo-legal move of a piece on `from` starts on `from` and ends on
/// a square of the board.
pub proof fn lemma_moves_from(board: Board, piece: Piece, from: int)
    requires
        0 <= from < 64,
    ensures
        all_from(pseudo_legal_moves(board, piece, from), from),
{
    reveal(pseudo_legal_moves);
    match piece {
        Piece::Knight(_) => {
            lemma_steps_from(board, piece, from, knight_jumps());
        },
        Piece::King(_) => {
            lemma_steps_from(board, piece, from, king_jumps());
        },
        Piece::Rook(_) => {
            lemma_rook_from(board, piece, from);
        },
        Piece::Bishop(_) => {
            lemma_bishop_from(board, piece, from);
        },
        Piece::Queen(_) => {
            lemma_rook_from(board, piece, from);
            lemma_bishop_from(board, piece, from);
        },
        Piece::Pawn(color) => {
            lemma_pawn_from(board, color, from);
        },
    }
}

/// A move among the steps of `jumps` is the step of one of the jumps: the
/// lemma returns the index of such a jump.
pub proof fn lemma_steps_member(
    board: Board,
    piece: Piece,
    from: int,
    jumps: Seq<(int, int)>,
    m: Move,
) -> (j: int)
    requires
        steps(board, piece, from, jumps).contains(m),
    ensures
        0 <= j < jumps.len(),
        step(board, piece, from, jumps[j].0, jumps[j].1).contains(m),
    decreases jumps.len(),
{
    if jumps.len() == 0 {
        0
    } else {
        let earlier = steps(board, piece, from, jumps.drop_last());
        let last = step(board, piece, from, jumps.last().0, jumps.last().1);
        vstd::seq_lib::lemma_seq_concat_contains_all_elements(earlier, last, m);
        if last.contains(m) {
            jumps.len() - 1
        } else {
            lemma_steps_member(board, piece, from, jumps.drop_last(), m)
        }
    }
}

/// A move along a ray ends some `n` squares out, on the board; the squares
/// passed on the way are empty and the one it ends on holds no piece of the
/// mover's colour. The lemma returns `n`.
pub proof fn lemma_ray_member(
    board: Board,
    piece: Piece,
    origin: int,
    rank: int,
    file: int,
    dr: int,
    df: int,
    reach: nat,
    m: Move,
) -> (n: int)
    requires
        ray(board, piece, origin, rank, file, dr, df, reach).contains(m),
        -1 <= dr <= 1,
        -1 <= df <= 1,
    ensures
        1 <= n <= reach,
        on_board(rank + scale(n, dr), file + scale(n, df)),
        m == plain_move(origin, square_at(rank + scale(n, dr), file + scale(n, df)), piece),
        !board.occupied(piece.owner()).contains(
            square_at(rank + scale(n, dr), file + scale(n, df)),
        ),
        forall|j: int|
            1 <= j < n ==> board.vacant(
                #[trigger] square_at(rank + scale(j, dr), file + scale(j, df)),
            ),
    decreases reach,
{
    let r = rank + dr;
    let f = file + df;
    let target = square_at(r, f);
    let first = plain_move(origin, target, piece);
    if reach == 0 || !on_board(r, f) || board.occupied(piece.owner()).contains(target) {
        assert(false);
        1
    } else if m == first {
        1
    } else {
        let rest = ray(board, piece, origin, r, f, dr, df, (reach - 1) as nat);
        assert(!board.occupied(piece.owner().opponent()).contains(target)) by {
            if board.occupied(piece.owner().opponent()).contains(target) {
                assert(seq![first].contains(m));
            }
        }
        vstd::seq_lib::lemma_seq_concat_contains_all_elements(seq![first], rest, m);
        assert(rest.contains(m)) by {
            if seq![first].contains(m) {
                assert(seq![first][0] == m);
            }
        }
        let further = lemma_ray_member(board, piece, origin, r, f, dr, df, (reach - 1) as nat, m);
        let n = further + 1;
        assert forall|j: int| 1 <= j < n implies board.vacant(
            #[trigger] square_at(rank + scale(j, dr), file + scale(j, df)),
        ) by {
            if j == 1 {
                assert(board.vacant(target));
            } else {
                assert(square_at(rank + scale(j, dr), file + scale(j, df)) == square_at(
                    r + scale(j - 1, dr),
                    f + scale(j - 1, df),
                ));
            }
        }
        n
    }
}

} // verus!
