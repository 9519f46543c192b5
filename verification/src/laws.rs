//! What holds of the rules as a whole: the invariant of a position and how
//! moves keep it, the shape of generated moves, and the relation between
//! legal and pseudo-legal moves.

use vstd::prelude::*;
use crate::make_move::{
    all_legal_moves, castle_rook, changed_only_where_involved, commit, en_passant_victim,
    involved_squares, keeps_king_safe, landing_kind, legal_below, legal_of_kinds,
    moved_by_own_piece, mover_relocated, next_en_passant, origin_kind, played, pseudo_legal,
    rook_at_home, safe_moves,
};
use crate::moves::{
    Move, arrival, bishop_moves, distance, forward, home_rank, is_direction, king_jumps,
    knight_jumps,
    has_clear_path, knight_moves, l_shaped, lemma_moves_from, lemma_ray_member,
    lemma_steps_member, pawn_capture, pawn_moves,
    pawn_pushes, plain_move, pseudo_legal_moves, queen_moves, rook_moves, slide, slides_freely,
    step, steps,
};
use crate::piece::{Color, Piece};
use crate::bitboard::lemma_mask_determined;
use crate::helper::starting_board;
use crate::position::{
    Board, Position, file_of, lemma_captured_sound, lemma_lifted_sound, lemma_placed_sound,
    lemma_square_coordinates, rank_of, square_at, union_of,
};
use crate::special_moves::castling;

verus! {

/// A position is determined by its board: two positions whose masks hold
/// the same squares, with the same castling rights and en-passant target,
/// are equal mask for mask.
pub proof fn equal_boards_are_equal_positions(p: Position, q: Position)
    requires
        p@ == q@,
    ensures
        p == q,
{
    assert forall|s: int| 0 <= s < 2 implies p.bb_sides[s] == q.bb_sides[s] by {
        assert(p@.sides[s] == q@.sides[s]);
        lemma_mask_determined(p.bb_sides[s].0, q.bb_sides[s].0);
    }
    assert(p.bb_sides =~= q.bb_sides);
    assert forall|s: int| 0 <= s < 2 implies p.bb_pieces[s] == q.bb_pieces[s] by {
        assert forall|k: int| 0 <= k < 6 implies p.bb_pieces[s][k] == q.bb_pieces[s][k] by {
            assert(p@.pieces[s][k] == q@.pieces[s][k]);
            lemma_mask_determined(p.bb_pieces[s][k].0, q.bb_pieces[s][k].0);
        }
        assert(p.bb_pieces[s] =~= q.bb_pieces[s]);
    }
    assert(p.bb_pieces =~= q.bb_pieces);
}

/// The board at the start of a game is well-formed.
pub proof fn starting_board_is_well_formed()
    ensures
        starting_board().well_formed(),
{
    let start = starting_board();
    assert(start.sides[0] =~= union_of(start.pieces[0]));
    assert(start.sides[1] =~= union_of(start.pieces[1]));
}

/// Every pseudo-legal knight move is an L: one rank and two files, or two
/// ranks and one file, away from its origin.
pub proof fn knight_moves_are_l_shaped(board: Board, piece: Piece, from: int, m: Move)
    requires
        0 <= from < 64,
        knight_moves(board, piece, from).contains(m),
    ensures
        m.from == from,
        l_shaped(from, m.to as int),
{
    let j = lemma_steps_member(board, piece, from, knight_jumps(), m);
    let jump = knight_jumps()[j];
    let rank = rank_of(from) + jump.0;
    let file = file_of(from) + jump.1;
    let found = step(board, piece, from, jump.0, jump.1);
    assert(found.len() == 1 && found[0] == m);
    lemma_square_coordinates(rank, file);
    assert(distance(jump.0, 0) + distance(jump.1, 0) == 3);
}

proof fn lemma_slide_member(
    board: Board,
    piece: Piece,
    from: int,
    dr: int,
    df: int,
    m: Move,
) -> (n: int)
    requires
        0 <= from < 64,
        is_direction(dr, df),
        slide(board, piece, from, dr, df).contains(m),
    ensures
        slides_freely(board, piece, from, m, dr, df, n),
{
    lemma_ray_member(board, piece, from, rank_of(from), file_of(from), dr, df, 7, m)
}

/// Every move generated for a rook runs along a rank or a file over empty
/// squares only, onto a square that is empty or held by the other side. The
/// lemma returns the direction of the move and the number of squares covered.
pub proof fn rook_moves_have_clear_paths(
    board: Board,
    piece: Piece,
    from: int,
    m: Move,
) -> (path: (int, int, int))
    requires
        0 <= from < 64,
        rook_moves(board, piece, from).contains(m),
    ensures
        slides_freely(board, piece, from, m, path.0, path.1, path.2),
        has_clear_path(board, piece, from, m),
        path.0 == 0 || path.1 == 0,
{
    let east = slide(board, piece, from, 0, 1);
    let north = slide(board, piece, from, 1, 0);
    let west = slide(board, piece, from, 0, -1);
    let south = slide(board, piece, from, -1, 0);
    vstd::seq_lib::lemma_seq_concat_contains_all_elements(east + north + west, south, m);
    vstd::seq_lib::lemma_seq_concat_contains_all_elements(east + north, west, m);
    vstd::seq_lib::lemma_seq_concat_contains_all_elements(east, north, m);
    if east.contains(m) {
        (0, 1, lemma_slide_member(board, piece, from, 0, 1, m))
    } else if north.contains(m) {
        (1, 0, lemma_slide_member(board, piece, from, 1, 0, m))
    } else if west.contains(m) {
        (0, -1, lemma_slide_member(board, piece, from, 0, -1, m))
    } else {
        (-1, 0, lemma_slide_member(board, piece, from, -1, 0, m))
    }
}

/// Every move generated for a bishop runs along a diagonal over empty
/// squares only, onto a square that is empty or held by the other side. The
/// lemma returns the direction of the move and the number of squares covered.
pub proof fn bishop_moves_have_clear_paths(
    board: Board,
    piece: Piece,
    from: int,
    m: Move,
) -> (path: (int, int, int))
    requires
        0 <= from < 64,
        bishop_moves(board, piece, from).contains(m),
    ensures
        slides_freely(board, piece, from, m, path.0, path.1, path.2),
        has_clear_path(board, piece, from, m),
        path.0 != 0 && path.1 != 0,
{
    let a = slide(board, piece, from, 1, -1);
    let b = slide(board, piece, from, 1, 1);
    let c = slide(board, piece, from, -1, 1);
    let d = slide(board, piece, from, -1, -1);
    vstd::seq_lib::lemma_seq_concat_contains_all_elements(a + b + c, d, m);
    vstd::seq_lib::lemma_seq_concat_contains_all_elements(a + b, c, m);
    vstd::seq_lib::lemma_seq_concat_contains_all_elements(a, b, m);
    if a.contains(m) {
        (1, -1, lemma_slide_member(board, piece, from, 1, -1, m))
    } else if b.contains(m) {
        (1, 1, lemma_slide_member(board, piece, from, 1, 1, m))
    } else if c.contains(m) {
        (-1, 1, lemma_slide_member(board, piece, from, -1, 1, m))
    } else {
        (-1, -1, lemma_slide_member(board, piece, from, -1, -1, m))
    }
}

/// Every move generated for a queen runs along a rank, a file or a diagonal
/// over empty squares only, onto a square that is empty or held by the other
/// side. The lemma returns the direction of the move and the number of
/// squares covered.
pub proof fn queen_moves_have_clear_paths(
    board: Board,
    piece: Piece,
    from: int,
    m: Move,
) -> (path: (int, int, int))
    requires
        0 <= from < 64,
        queen_moves(board, piece, from).contains(m),
    ensures
        slides_freely(board, piece, from, m, path.0, path.1, path.2),
        has_clear_path(board, piece, from, m),
{
    vstd::seq_lib::lemma_seq_concat_contains_all_elements(
        rook_moves(board, piece, from),
        bishop_moves(board, piece, from),
        m,
    );
    if rook_moves(board, piece, from).contains(m) {
        rook_moves_have_clear_paths(board, piece, from, m)
    } else {
        bishop_moves_have_clear_paths(board, piece, from, m)
    }
}

/// Every pseudo-legal move of a rook, a bishop or a queen runs along a
/// straight line over empty squares only: each square strictly between its
/// origin and its destination is empty, and the destination is empty or held
/// by the other side. The lemma returns the direction `(dr, df)` of the move
/// and the number of squares it covers.
pub proof fn sliding_moves_have_clear_paths(
    board: Board,
    piece: Piece,
    from: int,
    m: Move,
) -> (path: (int, int, int))
    requires
        0 <= from < 64,
        piece is Rook || piece is Bishop || piece is Queen,
        pseudo_legal_moves(board, piece, from).contains(m),
    ensures
        slides_freely(board, piece, from, m, path.0, path.1, path.2),
        has_clear_path(board, piece, from, m),
        piece is Rook ==> path.0 == 0 || path.1 == 0,
        piece is Bishop ==> path.0 != 0 && path.1 != 0,
{
    reveal(pseudo_legal_moves);
    match piece {
        Piece::Rook(_) => rook_moves_have_clear_paths(board, piece, from, m),
        Piece::Bishop(_) => bishop_moves_have_clear_paths(board, piece, from, m),
        _ => queen_moves_have_clear_paths(board, piece, from, m),
    }
}

proof fn lemma_legal_below_member(
    board: Board,
    color: Color,
    kind: int,
    upto: int,
    m: Move,
) -> (from: int)
    requires
        legal_below(board, color, kind, upto).contains(m),
    ensures
        0 <= from < upto,
        board.pieces[color.side()][kind].contains(from),
        pseudo_legal_moves(board, Piece::of_kind(kind, color), from).contains(m),
        keeps_king_safe(board, color, m),
    decreases upto,
{
    if upto <= 0 {
        0
    } else {
        let earlier = legal_below(board, color, kind, upto - 1);
        let generated = pseudo_legal_moves(board, Piece::of_kind(kind, color), upto - 1);
        let here = if board.pieces[color.side()][kind].contains(upto - 1) {
            safe_moves(board, color, generated)
        } else {
            Seq::empty()
        };
        vstd::seq_lib::lemma_seq_concat_contains_all_elements(earlier, here, m);
        if here.contains(m) {
            let keep = |m: Move| keeps_king_safe(board, color, m);
            generated.lemma_filter_contains_rev(keep, m);
            let i = choose|i: int| 0 <= i < here.len() && here[i] == m;
            generated.lemma_filter_pred(keep, i);
            upto - 1
        } else {
            lemma_legal_below_member(board, color, kind, upto - 1, m)
        }
    }
}

proof fn lemma_legal_of_kinds_member(board: Board, color: Color, kinds: int, m: Move) -> (origin: (
    int,
    int,
))
    requires
        legal_of_kinds(board, color, kinds).contains(m),
        kinds <= 6,
    ensures
        0 <= origin.0 < kinds,
        0 <= origin.1 < 64,
        board.pieces[color.side()][origin.0].contains(origin.1),
        pseudo_legal_moves(board, Piece::of_kind(origin.0, color), origin.1).contains(m),
        keeps_king_safe(board, color, m),
    decreases kinds,
{
    if kinds <= 0 {
        (0, 0)
    } else {
        let earlier = legal_of_kinds(board, color, kinds - 1);
        let here = legal_below(board, color, kinds - 1, 64);
        vstd::seq_lib::lemma_seq_concat_contains_all_elements(earlier, here, m);
        if here.contains(m) {
            (kinds - 1, lemma_legal_below_member(board, color, kinds - 1, 64, m))
        } else {
            lemma_legal_of_kinds_member(board, color, kinds - 1, m)
        }
    }
}

/// Every legal move of a colour is a pseudo-legal move of one of that
/// colour's pieces, and does not leave the colour's king in check. The lemma
/// returns the type index and the square of such a piece.
pub proof fn legal_moves_are_pseudo_legal(board: Board, color: Color, m: Move) -> (origin: (
    int,
    int,
))
    requires
        all_legal_moves(board, color).contains(m),
    ensures
        0 <= origin.0 < 6,
        0 <= origin.1 < 64,
        board.pieces[color.side()][origin.0].contains(origin.1),
        pseudo_legal_moves(board, Piece::of_kind(origin.0, color), origin.1).contains(m),
        moved_by_own_piece(board, color, m),
        keeps_king_safe(board, color, m),
{
    lemma_legal_of_kinds_member(board, color, 6, m)
}

/// Whether `m` is the advance of a pawn by two squares from its home rank
/// over two empty squares.
pub open spec fn is_double_push(m: Move, board: Board) -> bool {
    match m.piece {
        Piece::Pawn(color) => {
            &&& !m.promoted_from_pawn
            &&& rank_of(m.from as int) == home_rank(color)
            &&& m.to == m.from + 16 * forward(color)
            &&& board.vacant(m.from + 8 * forward(color))
            &&& board.vacant(m.to as int)
        },
        _ => false,
    }
}

/// What the board offers a move that can be committed soundly: the mover on
/// the origin, no piece of its colour on the destination, room for the rook
/// of a castling king, and a pawn or nothing where an en-passant capture
/// takes one.
pub open spec fn fits(m: Move, board: Board) -> bool {
    let us = m.piece.owner().side();
    let them = m.piece.owner().opponent().side();
    &&& m.from < 64 && m.to < 64 && m.from != m.to
    &&& board.pieces[us][origin_kind(m)].contains(m.from as int)
    &&& !board.sides[us].contains(m.to as int)
    &&& (castle_rook(m) matches Some(rook) ==> board.vacant(rook.1) && board.vacant(m.to as int))
    &&& (en_passant_victim(m, board) matches Some(victim) ==> board.vacant(m.to as int) && (
    board.pieces[them][0].contains(victim) || !board.sides[them].contains(victim)))
    &&& (next_en_passant(m) is Some ==> is_double_push(m, board))
    &&& Piece::of_kind(landing_kind(m), m.piece.owner()) == m.piece
}

proof fn lemma_step_fits(board: Board, m: Move, dr: int, df: int)
    requires
        board.well_formed(),
        m.from < 64,
        !m.promoted_from_pawn,
        m.piece is Knight || m.piece is King,
        board.squares(m.piece).contains(m.from as int),
        dr != 0 || df != 0,
        m.piece is King ==> is_direction(dr, df),
        step(board, m.piece, m.from as int, dr, df).contains(m),
    ensures
        fits(m, board),
{
    let found = step(board, m.piece, m.from as int, dr, df);
    assert(found.len() == 1 && found[0] == m);
}

proof fn lemma_slide_fits(board: Board, m: Move)
    requires
        board.well_formed(),
        m.from < 64,
        !m.promoted_from_pawn,
        m.piece is Rook || m.piece is Bishop || m.piece is Queen,
        board.squares(m.piece).contains(m.from as int),
        pseudo_legal_moves(board, m.piece, m.from as int).contains(m),
    ensures
        fits(m, board),
{
    reveal(pseudo_legal_moves);
    let path = sliding_moves_have_clear_paths(board, m.piece, m.from as int, m);
}

proof fn lemma_castling_fits(board: Board, m: Move)
    requires
        board.well_formed(),
        m.from < 64,
        !m.promoted_from_pawn,
        m.piece is King,
        board.squares(m.piece).contains(m.from as int),
        castling(board, m.piece, m.from as int).contains(m),
    ensures
        fits(m, board),
{
    let found = castling(board, m.piece, m.from as int);
    let i = choose|i: int| 0 <= i < found.len() && found[i] == m;
    assert(found[i] == m);
}

proof fn lemma_arrival_member(from: int, to: int, color: Color, m: Move)
    requires
        0 <= from < 64,
        0 <= to < 64,
        arrival(from, to, Piece::Pawn(color)).contains(m),
    ensures
        m.from == from,
        m.to == to,
        m.piece.owner() == color,
        m.promoted_from_pawn ==> (m.piece is Queen || m.piece is Rook || m.piece is Bishop
            || m.piece is Knight),
        !m.promoted_from_pawn ==> m.piece == Piece::Pawn(color),
{
    let found = arrival(from, to, Piece::Pawn(color));
    let i = choose|i: int| 0 <= i < found.len() && found[i] == m;
    assert(found[i] == m);
}

/// How a move of a pawn comes about. The lemma returns the file step of the
/// move: 0 for an advance, which ends on an empty square one rank ahead or is
/// a double push; -1 or 1 for a capture, which ends diagonally ahead on a
/// piece of the other colour or on the en-passant target.
proof fn lemma_pawn_member(board: Board, color: Color, from: int, m: Move) -> (df: int)
    requires
        0 <= from < 64,
        pawn_moves(board, Piece::Pawn(color), from).contains(m),
    ensures
        m.from == from,
        m.to < 64,
        m.piece.owner() == color,
        m.promoted_from_pawn ==> (m.piece is Queen || m.piece is Rook || m.piece is Bishop
            || m.piece is Knight),
        !m.promoted_from_pawn ==> m.piece == Piece::Pawn(color),
        -1 <= df <= 1,
        df == 0 ==> board.vacant(m.to as int) && (m.to == from + 8 * forward(color)
            || is_double_push(m, board)),
        df != 0 ==> m.to == from + 8 * forward(color) + df && (board.occupied(
            color.opponent(),
        ).contains(m.to as int) || board.en_passant == Some(m.to)),
{
    let pushes = pawn_pushes(board, color, from);
    let left = pawn_capture(board, color, from, -1);
    let right = pawn_capture(board, color, from, 1);
    vstd::seq_lib::lemma_seq_concat_contains_all_elements(pushes + left, right, m);
    vstd::seq_lib::lemma_seq_concat_contains_all_elements(pushes, left, m);
    let rank = rank_of(from) + forward(color);
    if pushes.contains(m) {
        let one = square_at(rank, file_of(from));
        let two = square_at(rank + forward(color), file_of(from));
        let single = arrival(from, one, Piece::Pawn(color));
        let double = if rank_of(from) == home_rank(color) && board.vacant(two) {
            seq![plain_move(from, two, Piece::Pawn(color))]
        } else {
            Seq::empty()
        };
        vstd::seq_lib::lemma_seq_concat_contains_all_elements(single, double, m);
        lemma_square_coordinates(rank, file_of(from));
        if single.contains(m) {
            lemma_arrival_member(from, one, color, m);
        } else {
            assert(double.len() == 1 && double[0] == m);
            lemma_square_coordinates(rank + forward(color), file_of(from));
        }
        0
    } else {
        let df: int = if left.contains(m) {
            -1
        } else {
            1
        };
        lemma_square_coordinates(rank, file_of(from) + df);
        lemma_arrival_member(from, square_at(rank, file_of(from) + df), color, m);
        df
    }
}

proof fn lemma_pawn_fits(board: Board, m: Move, color: Color)
    requires
        board.well_formed(),
        m.from < 64,
        m.mover() == Piece::Pawn(color),
        board.squares(m.mover()).contains(m.from as int),
        pseudo_legal_moves(board, m.mover(), m.from as int).contains(m),
    ensures
        fits(m, board),
{
    reveal(pseudo_legal_moves);
    let df = lemma_pawn_member(board, color, m.from as int, m);
    if df != 0 && board.occupied(color.opponent()).contains(m.to as int) {
        assert(!union_of(board.pieces[color.side()]).contains(m.to as int));
    }
}

/// A move generated for a piece on a square starts on that square and is a
/// move of that piece: it names the piece itself, or for a promotion a piece
/// of the pawn's colour in its place.
pub proof fn generated_moves_name_their_mover(board: Board, piece: Piece, from: int, m: Move)
    requires
        0 <= from < 64,
        pseudo_legal_moves(board, piece, from).contains(m),
    ensures
        m.from == from,
        m.to < 64,
        m.mover() == piece,
        m.piece.owner() == piece.owner(),
{
    reveal(pseudo_legal_moves);
    let found = pseudo_legal_moves(board, piece, from);
    let at = choose|i: int| 0 <= i < found.len() && found[i] == m;
    lemma_moves_from(board, piece, from);
    assert(found[at] == m);
    match piece {
        Piece::Pawn(color) => {
            let df = lemma_pawn_member(board, color, from, m);
        },
        Piece::Knight(_) => {
            let j = lemma_steps_member(board, piece, from, knight_jumps(), m);
            let hop = step(board, piece, from, knight_jumps()[j].0, knight_jumps()[j].1);
            assert(hop.len() == 1 && hop[0] == m);
        },
        Piece::King(_) => {
            let walks = steps(board, piece, from, king_jumps());
            let castles = castling(board, piece, from);
            vstd::seq_lib::lemma_seq_concat_contains_all_elements(walks, castles, m);
            if walks.contains(m) {
                let j = lemma_steps_member(board, piece, from, king_jumps(), m);
                let hop = step(board, piece, from, king_jumps()[j].0, king_jumps()[j].1);
                assert(hop.len() == 1 && hop[0] == m);
            } else {
                let i = choose|i: int| 0 <= i < castles.len() && castles[i] == m;
                assert(castles[i] == m);
            }
        },
        _ => {
            let path = sliding_moves_have_clear_paths(board, piece, from, m);
        },
    }
}

/// Every legal move of a colour is a pseudo-legal move of a piece of that
/// colour that stands on the move's origin.
pub proof fn legal_moves_start_on_their_mover(board: Board, color: Color, m: Move)
    requires
        all_legal_moves(board, color).contains(m),
    ensures
        pseudo_legal(m, board),
        m.piece.owner() == color,
{
    let origin = legal_moves_are_pseudo_legal(board, color, m);
    let piece = Piece::of_kind(origin.0, color);
    generated_moves_name_their_mover(board, piece, origin.1, m);
    assert(piece.kind() == origin.0 && piece.owner() == color);
    assert(board.squares(piece) == board.pieces[color.side()][origin.0]);
}

/// Playing a legal move on a well-formed board leaves a well-formed board:
/// the piece sets stay pairwise disjoint and each side stays the union of
/// its piece sets. For a castling move this asks that the rook's home square
/// holds the rook or no piece of its colour at all.
pub proof fn legal_moves_keep_the_board_well_formed(board: Board, color: Color, m: Move)
    requires
        board.well_formed(),
        all_legal_moves(board, color).contains(m),
        rook_at_home(m, board),
    ensures
        played(m, board).well_formed(),
{
    legal_moves_start_on_their_mover(board, color, m);
    commit_preserves_well_formed(m, board);
}

/// On a well-formed board every pseudo-legal move of a piece that stands on
/// its origin fits the board.
pub proof fn lemma_pseudo_legal_fits(m: Move, board: Board)
    requires
        board.well_formed(),
        pseudo_legal(m, board),
    ensures
        fits(m, board),
{
    reveal(pseudo_legal_moves);
    let from = m.from as int;
    match m.mover() {
        Piece::Pawn(color) => {
            lemma_pawn_fits(board, m, color);
        },
        Piece::Knight(_) => {
            let j = lemma_steps_member(board, m.piece, from, knight_jumps(), m);
            lemma_step_fits(board, m, knight_jumps()[j].0, knight_jumps()[j].1);
        },
        Piece::King(_) => {
            let walks = steps(board, m.piece, from, king_jumps());
            vstd::seq_lib::lemma_seq_concat_contains_all_elements(
                walks,
                castling(board, m.piece, from),
                m,
            );
            if walks.contains(m) {
                let j = lemma_steps_member(board, m.piece, from, king_jumps(), m);
                lemma_step_fits(board, m, king_jumps()[j].0, king_jumps()[j].1);
            } else {
                lemma_castling_fits(board, m);
            }
        },
        _ => {
            lemma_slide_fits(board, m);
        },
    }
}

/// Committing a move that fits the board keeps the board well-formed.
proof fn lemma_commit_sound(m: Move, board: Board)
    requires
        board.well_formed(),
        fits(m, board),
        rook_at_home(m, board),
    ensures
        commit(m, board).well_formed(),
{
    let us = m.piece.owner().side();
    let them = m.piece.owner().opponent().side();
    let from = m.from as int;
    let to = m.to as int;
    let lifted = board.lifted(us, origin_kind(m), from);
    lemma_lifted_sound(board, us, origin_kind(m), from);
    let taken = lifted.captured(them, to);
    lemma_captured_sound(lifted, them, to);
    assert(taken.vacant(to));
    let castled = match castle_rook(m) {
        Some((rook_from, rook_to)) => taken.lifted(us, 3, rook_from).placed(us, 3, rook_to),
        None => taken,
    };
    match castle_rook(m) {
        Some((rook_from, rook_to)) => {
            lemma_lifted_sound(taken, us, 3, rook_from);
            lemma_placed_sound(taken.lifted(us, 3, rook_from), us, 3, rook_to);
        },
        None => {},
    }
    assert(castled.masks_sound());
    assert(castled.vacant(to));
    let passed = match en_passant_victim(m, board) {
        Some(victim) => castled.lifted(them, 0, victim),
        None => castled,
    };
    match en_passant_victim(m, board) {
        Some(victim) => {
            lemma_lifted_sound(castled, them, 0, victim);
        },
        None => {},
    }
    assert(passed.masks_sound());
    assert(passed.vacant(to));
    let landed = passed.placed(us, landing_kind(m), to);
    lemma_placed_sound(passed, us, landing_kind(m), to);
    let after = commit(m, board);
    assert(after.masks_sound());
    assert(after.en_passant_sound());
}

/// Committing a pseudo-legal move of a piece that stands on its origin keeps
/// a position well-formed: afterwards the twelve piece sets are still
/// pairwise disjoint and each side set is still the union of its six piece
/// sets. For a castling move this asks that the rook's home square holds
/// the rook or no piece of its colour at all.
pub proof fn commit_preserves_well_formed(m: Move, board: Board)
    requires
        board.well_formed(),
        pseudo_legal(m, board),
        rook_at_home(m, board),
    ensures
        commit(m, board).well_formed(),
        played(m, board).well_formed(),
{
    lemma_pseudo_legal_fits(m, board);
    lemma_commit_sound(m, board);
    assert(played(m, board).masks_sound());
}

/// Committing a move changes no mask anywhere but on the squares the move is
/// about: on every other square each of the twelve piece sets and both side
/// sets hold what they held before. This is so for every move, legal or not.
pub proof fn commit_changes_only_involved_squares(m: Move, board: Board)
    requires
        board.shaped(),
    ensures
        changed_only_where_involved(m, board, commit(m, board)),
{
    let us = m.piece.owner().side();
    let them = m.piece.owner().opponent().side();
    let lifted = board.lifted(us, origin_kind(m), m.from as int);
    let taken = lifted.captured(them, m.to as int);
    let castled = match castle_rook(m) {
        Some((rook_from, rook_to)) => taken.lifted(us, 3, rook_from).placed(us, 3, rook_to),
        None => taken,
    };
    let passed = match en_passant_victim(m, board) {
        Some(victim) => castled.lifted(them, 0, victim),
        None => castled,
    };
    let landed = passed.placed(us, landing_kind(m), m.to as int);
    let after = commit(m, board);
    assert forall|side: int, kind: int, sq: int|
        0 <= side < 2 && 0 <= kind < 6 && !involved_squares(m, board).contains(sq) implies (
    #[trigger] after.pieces[side][kind].contains(sq)) == board.pieces[side][kind].contains(sq) by {
        assert(lifted.pieces[side][kind].contains(sq) == board.pieces[side][kind].contains(sq));
        assert(taken.pieces[side][kind].contains(sq) == lifted.pieces[side][kind].contains(sq));
        assert(castled.pieces[side][kind].contains(sq) == taken.pieces[side][kind].contains(sq));
        assert(passed.pieces[side][kind].contains(sq) == castled.pieces[side][kind].contains(sq));
        assert(landed.pieces[side][kind].contains(sq) == passed.pieces[side][kind].contains(sq));
    }
    assert forall|side: int, sq: int|
        0 <= side < 2 && !involved_squares(m, board).contains(sq) implies (
    #[trigger] after.sides[side].contains(sq)) == board.sides[side].contains(sq) by {
        assert(lifted.sides[side].contains(sq) == board.sides[side].contains(sq));
        assert(taken.sides[side].contains(sq) == lifted.sides[side].contains(sq));
        assert(castled.sides[side].contains(sq) == taken.sides[side].contains(sq));
        assert(passed.sides[side].contains(sq) == castled.sides[side].contains(sq));
        assert(landed.sides[side].contains(sq) == passed.sides[side].contains(sq));
    }
}

/// Committing a pseudo-legal move of a piece that stands on its origin moves
/// that piece and no other of its colour: exactly one piece set of the
/// mover's colour loses the origin, and exactly one gains the destination,
/// namely the set of the mover, or for a promotion the set of the piece
/// chosen.
pub proof fn commit_relocates_the_mover(m: Move, board: Board)
    requires
        board.well_formed(),
        pseudo_legal(m, board),
    ensures
        mover_relocated(m, board, commit(m, board)),
{
    lemma_pseudo_legal_fits(m, board);
    let us = m.piece.owner().side();
    let them = m.piece.owner().opponent().side();
    let from = m.from as int;
    let to = m.to as int;
    let lifted = board.lifted(us, origin_kind(m), from);
    let taken = lifted.captured(them, to);
    lemma_lifted_sound(board, us, origin_kind(m), from);
    lemma_captured_sound(lifted, them, to);
    let castled = match castle_rook(m) {
        Some((rook_from, rook_to)) => taken.lifted(us, 3, rook_from).placed(us, 3, rook_to),
        None => taken,
    };
    let passed = match en_passant_victim(m, board) {
        Some(victim) => castled.lifted(them, 0, victim),
        None => castled,
    };
    let landed = passed.placed(us, landing_kind(m), to);
    let after = commit(m, board);
    assert forall|kind: int| 0 <= kind < 6 implies !(#[trigger] board.pieces[us][kind]).contains(
        to,
    ) by {
        assert(!union_of(board.pieces[us]).contains(to));
    }
    assert forall|kind: int| 0 <= kind < 6 implies !(#[trigger] after.pieces[us][kind]).contains(
        from,
    ) by {
        assert(!lifted.pieces[us][kind].contains(from));
        assert(!taken.pieces[us][kind].contains(from));
        assert(!castled.pieces[us][kind].contains(from));
        assert(!passed.pieces[us][kind].contains(from));
    }
    assert forall|kind: int| 0 <= kind < 6 implies ((#[trigger] after.pieces[us][kind]).contains(
        to,
    ) <==> kind == landing_kind(m)) by {
        assert(!lifted.pieces[us][kind].contains(to));
        assert(!taken.pieces[us][kind].contains(to));
        assert(!castled.pieces[us][kind].contains(to));
        assert(!passed.pieces[us][kind].contains(to));
    }
    assert(!taken.sides[them].contains(to));
    assert(!castled.sides[them].contains(to));
    assert(!passed.sides[them].contains(to));
}

/// Committing a pseudo-legal move of a piece that stands on its origin, on a
/// well-formed board, puts the piece the move names on the destination and
/// leaves the origin empty. A castling king has its rook beside it, a pawn
/// taken en passant is gone, and every square the move is not about holds
/// what it held.
pub proof fn commit_moves_the_piece(m: Move, board: Board)
    requires
        board.well_formed(),
        pseudo_legal(m, board),
        rook_at_home(m, board),
    ensures
        ({
            let after = commit(m, board);
            &&& after.piece_at(m.to as int) == Some(m.piece)
            &&& after.piece_at(m.from as int).is_none()
            &&& (castle_rook(m) matches Some(rook) ==> after.piece_at(rook.1) == Some(
                Piece::Rook(m.piece.owner()),
            ))
            &&& (en_passant_victim(m, board) matches Some(victim) ==> after.piece_at(
                victim,
            ).is_none())
            &&& forall|sq: int|
                !involved_squares(m, board).contains(sq) ==> #[trigger] after.piece_at(sq)
                    == board.piece_at(sq)
        }),
{
    lemma_pseudo_legal_fits(m, board);
    commit_preserves_well_formed(m, board);
    commit_relocates_the_mover(m, board);
    commit_changes_only_involved_squares(m, board);
    let after = commit(m, board);
    let us = m.piece.owner().side();
    let them = m.piece.owner().opponent().side();
    let from = m.from as int;
    let to = m.to as int;
    let lifted = board.lifted(us, origin_kind(m), from);
    let taken = lifted.captured(them, to);
    let castled = match castle_rook(m) {
        Some((rook_from, rook_to)) => taken.lifted(us, 3, rook_from).placed(us, 3, rook_to),
        None => taken,
    };
    let passed = match en_passant_victim(m, board) {
        Some(victim) => castled.lifted(them, 0, victim),
        None => castled,
    };
    assert(!union_of(after.pieces[them]).contains(to));
    assert(!union_of(board.pieces[them]).contains(from));
    assert forall|kind: int| 0 <= kind < 6 implies !(#[trigger] after.pieces[them][kind]).contains(
        from,
    ) by {
        assert(!board.pieces[them][kind].contains(from));
        assert(!lifted.pieces[them][kind].contains(from));
        assert(!taken.pieces[them][kind].contains(from));
        assert(!castled.pieces[them][kind].contains(from));
        assert(!passed.pieces[them][kind].contains(from));
    }
    match castle_rook(m) {
        Some((rook_from, rook_to)) => {
            assert(after.pieces[us][3].contains(rook_to));
            assert(!union_of(after.pieces[them]).contains(rook_to));
        },
        None => {},
    }
    match en_passant_victim(m, board) {
        Some(victim) => {
            assert(!passed.sides[them].contains(victim));
            assert(!after.sides[them].contains(victim));
            assert(!union_of(after.pieces[them]).contains(victim));
            assert(!board.sides[us].contains(victim));
            assert(!after.sides[us].contains(victim));
            assert(!union_of(after.pieces[us]).contains(victim));
        },
        None => {},
    }
}

} // verus!
