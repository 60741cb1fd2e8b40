use vstd::prelude::*;
use crate::pieces::{directions, is_mine, is_opponent, square_value, swapped, Direction, Square};

verus! {

pub const PADDING: usize = 2;
pub const BOARD_SIDE: usize = 12;
pub const BOARD_SIZE: usize = 144;

pub const A8: usize = 26;
pub const H8: usize = 33;
pub const A1: usize = 110;
pub const H1: usize = 117;

/// Scores stay within this bound, so that negating and adding one move's
/// value never overflows.
pub const SCORE_LIMIT: i32 = 2_000_000_000;

/// Bound on the score change of a single move.
pub const MOVE_VALUE_LIMIT: i32 = 200_000;

/// A square of the 8x8 board, as opposed to the padding around it.
pub open spec fn on_board(position: int) -> bool {
    &&& 0 <= position < 144
    &&& 2 <= position / 12 < 10
    &&& 2 <= position % 12 < 10
}

/// A position, always seen from the side to move.
#[derive(Clone, Copy, Hash, Eq, PartialEq, Debug)]
pub struct BoardState {
    pub board: [Square; BOARD_SIZE],
    /// Evaluation from the point of view of the side to move.
    pub score: i32,
    /// West then east.
    pub my_castling_rights: (bool, bool),
    /// West then east.
    pub opponent_castling_rights: (bool, bool),
    /// Square where I can capture a pawn en passant.
    pub en_passant_position: Option<usize>,
    /// Square the opponent's king just passed through while castling.
    pub king_passant_position: Option<usize>,
}

/// The mathematical content of a `BoardState`.
pub struct BoardView {
    pub board: Seq<Square>,
    pub score: int,
    pub my_castling_rights: (bool, bool),
    pub opponent_castling_rights: (bool, bool),
    pub en_passant_position: Option<int>,
    pub king_passant_position: Option<int>,
}

pub open spec fn opt_int(o: Option<usize>) -> Option<int> {
    match o {
        Some(x) => Some(x as int),
        None => None,
    }
}

impl View for BoardState {
    type V = BoardView;

    open spec fn view(&self) -> BoardView {
        BoardView {
            board: self.board@,
            score: self.score as int,
            my_castling_rights: self.my_castling_rights,
            opponent_castling_rights: self.opponent_castling_rights,
            en_passant_position: opt_int(self.en_passant_position),
            king_passant_position: opt_int(self.king_passant_position),
        }
    }
}

/// Walls stand exactly on the padding.
pub open spec fn walls_ok(b: Seq<Square>) -> bool {
    &&& b.len() == 144
    &&& forall|i: int| 0 <= i < 144 ==> (b[i] == Square::Wall <==> !on_board(i))
}

pub open spec fn passant_ok(o: Option<int>) -> bool {
    match o {
        Some(x) => 0 <= x < 144,
        None => true,
    }
}

/// What every position handled by the engine satisfies.
pub open spec fn well_formed(v: BoardView) -> bool {
    &&& walls_ok(v.board)
    &&& -SCORE_LIMIT <= v.score <= SCORE_LIMIT
    &&& passant_ok(v.en_passant_position)
    &&& passant_ok(v.king_passant_position)
}

pub open spec fn mirror(o: Option<int>) -> Option<int> {
    match o {
        Some(x) => Some(143 - x),
        None => None,
    }
}

/// The position seen by the other side: the board turned end for end with
/// colours swapped (padding rows left as they are), the score negated, the
/// castling rights exchanged and both passant squares mirrored.
pub open spec fn rotated(v: BoardView) -> BoardView {
    BoardView {
        board: Seq::new(
            144,
            |i: int|
                if 26 <= i < 118 {
                    swapped(v.board[143 - i])
                } else {
                    v.board[i]
                },
        ),
        score: -v.score,
        my_castling_rights: v.opponent_castling_rights,
        opponent_castling_rights: v.my_castling_rights,
        en_passant_position: mirror(v.en_passant_position),
        king_passant_position: mirror(v.king_passant_position),
    }
}

/// Passing: the position rotated for the other side, with no passant square.
pub open spec fn nulled(v: BoardView) -> BoardView {
    BoardView {
        board: Seq::new(144, |i: int| swapped(v.board[143 - i])),
        score: -v.score,
        my_castling_rights: v.opponent_castling_rights,
        opponent_castling_rights: v.my_castling_rights,
        en_passant_position: None,
        king_passant_position: None,
    }
}

pub proof fn lemma_swapped_twice(s: Square)
    ensures
        swapped(swapped(s)) == s,
{
}

/// Turning a position twice gives it back, and turning it negates its score.
pub proof fn lemma_rotation_involution(v: BoardView)
    requires
        v.board.len() == 144,
        passant_ok(v.en_passant_position),
        passant_ok(v.king_passant_position),
    ensures
        rotated(rotated(v)) == v,
        rotated(v).score == -v.score,
{
    let w = rotated(rotated(v));
    assert forall|i: int| 0 <= i < 144 implies w.board[i] == v.board[i] by {
        if 26 <= i < 118 {
            lemma_swapped_twice(v.board[i]);
        }
    }
    assert(w.board =~= v.board);
}

pub proof fn lemma_rotation_well_formed(v: BoardView)
    requires
        well_formed(v),
    ensures
        well_formed(rotated(v)),
        well_formed(nulled(v)),
{
    assert forall|i: int| 0 <= i < 144 implies #[trigger] on_board(i) <==> on_board(143 - i) by {
    }
}

/// Turns the position for the other side, in place.
pub fn rotate(board_state: &mut BoardState)
    requires
        well_formed(old(board_state)@),
    ensures
        final(board_state)@ == rotated(old(board_state)@),
        well_formed(final(board_state)@),
{
    let ghost before = board_state@;
    let total_padding = PADDING * BOARD_SIDE + PADDING;
    let mut coordinate: usize = total_padding;
    while coordinate < BOARD_SIZE / 2
        invariant
            26 <= coordinate <= 72,
            board_state.score == before.score,
            board_state.my_castling_rights == before.my_castling_rights,
            board_state.opponent_castling_rights == before.opponent_castling_rights,
            opt_int(board_state.en_passant_position) == before.en_passant_position,
            opt_int(board_state.king_passant_position) == before.king_passant_position,
            forall|j: int|
                0 <= j < 144 ==> board_state.board@[j] == if (26 <= j < coordinate || 143
                    - coordinate < j <= 117) {
                    swapped(before.board[143 - j])
                } else {
                    before.board[j]
                },
        decreases 72 - coordinate,
    {
        let old_val = board_state.board[coordinate];
        board_state.board[coordinate] = board_state.board[BOARD_SIZE - 1 - coordinate].swap_color();
        board_state.board[BOARD_SIZE - 1 - coordinate] = old_val.swap_color();
        coordinate = coordinate + 1;
    }
    board_state.score = -board_state.score;
    let mine = board_state.my_castling_rights;
    board_state.my_castling_rights = board_state.opponent_castling_rights;
    board_state.opponent_castling_rights = mine;
    board_state.en_passant_position = match board_state.en_passant_position {
        Some(ep) => Some(BOARD_SIZE - 1 - ep),
        None => None,
    };
    board_state.king_passant_position = match board_state.king_passant_position {
        Some(kp) => Some(BOARD_SIZE - 1 - kp),
        None => None,
    };
    assert(board_state.board@ =~= rotated(before).board);
    proof {
        lemma_rotation_well_formed(before);
    }
}

/// Passing the move to the other side.
pub fn nullmove(board_state: &BoardState) -> (r: BoardState)
    requires
        well_formed(board_state@),
    ensures
        r@ == nulled(board_state@),
        well_formed(r@),
{
    let mut new_board = [Square::Empty; BOARD_SIZE];
    let mut coordinate: usize = 0;
    while coordinate < BOARD_SIZE
        invariant
            coordinate <= 144,
            forall|j: int|
                0 <= j < coordinate ==> new_board@[j] == swapped(board_state.board@[143 - j]),
        decreases 144 - coordinate,
    {
        new_board[coordinate] = board_state.board[BOARD_SIZE - 1 - coordinate].swap_color();
        coordinate = coordinate + 1;
    }
    let r = BoardState {
        board: new_board,
        score: -board_state.score,
        my_castling_rights: board_state.opponent_castling_rights,
        opponent_castling_rights: board_state.my_castling_rights,
        en_passant_position: None,
        king_passant_position: None,
    };
    assert(r@.board =~= nulled(board_state@).board);
    proof {
        lemma_rotation_well_formed(board_state@);
    }
    r
}


/// Whether a pawn step along `d` from `start` onto `end` is refused: a
/// straight step onto an occupied square, a diagonal step onto an empty square
/// that is neither passant square, or a double step off the second rank or
/// across an occupied square.
pub open spec fn pawn_blocked(v: BoardView, start: int, d: int, end: int) -> bool {
    ||| ((d == -12 || d == -24) && v.board[end] != Square::Empty)
    ||| ((d == -13 || d == -11) && v.board[end] == Square::Empty && v.en_passant_position
        != Some(end) && v.king_passant_position != Some(end))
    ||| (d == -24 && (start < 98 || v.board[start - 12] != Square::Empty))
}

pub open spec fn stops_after_one(piece: Square) -> bool {
    piece == Square::MyPawn || piece == Square::MyKnight || piece == Square::MyKing
}

/// The squares reached by `piece` from `start` along `d`, from the `k`-th step
/// on: the walk ends on a wall or on one of my pieces, after a capture, and
/// after one step for pawns, knights and kings. The padding ends every walk
/// within eight steps.
pub open spec fn ray(v: BoardView, piece: Square, start: int, d: int, k: int) -> Seq<usize>
    decreases 10 - k,
{
    if k < 1 || k >= 10 {
        Seq::empty()
    } else {
        let end = start + d * k;
        if !(0 <= end < 144) {
            Seq::empty()
        } else if v.board[end] == Square::Wall || is_mine(v.board[end]) {
            Seq::empty()
        } else if piece == Square::MyPawn && pawn_blocked(v, start, d, end) {
            Seq::empty()
        } else if stops_after_one(piece) || v.board[end] != Square::Empty {
            seq![end as usize]
        } else {
            seq![end as usize] + ray(v, piece, start, d, k + 1)
        }
    }
}

/// The walks along the first `n` directions of `piece`, one after the other.
pub open spec fn rays(v: BoardView, piece: Square, start: int, n: int) -> Seq<usize>
    decreases n,
{
    if n <= 0 {
        Seq::empty()
    } else {
        rays(v, piece, start, n - 1) + ray(v, piece, start, directions(piece)[n - 1] as int, 1)
    }
}

/// The squares `piece` may move to from `start`, direction by direction.
pub open spec fn reachable(v: BoardView, piece: Square, start: int) -> Seq<usize> {
    rays(v, piece, start, directions(piece).len() as int)
}

/// Every square of `s` is inside the array and free of walls and of my pieces.
pub open spec fn targets_ok(v: BoardView, s: Seq<usize>) -> bool {
    forall|j: int|
        0 <= j < s.len() ==> s[j] < 144 && #[trigger] v.board[s[j] as int] != Square::Wall
            && !is_mine(v.board[s[j] as int])
}

proof fn lemma_ray_targets(v: BoardView, piece: Square, start: int, d: int, k: int)
    ensures
        targets_ok(v, ray(v, piece, start, d, k)),
    decreases 10 - k,
{
    if 1 <= k < 10 {
        lemma_ray_targets(v, piece, start, d, k + 1);
    }
}

proof fn lemma_rays_targets(v: BoardView, piece: Square, start: int, n: int)
    ensures
        targets_ok(v, rays(v, piece, start, n)),
    decreases n,
{
    if n > 0 {
        lemma_rays_targets(v, piece, start, n - 1);
        lemma_ray_targets(v, piece, start, directions(piece)[n - 1] as int, 1);
    }
}

/// The squares that `piece_moving`, standing on `start_position`, may move to.
pub fn piece_moves(board_state: &BoardState, piece_moving: Square, start_position: usize) -> (r:
    Vec<usize>)
    requires
        is_mine(piece_moving),
        start_position < 144,
    ensures
        r@ == reachable(board_state@, piece_moving, start_position as int),
        targets_ok(board_state@, r@),
{
    let ghost v = board_state@;
    let ghost start = start_position as int;
    let mut reachable_squares: Vec<usize> = Vec::with_capacity(20);
    let n = piece_moving.direction_count();
    let mut i: usize = 0;
    while i < n
        invariant
            is_mine(piece_moving),
            start_position < 144,
            start == start_position as int,
            v == board_state@,
            n == directions(piece_moving).len(),
            i <= n,
            reachable_squares@ == rays(v, piece_moving, start, i as int),
        decreases n - i,
    {
        let move_direction = piece_moving.direction(i);
        let ghost d = move_direction as int;
        assert(-25 <= d <= 25);
        let mut k: i32 = 1;
        while k < 10
            invariant_except_break
                reachable_squares@ + ray(v, piece_moving, start, d, k as int) == rays(
                    v,
                    piece_moving,
                    start,
                    i + 1,
                ),
            invariant
                1 <= k <= 10,
                -25 <= d <= 25,
                d == move_direction as int,
                start == start_position as int,
                v == board_state@,
                start_position < 144,
                d == directions(piece_moving)[i as int],
                i < n,
                n == directions(piece_moving).len(),
            ensures
                reachable_squares@ == rays(v, piece_moving, start, i + 1),
            decreases 10 - k,
        {
            let ghost before = reachable_squares@;
            assert(-250 <= move_direction * k <= 250) by (nonlinear_arith)
                requires
                    -25 <= move_direction <= 25,
                    1 <= k < 10,
            ;
            let end = start_position as i32 + move_direction * k;
            if end < 0 || end >= 144 {
                assert(reachable_squares@ =~= before + ray(v, piece_moving, start, d, k as int));
                break;
            }
            let end_position = end as usize;
            let destination_square = board_state.board[end_position];
            // Hit the edge of the board or one of my pieces
            if destination_square == Square::Wall || destination_square.is_my_piece() {
                assert(reachable_squares@ =~= before + ray(v, piece_moving, start, d, k as int));
                break;
            }
            if piece_moving == Square::MyPawn {
                if (move_direction == Direction::NORTH || move_direction == Direction::NORTH
                    + Direction::NORTH) && destination_square != Square::Empty {
                    assert(reachable_squares@ =~= before + ray(v, piece_moving, start, d, k as int));
                    break;
                }
                if (move_direction == Direction::NORTH + Direction::WEST || move_direction
                    == Direction::NORTH + Direction::EAST) && destination_square == Square::Empty
                    && board_state.en_passant_position != Some(end_position)
                    && board_state.king_passant_position != Some(end_position) {
                    assert(reachable_squares@ =~= before + ray(v, piece_moving, start, d, k as int));
                    break;
                }
                if move_direction == Direction::NORTH + Direction::NORTH && (start_position
                    < A1 - BOARD_SIDE || board_state.board[start_position - BOARD_SIDE]
                    != Square::Empty) {
                    assert(reachable_squares@ =~= before + ray(v, piece_moving, start, d, k as int));
                    break;
                }
            }
            reachable_squares.push(end_position);
            // Pawns, knights and kings do not slide
            if piece_moving == Square::MyPawn || piece_moving == Square::MyKnight || piece_moving
                == Square::MyKing {
                assert(reachable_squares@ =~= before + ray(v, piece_moving, start, d, k as int));
                break;
            }
            // A capture ends the slide
            if destination_square != Square::Empty {
                assert(reachable_squares@ =~= before + ray(v, piece_moving, start, d, k as int));
                break;
            }
            assert(reachable_squares@ + ray(v, piece_moving, start, d, k + 1) =~= before + ray(
                v,
                piece_moving,
                start,
                d,
                k as int,
            ));
            k = k + 1;
        }
        i = i + 1;
    }
    proof {
        lemma_rays_targets(v, piece_moving, start, n as int);
    }
    reachable_squares
}


/// The castling move that comes with a rook on a corner reaching the square
/// beside my king.
pub open spec fn castling_after(v: BoardView, start: int, end: int) -> Seq<(usize, usize)> {
    if start == A1 && v.board[end + 1] == Square::MyKing && v.my_castling_rights.0 {
        seq![((end + 1) as usize, (end - 1) as usize)]
    } else if start == H1 && v.board[end - 1] == Square::MyKing && v.my_castling_rights.1 {
        seq![((end - 1) as usize, (end + 1) as usize)]
    } else {
        Seq::empty()
    }
}

/// The moves from `start` to the first `n` squares of `ends`, each followed by
/// the castling move it gives rise to, if any.
pub open spec fn moves_to(v: BoardView, start: int, ends: Seq<usize>, n: int) -> Seq<
    (usize, usize),
>
    decreases n,
{
    if n <= 0 {
        Seq::empty()
    } else {
        moves_to(v, start, ends, n - 1) + seq![(start as usize, ends[n - 1])] + castling_after(
            v,
            start,
            ends[n - 1] as int,
        )
    }
}

/// The moves of the piece on `start`, if it is mine.
pub open spec fn moves_from(v: BoardView, start: int) -> Seq<(usize, usize)> {
    if is_mine(v.board[start]) {
        let ends = reachable(v, v.board[start], start);
        moves_to(v, start, ends, ends.len() as int)
    } else {
        Seq::empty()
    }
}

/// The moves of my pieces on the first `n` squares, square by square.
pub open spec fn moves_upto(v: BoardView, n: int) -> Seq<(usize, usize)>
    decreases n,
{
    if n <= 0 {
        Seq::empty()
    } else {
        moves_upto(v, n - 1) + moves_from(v, n - 1)
    }
}

/// All pseudo-legal moves of the side to move, in generation order.
pub open spec fn pseudo_legal_moves(v: BoardView) -> Seq<(usize, usize)> {
    moves_upto(v, 144)
}

/// All pseudo-legal moves of the side to move: every walk of each of my
/// pieces, in board order, with castling added where a rook on a corner reaches
/// the square beside my king and the matching right holds.
pub fn gen_moves(board_state: &BoardState) -> (r: Vec<(usize, usize)>)
    requires
        walls_ok(board_state@.board),
    ensures
        r@ == pseudo_legal_moves(board_state@),
{
    let ghost v = board_state@;
    let mut moves: Vec<(usize, usize)> = Vec::with_capacity(42);
    let mut start_position: usize = 0;
    while start_position < BOARD_SIZE
        invariant
            v == board_state@,
            walls_ok(v.board),
            start_position <= 144,
            moves@ == moves_upto(v, start_position as int),
        decreases 144 - start_position,
    {
        let start_square = board_state.board[start_position];
        if start_square.is_my_piece() {
            let ends = piece_moves(board_state, start_square, start_position);
            let ghost start = start_position as int;
            let mut j: usize = 0;
            while j < ends.len()
                invariant
                    v == board_state@,
                    walls_ok(v.board),
                    start_position < 144,
                    start == start_position as int,
                    is_mine(v.board[start]),
                    start_square == v.board[start],
                    ends@ == reachable(v, start_square, start),
                    targets_ok(v, ends@),
                    j <= ends.len(),
                    moves@ == moves_upto(v, start) + moves_to(v, start, ends@, j as int),
                decreases ends.len() - j,
            {
                let end_position = ends[j];
                assert(on_board(end_position as int)) by {
                    assert(v.board[ends@[j as int] as int] != Square::Wall);
                }
                let ghost before = moves@;
                moves.push((start_position, end_position));
                // A rook reaching the king from a corner gives the castling move
                if start_position == A1 && board_state.board[end_position + 1] == Square::MyKing
                    && board_state.my_castling_rights.0 {
                    moves.push((end_position + 1, end_position - 1));
                } else if start_position == H1 && board_state.board[end_position - 1]
                    == Square::MyKing && board_state.my_castling_rights.1 {
                    moves.push((end_position - 1, end_position + 1));
                }
                assert(moves@ =~= moves_upto(v, start) + moves_to(v, start, ends@, j + 1));
                j = j + 1;
            }
            assert(moves@ =~= moves_upto(v, start + 1));
        } else {
            assert(moves@ =~= moves_upto(v, start_position + 1));
        }
        start_position = start_position + 1;
    }
    moves
}

/// Move generation is a function of the position alone: positions with the
/// same content have the same moves, in the same order.
pub proof fn lemma_move_generation_deterministic(p: BoardView, q: BoardView)
    requires
        p == q,
    ensures
        pseudo_legal_moves(p) == pseudo_legal_moves(q),
{
}

/// A move that the move valuation and the move maker accept: both ends on the
/// board, one of my pieces on the first, and, for a pawn taking en passant, a
/// square behind the target that is on the board.
pub open spec fn valid_move(v: BoardView, m: (usize, usize)) -> bool {
    &&& on_board(m.0 as int)
    &&& on_board(m.1 as int)
    &&& is_mine(v.board[m.0 as int])
    &&& (v.board[m.0 as int] == Square::MyPawn && v.en_passant_position == Some(m.1 as int))
        ==> on_board(m.1 + 12)
}

pub fn is_on_board(position: usize) -> (r: bool)
    ensures
        r == on_board(position as int),
{
    position < BOARD_SIZE && PADDING <= position / BOARD_SIDE && position / BOARD_SIDE < 10
        && PADDING <= position % BOARD_SIDE && position % BOARD_SIDE < 10
}

/// Whether `move_` is a move that the move valuation and the move maker accept.
pub fn is_valid_move(board_state: &BoardState, move_: &(usize, usize)) -> (r: bool)
    ensures
        r == valid_move(board_state@, *move_),
{
    let (start_position, end_position) = *move_;
    if !is_on_board(start_position) || !is_on_board(end_position) {
        return false;
    }
    let piece = board_state.board[start_position];
    piece.is_my_piece() && (piece != Square::MyPawn || board_state.en_passant_position != Some(
        end_position,
    ) || is_on_board(end_position + BOARD_SIDE))
}

pub open spec fn king_passant_bonus(v: BoardView, end: int) -> int {
    match v.king_passant_position {
        Some(k) => if -2 < end - k < 2 {
            square_value(Square::MyKing, 143 - end)
        } else {
            0
        },
        None => 0,
    }
}

/// The extra value of castling (the rook's move), of a promotion (to a queen)
/// and of an en passant capture.
pub open spec fn special_value(v: BoardView, start: int, end: int) -> int {
    let piece = v.board[start];
    if piece == Square::MyKing {
        if end - start == 2 || start - end == 2 {
            square_value(Square::MyRook, (start + end) / 2) - square_value(
                Square::MyRook,
                if end < start {
                    A1 as int
                } else {
                    H1 as int
                },
            )
        } else {
            0
        }
    } else if piece == Square::MyPawn {
        if A8 <= end <= H8 {
            square_value(Square::MyQueen, end) - square_value(Square::MyPawn, end)
        } else if v.en_passant_position == Some(end) {
            square_value(Square::MyPawn, 143 - (end + 12))
        } else {
            0
        }
    } else {
        0
    }
}

/// The change of the mover's score made by a move: the piece's value on its
/// new square less its value on the old one, plus the value the opponent had
/// in a captured piece, plus the opponent king's value when landing beside the
/// square it castled through, plus the special value of castling, promotion
/// and en passant.
pub open spec fn move_gain(v: BoardView, m: (usize, usize)) -> int {
    let start = m.0 as int;
    let end = m.1 as int;
    let piece = v.board[start];
    let captured = v.board[end];
    square_value(piece, end) - square_value(piece, start) + (if is_opponent(captured) {
        square_value(swapped(captured), 143 - end)
    } else {
        0
    }) + king_passant_bonus(v, end) + special_value(v, start, end)
}

proof fn lemma_mirror_on_board(i: int)
    requires
        on_board(i),
    ensures
        on_board(143 - i),
{
}

proof fn lemma_castling_middle(start: int, end: int)
    requires
        on_board(start),
        on_board(end),
        end - start == 2 || start - end == 2,
    ensures
        on_board((start + end) / 2),
{
}

proof fn lemma_square_behind(v: BoardView, m: (usize, usize))
    requires
        valid_move(v, m),
    ensures
        v.board[m.0 as int] == Square::MyPawn && v.en_passant_position == Some(m.1 as int) ==> on_board(
            m.1 + 12,
        ) && on_board(143 - (m.1 + 12)),
{
    if v.board[m.0 as int] == Square::MyPawn && v.en_passant_position == Some(m.1 as int) {
        lemma_mirror_on_board(m.1 + 12);
    }
}

/// Value of a move for the side making it.
pub fn move_value(board_state: &BoardState, move_: &(usize, usize)) -> (r: i32)
    requires
        valid_move(board_state@, *move_),
        passant_ok(board_state@.king_passant_position),
    ensures
        r == move_gain(board_state@, *move_),
        -MOVE_VALUE_LIMIT <= r <= MOVE_VALUE_LIMIT,
{
    let (start_position, end_position) = *move_;
    let moving_piece = board_state.board[start_position];
    proof {
        lemma_mirror_on_board(end_position as int);
        if end_position as int - start_position as int == 2 || start_position as int
            - end_position as int == 2 {
            lemma_castling_middle(start_position as int, end_position as int);
        }
        if moving_piece == Square::MyPawn {
            lemma_square_behind(board_state@, *move_);
        }
    }
    let mut temp_score = moving_piece.midgame_value(end_position) - moving_piece.midgame_value(
        start_position,
    );
    // Captures count the piece's value for the opponent
    if board_state.board[end_position].is_opponent_piece() {
        temp_score = temp_score + board_state.board[end_position].swap_color().midgame_value(
            BOARD_SIZE - 1 - end_position,
        );
    }
    // Landing beside the square the opponent's king castled through takes the king
    match board_state.king_passant_position {
        None => {},
        Some(position) => {
            let distance = end_position as i32 - position as i32;
            if -2 < distance && distance < 2 {
                temp_score = temp_score + Square::MyKing.midgame_value(
                    BOARD_SIZE - 1 - end_position,
                );
            }
        },
    }
    match moving_piece {
        Square::MyKing => {
            // Castling also moves the rook
            if end_position as i32 - start_position as i32 == 2 || start_position as i32
                - end_position as i32 == 2 {
                temp_score = temp_score + Square::MyRook.midgame_value(
                    (start_position + end_position) / 2,
                );
                temp_score = temp_score - Square::MyRook.midgame_value(
                    if end_position < start_position {
                        A1
                    } else {
                        H1
                    },
                );
            }
        },
        Square::MyPawn => {
            if A8 <= end_position && end_position <= H8 {
                // Always promote to a queen
                temp_score = temp_score + Square::MyQueen.midgame_value(end_position)
                    - Square::MyPawn.midgame_value(end_position);
            } else if board_state.en_passant_position == Some(end_position) {
                // The pawn taken en passant stands just behind the target square
                temp_score = temp_score + Square::MyPawn.midgame_value(
                    BOARD_SIZE - 1 - (end_position + BOARD_SIDE),
                );
            }
        },
        _ => {},
    }
    temp_score
}


/// A king move of two squares: castling.
pub open spec fn is_castling(v: BoardView, start: int, end: int) -> bool {
    v.board[start] == Square::MyKing && (end - start == 2 || start - end == 2)
}

pub open spec fn is_promotion(v: BoardView, start: int, end: int) -> bool {
    v.board[start] == Square::MyPawn && A8 <= end <= H8
}

/// The board after a move, before it is turned: the piece moves; castling
/// brings the rook beside the king; a pawn reaching the last rank becomes a
/// queen; a pawn taken en passant leaves the square behind the target.
pub open spec fn moved_board(v: BoardView, m: (usize, usize)) -> Seq<Square> {
    let start = m.0 as int;
    let end = m.1 as int;
    let piece = v.board[start];
    let b1 = v.board.update(end, piece).update(start, Square::Empty);
    let b2 = if is_castling(v, start, end) {
        b1.update((start + end) / 2, Square::MyRook).update(
            if start > end {
                A1 as int
            } else {
                H1 as int
            },
            Square::Empty,
        )
    } else {
        b1
    };
    let b3 = if is_promotion(v, start, end) {
        b2.update(end, Square::MyQueen)
    } else {
        b2
    };
    if piece == Square::MyPawn && v.en_passant_position == Some(end) {
        b3.update(end + 12, Square::Empty)
    } else {
        b3
    }
}

/// The position after a move, still seen by the side that made it.
pub open spec fn moved(v: BoardView, m: (usize, usize)) -> BoardView {
    let start = m.0 as int;
    let end = m.1 as int;
    let piece = v.board[start];
    BoardView {
        board: moved_board(v, m),
        score: v.score + move_gain(v, m),
        my_castling_rights: if piece == Square::MyKing {
            (false, false)
        } else {
            (
                if start == A1 {
                    false
                } else {
                    v.my_castling_rights.0
                },
                if start == H1 {
                    false
                } else {
                    v.my_castling_rights.1
                },
            )
        },
        opponent_castling_rights: (
            if end == H8 {
                false
            } else {
                v.opponent_castling_rights.0
            },
            if end == A8 {
                false
            } else {
                v.opponent_castling_rights.1
            },
        ),
        en_passant_position: if piece == Square::MyPawn && !(A8 <= end <= H8) && end - start
            == -24 {
            Some(start - 12)
        } else {
            None
        },
        king_passant_position: if is_castling(v, start, end) {
            Some((start + end) / 2)
        } else {
            None
        },
    }
}

/// The position after a move, seen by the side to move next.
pub open spec fn after(v: BoardView, m: (usize, usize)) -> BoardView {
    rotated(moved(v, m))
}

/// The scores that leave room for one more move.
pub open spec fn score_has_room(score: int) -> bool {
    -(SCORE_LIMIT - MOVE_VALUE_LIMIT) <= score <= SCORE_LIMIT - MOVE_VALUE_LIMIT
}

proof fn lemma_update_keeps_walls(b: Seq<Square>, i: int, x: Square)
    requires
        walls_ok(b),
        on_board(i),
        x != Square::Wall,
    ensures
        walls_ok(b.update(i, x)),
{
}

/// Makes a move and turns the board for the other side.
pub fn after_move(board_state: &BoardState, move_: &(usize, usize)) -> (r: BoardState)
    requires
        well_formed(board_state@),
        valid_move(board_state@, *move_),
        score_has_room(board_state@.score),
    ensures
        r@ == after(board_state@, *move_),
        well_formed(r@),
        -MOVE_VALUE_LIMIT <= move_gain(board_state@, *move_) <= MOVE_VALUE_LIMIT,
{
    let ghost v = board_state@;
    let (start_position, end_position) = *move_;
    let start_square = board_state.board[start_position];
    let mut new_board = board_state.board;
    let mut my_castling_rights = board_state.my_castling_rights;
    let mut opponent_castling_rights = board_state.opponent_castling_rights;
    let mut en_passant_position: Option<usize> = None;
    let mut king_passant_position: Option<usize> = None;
    proof {
        lemma_update_keeps_walls(v.board, end_position as int, start_square);
        lemma_update_keeps_walls(
            v.board.update(end_position as int, start_square),
            start_position as int,
            Square::Empty,
        );
    }

    // The move itself
    new_board[end_position] = start_square;
    new_board[start_position] = Square::Empty;

    // Moving a rook off its corner, or capturing the opponent's, loses the right
    if start_position == A1 {
        my_castling_rights = (false, my_castling_rights.1);
    }
    if start_position == H1 {
        my_castling_rights = (my_castling_rights.0, false);
    }
    if end_position == A8 {
        opponent_castling_rights = (opponent_castling_rights.0, false);
    }
    if end_position == H8 {
        opponent_castling_rights = (false, opponent_castling_rights.1);
    }

    if start_square == Square::MyKing {
        my_castling_rights = (false, false);
        if end_position as i32 - start_position as i32 == 2 || start_position as i32
            - end_position as i32 == 2 {
            let final_rook_position: usize = (start_position + end_position) / 2;
            proof {
                lemma_castling_middle(start_position as int, end_position as int);
                lemma_update_keeps_walls(new_board@, final_rook_position as int, Square::MyRook);
                lemma_update_keeps_walls(
                    new_board@.update(final_rook_position as int, Square::MyRook),
                    if start_position > end_position {
                        A1 as int
                    } else {
                        H1 as int
                    },
                    Square::Empty,
                );
            }
            new_board[final_rook_position] = Square::MyRook;
            king_passant_position = Some(final_rook_position);
            if start_position > end_position {
                new_board[A1] = Square::Empty;
            } else {
                new_board[H1] = Square::Empty;
            }
        }
    }

    // Promotion, double step and en passant capture
    if start_square == Square::MyPawn {
        proof {
            lemma_square_behind(board_state@, *move_);
        }
        if A8 <= end_position && end_position <= H8 {
            proof {
                lemma_update_keeps_walls(new_board@, end_position as int, Square::MyQueen);
            }
            new_board[end_position] = Square::MyQueen;
        } else if end_position as i32 - start_position as i32 == 2 * Direction::NORTH {
            en_passant_position = Some(start_position - BOARD_SIDE);
        }
        if board_state.en_passant_position == Some(end_position) {
            proof {
                lemma_update_keeps_walls(new_board@, end_position + 12, Square::Empty);
            }
            new_board[end_position + BOARD_SIDE] = Square::Empty;
        }
    }

    let mut new_board_state = BoardState {
        board: new_board,
        score: board_state.score + move_value(board_state, move_),
        my_castling_rights,
        opponent_castling_rights,
        en_passant_position,
        king_passant_position,
    };
    assert(new_board_state@.board =~= moved_board(v, *move_));
    assert(new_board_state@ == moved(v, *move_));
    rotate(&mut new_board_state);
    new_board_state
}

/// Whether the moved piece, from its new square, would reach the opponent's
/// king.
pub open spec fn gives_check(v: BoardView, m: (usize, usize)) -> bool {
    attacks_king(v, reachable(v, v.board[m.0 as int], m.1 as int))
}

pub open spec fn attacks_king(v: BoardView, reach: Seq<usize>) -> bool {
    exists|j: int| 0 <= j < reach.len() && v.board[#[trigger] reach[j] as int] == Square::OpponentKing
}

/// Whether the piece moved by `move_` attacks the opponent's king from its new
/// square.
pub fn can_check(board_state: &BoardState, move_: &(usize, usize)) -> (r: bool)
    requires
        move_.0 < 144,
        move_.1 < 144,
        is_mine(board_state@.board[move_.0 as int]),
    ensures
        r == gives_check(board_state@, *move_),
{
    let (start_position, end_position) = *move_;
    let moved_piece = board_state.board[start_position];
    assert(moved_piece == board_state@.board[move_.0 as int]);
    let reach = piece_moves(board_state, moved_piece, end_position);
    let mut j: usize = 0;
    while j < reach.len()
        invariant
            end_position == move_.1,
            moved_piece == board_state@.board[move_.0 as int],
            reach@ == reachable(board_state@, moved_piece, end_position as int),
            targets_ok(board_state@, reach@),
            j <= reach.len(),
            forall|i: int| 0 <= i < j ==> board_state@.board[#[trigger] reach@[i] as int] != Square::OpponentKing,
        decreases reach.len() - j,
    {
        if board_state.board[reach[j]] == Square::OpponentKing {
            assert(board_state@.board[reach@[j as int] as int] == Square::OpponentKing);
            assert(attacks_king(board_state@, reach@));
            return true;
        }
        j = j + 1;
    }
    false
}

/// The value of a square for the side to move: a piece's value for its owner,
/// counted against me when it is the opponent's.
pub open spec fn square_score(b: Seq<Square>, i: int) -> int {
    cell_score(b[i], i)
}

/// The value of `s` standing on square `i`, for the side to move.
pub open spec fn cell_score(s: Square, i: int) -> int {
    if is_mine(s) {
        square_value(s, i)
    } else if is_opponent(s) {
        -square_value(swapped(s), 143 - i)
    } else {
        0
    }
}

/// The sum of the values of the first `n` squares.
pub open spec fn score_sum(b: Seq<Square>, n: int) -> int
    decreases n,
{
    if n <= 0 {
        0
    } else {
        score_sum(b, n - 1) + square_score(b, n - 1)
    }
}

/// The evaluation of a board computed from scratch.
pub open spec fn board_score(b: Seq<Square>) -> int {
    score_sum(b, 144)
}

/// Evaluation of a board for the side to move, summed over all squares.
pub fn static_score(board: [Square; BOARD_SIZE]) -> (r: i32)
    requires
        walls_ok(board@),
    ensures
        r == board_score(board@),
        -144 * 32032 <= r <= 144 * 32032,
{
    let mut sum: i32 = 0;
    let mut index: usize = 0;
    while index < BOARD_SIZE
        invariant
            walls_ok(board@),
            index <= 144,
            sum == score_sum(board@, index as int),
            -32032 * index <= sum <= 32032 * index,
        decreases 144 - index,
    {
        let piece = board[index];
        if piece.is_my_piece() {
            sum = sum + piece.midgame_value(index);
        } else if piece.is_opponent_piece() {
            proof {
                lemma_mirror_on_board(index as int);
            }
            sum = sum - piece.swap_color().midgame_value(BOARD_SIZE - 1 - index);
        }
        index = index + 1;
    }
    sum
}


/// My back rank from the a-file to the h-file.
pub open spec fn back_rank() -> Seq<Square> {
    seq![
        Square::MyRook,
        Square::MyKnight,
        Square::MyBishop,
        Square::MyQueen,
        Square::MyKing,
        Square::MyBishop,
        Square::MyKnight,
        Square::MyRook,
    ]
}

/// The board at the start of a game, White to move.
pub open spec fn initial_board() -> Seq<Square> {
    Seq::new(
        144,
        |i: int|
            if !on_board(i) {
                Square::Wall
            } else if i / 12 == 2 {
                swapped(back_rank()[i % 12 - 2])
            } else if i / 12 == 3 {
                Square::OpponentPawn
            } else if i / 12 == 8 {
                Square::MyPawn
            } else if i / 12 == 9 {
                back_rank()[i % 12 - 2]
            } else {
                Square::Empty
            },
    )
}

fn back_rank_piece(file: usize) -> (r: Square)
    requires
        file < 8,
    ensures
        r == back_rank()[file as int],
{
    let pieces: [Square; 8] = [
        Square::MyRook,
        Square::MyKnight,
        Square::MyBishop,
        Square::MyQueen,
        Square::MyKing,
        Square::MyBishop,
        Square::MyKnight,
        Square::MyRook,
    ];
    pieces[file]
}

/// The position at the start of a game: score 0, all castling rights, no
/// passant square.
pub fn initial_board_state() -> (r: BoardState)
    ensures
        r@.board == initial_board(),
        r.score == 0,
        r.my_castling_rights == (true, true),
        r.opponent_castling_rights == (true, true),
        r.en_passant_position.is_none(),
        r.king_passant_position.is_none(),
        well_formed(r@),
{
    let mut board = [Square::Empty; BOARD_SIZE];
    let mut i: usize = 0;
    while i < BOARD_SIZE
        invariant
            i <= 144,
            forall|j: int| 0 <= j < i ==> board@[j] == initial_board()[j],
        decreases 144 - i,
    {
        let row = i / BOARD_SIDE;
        let column = i % BOARD_SIDE;
        if row < PADDING || row >= 10 || column < PADDING || column >= 10 {
            board[i] = Square::Wall;
        } else if row == 2 {
            board[i] = back_rank_piece(column - PADDING).swap_color();
        } else if row == 3 {
            board[i] = Square::OpponentPawn;
        } else if row == 8 {
            board[i] = Square::MyPawn;
        } else if row == 9 {
            board[i] = back_rank_piece(column - PADDING);
        } else {
            board[i] = Square::Empty;
        }
        i = i + 1;
    }
    assert(board@ =~= initial_board());
    BoardState {
        board,
        score: 0,
        my_castling_rights: (true, true),
        opponent_castling_rights: (true, true),
        en_passant_position: None,
        king_passant_position: None,
    }
}


proof fn lemma_sum_update(b: Seq<Square>, j: int, x: Square, n: int)
    requires
        0 <= j < b.len(),
        0 <= n <= b.len(),
    ensures
        score_sum(b.update(j, x), n) == score_sum(b, n) + if j < n {
            cell_score(x, j) - cell_score(b[j], j)
        } else {
            0
        },
    decreases n,
{
    if n > 0 {
        lemma_sum_update(b, j, x, n - 1);
    }
}

proof fn lemma_score_update(b: Seq<Square>, j: int, x: Square)
    requires
        b.len() == 144,
        0 <= j < 144,
    ensures
        board_score(b.update(j, x)) == board_score(b) + cell_score(x, j) - cell_score(b[j], j),
{
    lemma_sum_update(b, j, x, 144);
}

/// The values of the last `n` squares, from the last one down.
spec fn reverse_sum(b: Seq<Square>, n: int) -> int
    decreases n,
{
    if n <= 0 {
        0
    } else {
        reverse_sum(b, n - 1) + square_score(b, 144 - n)
    }
}

proof fn lemma_reverse_sum(b: Seq<Square>, n: int)
    requires
        0 <= n <= 144,
    ensures
        reverse_sum(b, n) == score_sum(b, 144) - score_sum(b, 144 - n),
    decreases n,
{
    if n > 0 {
        lemma_reverse_sum(b, n - 1);
    }
}

proof fn lemma_cell_swapped(s: Square, i: int)
    ensures
        cell_score(swapped(s), i) == -cell_score(s, 143 - i),
{
}

proof fn lemma_rotated_sum(v: BoardView, n: int)
    requires
        walls_ok(v.board),
        0 <= n <= 144,
    ensures
        score_sum(rotated(v).board, n) == -reverse_sum(v.board, n),
    decreases n,
{
    if n > 0 {
        lemma_rotated_sum(v, n - 1);
        let i = n - 1;
        let r = rotated(v).board;
        if 26 <= i < 118 {
            lemma_cell_swapped(v.board[143 - i], i);
        } else {
            assert(!on_board(i) && !on_board(143 - i));
            assert(v.board[i] == Square::Wall && v.board[143 - i] == Square::Wall);
        }
        assert(square_score(r, i) == -square_score(v.board, 144 - n));
    }
}

/// Turning the board negates its recomputed evaluation.
pub proof fn lemma_rotated_score(v: BoardView)
    requires
        walls_ok(v.board),
    ensures
        board_score(rotated(v).board) == -board_score(v.board),
{
    lemma_rotated_sum(v, 144);
    lemma_reverse_sum(v.board, 144);
}

/// The corner whose rook joins a castling king.
pub open spec fn castling_corner(start: int, end: int) -> int {
    if start > end {
        A1 as int
    } else {
        H1 as int
    }
}

/// A move whose incremental value is the change of the recomputed
/// evaluation: it does not land on one of my pieces, does not take a king
/// beside the square it castled through, castles only with a rook in the
/// corner and an empty square for it to land on, and takes en passant only a
/// pawn that is there, short of the last rank.
pub open spec fn score_preserving(v: BoardView, m: (usize, usize)) -> bool {
    let start = m.0 as int;
    let end = m.1 as int;
    &&& !is_mine(v.board[end])
    &&& king_passant_bonus(v, end) == 0
    &&& is_castling(v, start, end) ==> v.board[(start + end) / 2] == Square::Empty
        && v.board[castling_corner(start, end)] == Square::MyRook
    &&& (v.board[start] == Square::MyPawn && v.en_passant_position == Some(end)) ==> v.board[end
        + 12] == Square::OpponentPawn && !(A8 <= end <= H8)
}

proof fn lemma_moved_score(v: BoardView, m: (usize, usize))
    requires
        well_formed(v),
        valid_move(v, m),
        score_preserving(v, m),
    ensures
        board_score(moved_board(v, m)) == board_score(v.board) + move_gain(v, m),
{
    let start = m.0 as int;
    let end = m.1 as int;
    let piece = v.board[start];
    let b = v.board;
    let b1a = b.update(end, piece);
    lemma_score_update(b, end, piece);
    let b1 = b1a.update(start, Square::Empty);
    lemma_score_update(b1a, start, Square::Empty);
    assert(board_score(b1) == board_score(b) + square_value(piece, end) - square_value(piece, start)
        + (if is_opponent(b[end]) {
        square_value(swapped(b[end]), 143 - end)
    } else {
        0
    }));
    let b2 = if is_castling(v, start, end) {
        let mid = (start + end) / 2;
        let corner = castling_corner(start, end);
        lemma_castling_middle(start, end);
        let b2a = b1.update(mid, Square::MyRook);
        lemma_score_update(b1, mid, Square::MyRook);
        lemma_score_update(b2a, corner, Square::Empty);
        assert(board_score(b2a.update(corner, Square::Empty)) == board_score(b1) + square_value(
            Square::MyRook,
            mid,
        ) - square_value(Square::MyRook, corner));
        b2a.update(corner, Square::Empty)
    } else {
        b1
    };
    let b3 = if is_promotion(v, start, end) {
        lemma_score_update(b2, end, Square::MyQueen);
        b2.update(end, Square::MyQueen)
    } else {
        b2
    };
    if piece == Square::MyPawn && v.en_passant_position == Some(end) {
        lemma_square_behind(v, m);
        lemma_score_update(b3, end + 12, Square::Empty);
        assert(b3[end + 12] == Square::OpponentPawn);
    }
}

/// Score consistency: when a position's score is its recomputed evaluation,
/// so is the score of the position a move leads to, for every move whose
/// value is the change of that evaluation.
pub proof fn lemma_score_consistency(v: BoardView, m: (usize, usize))
    requires
        well_formed(v),
        valid_move(v, m),
        score_preserving(v, m),
        v.score == board_score(v.board),
    ensures
        after(v, m).score == board_score(after(v, m).board),
{
    lemma_moved_score(v, m);
    lemma_moved_walls(v, m);
    lemma_rotated_score(moved(v, m));
}

proof fn lemma_moved_walls(v: BoardView, m: (usize, usize))
    requires
        well_formed(v),
        valid_move(v, m),
    ensures
        walls_ok(moved_board(v, m)),
{
    let start = m.0 as int;
    let end = m.1 as int;
    let piece = v.board[start];
    lemma_update_keeps_walls(v.board, end, piece);
    let b1 = v.board.update(end, piece).update(start, Square::Empty);
    lemma_update_keeps_walls(v.board.update(end, piece), start, Square::Empty);
    if is_castling(v, start, end) {
        lemma_castling_middle(start, end);
        lemma_update_keeps_walls(b1, (start + end) / 2, Square::MyRook);
        lemma_update_keeps_walls(
            b1.update((start + end) / 2, Square::MyRook),
            castling_corner(start, end),
            Square::Empty,
        );
    }
    if piece == Square::MyPawn {
        lemma_square_behind(v, m);
    }
    let b2 = if is_castling(v, start, end) {
        b1.update((start + end) / 2, Square::MyRook).update(
            castling_corner(start, end),
            Square::Empty,
        )
    } else {
        b1
    };
    if is_promotion(v, start, end) {
        lemma_update_keeps_walls(b2, end, Square::MyQueen);
    }
    let b3 = if is_promotion(v, start, end) {
        b2.update(end, Square::MyQueen)
    } else {
        b2
    };
    if piece == Square::MyPawn && v.en_passant_position == Some(end) {
        lemma_update_keeps_walls(b3, end + 12, Square::Empty);
    }
}

} // verus!
