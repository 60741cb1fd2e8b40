use vstd::prelude::*;

use crate::board::{
    board_score, on_board, rotate, rotated, static_score, walls_ok, well_formed, BoardState,
    BoardView, A1, A8, BOARD_SIDE, BOARD_SIZE, PADDING,
};
use crate::pieces::Square;

verus! {

/// The characters of a string.
pub fn chars_of(s: &str) -> (r: Vec<char>)
    ensures
        r@ == s@,
{
    let mut v: Vec<char> = Vec::new();
    for c in it: s.chars()
        invariant
            v@ == it.seq().take(it.index() as int),
    {
        v.push(c);
    }
    v
}

/// Relies on `String::from_iter`: the string made of the given characters.
#[verifier::external_body]
pub(crate) fn string_of(v: Vec<char>) -> (r: String)
    ensures
        r@ == v@,
{
    String::from_iter(v)
}

pub open spec fn files() -> Seq<char> {
    seq!['a', 'b', 'c', 'd', 'e', 'f', 'g', 'h']
}

pub open spec fn ranks() -> Seq<char> {
    seq!['8', '7', '6', '5', '4', '3', '2', '1']
}

/// A square written as a file letter and a rank digit.
pub open spec fn coordinates_ok(file: char, rank: char) -> bool {
    'a' <= file <= 'h' && '1' <= rank <= '8'
}

/// The square named by a file letter and a rank digit, from White's side.
pub open spec fn square_at(file: char, rank: char) -> int {
    A1 + (file as int - 'a' as int) - 12 * (rank as int - '1' as int)
}

/// The file letter and rank digit of a square of the board.
pub open spec fn coordinates_text(position: int) -> Seq<char> {
    seq![files()[(position - A8) % 12], ranks()[(position - A8) / 12]]
}

pub(crate) fn square_of_chars(file: char, rank: char) -> (r: usize)
    requires
        coordinates_ok(file, rank),
    ensures
        r == square_at(file, rank),
        on_board(r as int),
{
    let f = file as u32 - 'a' as u32;
    let k = rank as u32 - '1' as u32;
    A1 + f as usize - BOARD_SIDE * (k as usize)
}

/// The square named by the first two characters, such as `e4`.
pub fn parse_coordinates(coordinates: &str) -> (r: usize)
    requires
        coordinates@.len() >= 2,
        coordinates_ok(coordinates@[0], coordinates@[1]),
    ensures
        r == square_at(coordinates@[0], coordinates@[1]),
        on_board(r as int),
{
    let chars = chars_of(coordinates);
    square_of_chars(chars[0], chars[1])
}

/// A move in long algebraic notation, such as `e2e4`; anything after the
/// fourth character is ignored.
pub fn parse_move(move_: &str) -> (r: (usize, usize))
    requires
        move_@.len() >= 4,
        coordinates_ok(move_@[0], move_@[1]),
        coordinates_ok(move_@[2], move_@[3]),
    ensures
        r.0 == square_at(move_@[0], move_@[1]),
        r.1 == square_at(move_@[2], move_@[3]),
        on_board(r.0 as int),
        on_board(r.1 as int),
{
    let chars = chars_of(move_);
    let from = square_of_chars(chars[0], chars[1]);
    let to = square_of_chars(chars[2], chars[3]);
    (from, to)
}

fn push_coordinates(text: &mut Vec<char>, position: usize)
    requires
        on_board(position as int),
    ensures
        final(text)@ == old(text)@ + coordinates_text(position as int),
{
    let file_letters: [char; 8] = ['a', 'b', 'c', 'd', 'e', 'f', 'g', 'h'];
    let rank_digits: [char; 8] = ['8', '7', '6', '5', '4', '3', '2', '1'];
    text.push(file_letters[(position - A8) % BOARD_SIDE]);
    text.push(rank_digits[(position - A8) / BOARD_SIDE]);
    assert(final(text)@ =~= old(text)@ + coordinates_text(position as int));
}

fn render_coordinates(position: usize) -> (r: String)
    requires
        on_board(position as int),
    ensures
        r@ == coordinates_text(position as int),
{
    let mut text: Vec<char> = Vec::new();
    push_coordinates(&mut text, position);
    string_of(text)
}

/// A move in long algebraic notation, such as `e2e4`.
pub fn render_move(move_: &(usize, usize)) -> (r: String)
    requires
        on_board(move_.0 as int),
        on_board(move_.1 as int),
    ensures
        r@ == coordinates_text(move_.0 as int) + coordinates_text(move_.1 as int),
{
    let mut text: Vec<char> = Vec::new();
    push_text(&mut text, render_coordinates(move_.0).as_str());
    push_text(&mut text, render_coordinates(move_.1).as_str());
    string_of(text)
}

pub open spec fn unicode_of(s: Square) -> char {
    match s {
        Square::MyRook => '♜',
        Square::MyKnight => '♞',
        Square::MyBishop => '♝',
        Square::MyQueen => '♛',
        Square::MyKing => '♚',
        Square::MyPawn => '♟',
        Square::OpponentRook => '♖',
        Square::OpponentKnight => '♘',
        Square::OpponentBishop => '♗',
        Square::OpponentQueen => '♕',
        Square::OpponentKing => '♔',
        Square::OpponentPawn => '♙',
        Square::Empty => '·',
        Square::Wall => 'X',
    }
}

impl Square {
    /// The chess symbol of the square's piece: filled for mine, hollow for the
    /// opponent's.
    pub fn to_unicode(self) -> (r: char)
        ensures
            r == unicode_of(self),
    {
        match self {
            Square::MyRook => '♜',
            Square::MyKnight => '♞',
            Square::MyBishop => '♝',
            Square::MyQueen => '♛',
            Square::MyKing => '♚',
            Square::MyPawn => '♟',
            Square::OpponentRook => '♖',
            Square::OpponentKnight => '♘',
            Square::OpponentBishop => '♗',
            Square::OpponentQueen => '♕',
            Square::OpponentKing => '♔',
            Square::OpponentPawn => '♙',
            Square::Empty => '·',
            Square::Wall => 'X',
        }
    }
}


pub open spec fn digit_char(d: int) -> char {
    seq!['0', '1', '2', '3', '4', '5', '6', '7', '8', '9'][d]
}

/// The decimal digits of a natural number.
pub open spec fn digits_text(n: nat) -> Seq<char>
    decreases n,
{
    if n < 10 {
        seq![digit_char(n as int)]
    } else {
        digits_text(n / 10) + seq![digit_char((n % 10) as int)]
    }
}

/// An integer in decimal, with a minus sign when negative.
pub open spec fn decimal_text(n: int) -> Seq<char> {
    if n < 0 {
        seq!['-'] + digits_text((-n) as nat)
    } else {
        digits_text(n as nat)
    }
}

pub open spec fn bool_text(b: bool) -> Seq<char> {
    if b {
        seq!['t', 'r', 'u', 'e']
    } else {
        seq!['f', 'a', 'l', 's', 'e']
    }
}

/// A pair of booleans as `(true, false)`.
pub open spec fn pair_text(p: (bool, bool)) -> Seq<char> {
    seq!['('] + bool_text(p.0) + seq![',', ' '] + bool_text(p.1) + seq![')']
}

pub(crate) fn push_text(text: &mut Vec<char>, s: &str)
    ensures
        final(text)@ == old(text)@ + s@,
{
    let chars = chars_of(s);
    let mut i: usize = 0;
    while i < chars.len()
        invariant
            i <= chars.len(),
            chars@ == s@,
            text@ == old(text)@ + chars@.take(i as int),
        decreases chars.len() - i,
    {
        text.push(chars[i]);
        i = i + 1;
        assert(text@ =~= old(text)@ + chars@.take(i as int));
    }
    assert(chars@.take(chars.len() as int) =~= chars@);
}

fn digit(d: u64) -> (r: char)
    requires
        d < 10,
    ensures
        r == digit_char(d as int),
{
    let digits: [char; 10] = ['0', '1', '2', '3', '4', '5', '6', '7', '8', '9'];
    digits[d as usize]
}

fn push_digits(text: &mut Vec<char>, n: u64)
    ensures
        final(text)@ == old(text)@ + digits_text(n as nat),
    decreases n,
{
    if n >= 10 {
        push_digits(text, n / 10);
    }
    text.push(digit(n % 10));
    assert(final(text)@ =~= old(text)@ + digits_text(n as nat));
}

fn push_decimal(text: &mut Vec<char>, n: i64)
    requires
        n > i64::MIN,
    ensures
        final(text)@ == old(text)@ + decimal_text(n as int),
{
    if n < 0 {
        text.push('-');
        push_digits(text, (-n) as u64);
    } else {
        push_digits(text, n as u64);
    }
    assert(final(text)@ =~= old(text)@ + decimal_text(n as int));
}

fn push_bool(text: &mut Vec<char>, b: bool)
    ensures
        final(text)@ == old(text)@ + bool_text(b),
{
    if b {
        text.push('t');
        text.push('r');
        text.push('u');
        text.push('e');
    } else {
        text.push('f');
        text.push('a');
        text.push('l');
        text.push('s');
        text.push('e');
    }
    assert(final(text)@ =~= old(text)@ + bool_text(b));
}

fn push_pair(text: &mut Vec<char>, p: (bool, bool))
    ensures
        final(text)@ == old(text)@ + pair_text(p),
{
    text.push('(');
    push_bool(text, p.0);
    text.push(',');
    text.push(' ');
    push_bool(text, p.1);
    text.push(')');
    assert(final(text)@ =~= old(text)@ + pair_text(p));
}

/// The symbols of the first `n` squares of rank row `i` (0 for the 8th
/// rank), each after a space.
pub open spec fn squares_text(v: BoardView, i: int, n: int) -> Seq<char>
    decreases n,
{
    if n <= 0 {
        Seq::empty()
    } else {
        squares_text(v, i, n - 1) + seq![' ', unicode_of(v.board[(i + 2) * 12 + n + 1])]
    }
}

/// One rank of the drawing: its number, then its squares.
pub open spec fn row_text(v: BoardView, i: int) -> Seq<char> {
    seq![' ', digit_char(8 - i), ' '] + squares_text(v, i, 8) + seq!['\n']
}

pub open spec fn rows_text(v: BoardView, n: int) -> Seq<char>
    decreases n,
{
    if n <= 0 {
        Seq::empty()
    } else {
        rows_text(v, n - 1) + row_text(v, n - 1)
    }
}

pub open spec fn score_error_text(v: BoardView) -> Seq<char> {
    if board_score(v.board) != v.score {
        "STATIC SCORE ERROR, SHOULD BE: "@ + decimal_text(board_score(v.board)) + seq!['\n']
    } else {
        Seq::empty()
    }
}

pub open spec fn en_passant_text(v: BoardView) -> Seq<char> {
    match v.en_passant_position {
        Some(e) => "En passant is Some("@ + decimal_text(e) + seq![')', '\n'],
        None => Seq::empty(),
    }
}

/// The drawing of a position: the ranks from 8 down to 1, the files, the
/// score (and the recomputed score where they differ), the en passant square
/// if any, and the castling rights.
pub open spec fn board_text(v: BoardView) -> Seq<char> {
    rows_text(v, 8) + "    a b c d e f g h \n\n"@ + "Static score: "@ + decimal_text(v.score)
        + seq!['\n'] + score_error_text(v) + en_passant_text(v) + "Castling rights are "@
        + pair_text(v.my_castling_rights) + seq![' '] + pair_text(v.opponent_castling_rights)
        + seq!['\n']
}

/// Draws the position as text, from the side to move.
pub fn render_board(board_state: &BoardState) -> (r: String)
    requires
        walls_ok(board_state@.board),
    ensures
        r@ == board_text(board_state@),
{
    let ghost v = board_state@;
    let mut text: Vec<char> = Vec::new();
    let mut i: usize = 0;
    while i < 8
        invariant
            v == board_state@,
            i <= 8,
            text@ == rows_text(v, i as int),
        decreases 8 - i,
    {
        let ghost row_start = text@;
        text.push(' ');
        text.push(digit((8 - i) as u64));
        text.push(' ');
        let mut f: usize = 0;
        while f < 8
            invariant
                v == board_state@,
                i < 8,
                f <= 8,
                text@ == row_start + seq![' ', digit_char(8 - i), ' '] + squares_text(
                    v,
                    i as int,
                    f as int,
                ),
            decreases 8 - f,
        {
            text.push(' ');
            text.push(board_state.board[(i + PADDING) * BOARD_SIDE + f + PADDING].to_unicode());
            f = f + 1;
            assert(text@ =~= row_start + seq![' ', digit_char(8 - i), ' '] + squares_text(
                v,
                i as int,
                f as int,
            ));
        }
        text.push('\n');
        i = i + 1;
        assert(text@ =~= rows_text(v, i as int));
    }
    push_text(&mut text, "    a b c d e f g h \n\n");
    push_text(&mut text, "Static score: ");
    push_decimal(&mut text, board_state.score as i64);
    text.push('\n');
    let ghost before_error = text@;
    let recomputed = static_score(board_state.board);
    if recomputed != board_state.score {
        push_text(&mut text, "STATIC SCORE ERROR, SHOULD BE: ");
        push_decimal(&mut text, recomputed as i64);
        text.push('\n');
    }
    assert(text@ =~= before_error + score_error_text(v));
    let ghost before_passant = text@;
    match board_state.en_passant_position {
        Some(e) => {
            push_text(&mut text, "En passant is Some(");
            push_digits(&mut text, e as u64);
            text.push(')');
            text.push('\n');
        },
        None => {},
    }
    assert(text@ =~= before_passant + en_passant_text(v));
    push_text(&mut text, "Castling rights are ");
    push_pair(&mut text, board_state.my_castling_rights);
    text.push(' ');
    push_pair(&mut text, board_state.opponent_castling_rights);
    text.push('\n');
    assert(text@ =~= board_text(v));
    string_of(text)
}


/// The number of spaces in `s`.
pub open spec fn spaces(s: Seq<char>) -> int
    decreases s.len(),
{
    if s.len() == 0 {
        0
    } else {
        spaces(s.drop_last()) + if s.last() == ' ' {
            1int
        } else {
            0int
        }
    }
}

/// The `n`-th field of `s`, fields being separated by single spaces; empty
/// when `s` has fewer fields.
pub open spec fn fen_field(s: Seq<char>, n: int) -> Seq<char>
    decreases s.len(),
{
    if s.len() == 0 {
        Seq::empty()
    } else if s.last() != ' ' && spaces(s.drop_last()) == n {
        fen_field(s.drop_last(), n).push(s.last())
    } else {
        fen_field(s.drop_last(), n)
    }
}

/// The square content written by a letter: upper case for White, which moves
/// first; anything else is empty.
pub open spec fn piece_of(c: char) -> Square {
    if c == 'P' {
        Square::MyPawn
    } else if c == 'N' {
        Square::MyKnight
    } else if c == 'B' {
        Square::MyBishop
    } else if c == 'R' {
        Square::MyRook
    } else if c == 'Q' {
        Square::MyQueen
    } else if c == 'K' {
        Square::MyKing
    } else if c == 'p' {
        Square::OpponentPawn
    } else if c == 'n' {
        Square::OpponentKnight
    } else if c == 'b' {
        Square::OpponentBishop
    } else if c == 'r' {
        Square::OpponentRook
    } else if c == 'q' {
        Square::OpponentQueen
    } else if c == 'k' {
        Square::OpponentKing
    } else {
        Square::Empty
    }
}

/// The board with walls on the padding and every square empty.
pub open spec fn empty_board() -> Seq<Square> {
    Seq::new(
        144,
        |i: int|
            if on_board(i) {
                Square::Empty
            } else {
                Square::Wall
            },
    )
}

/// Reading a piece placement: the rank (0 for the 8th, capped at 8), the file
/// (capped at 8) and the board after the characters of `s`. A `/` starts the
/// next rank, a digit skips that many files, and any other character fills
/// one square; what falls outside the board is dropped.
pub open spec fn placement(s: Seq<char>) -> (int, int, Seq<Square>)
    decreases s.len(),
{
    if s.len() == 0 {
        (0, 0, empty_board())
    } else {
        let before = placement(s.drop_last());
        let rank = before.0;
        let file = before.1;
        let c = s.last();
        if c == '/' {
            (if rank < 8 {
                rank + 1
            } else {
                8
            }, 0, before.2)
        } else if '0' <= c <= '9' {
            let next = file + (c as int - '0' as int);
            (rank, if next < 8 {
                next
            } else {
                8
            }, before.2)
        } else {
            (
                rank,
                if file < 8 {
                    file + 1
                } else {
                    8
                },
                if rank < 8 && file < 8 {
                    before.2.update((rank + 2) * 12 + file + 2, piece_of(c))
                } else {
                    before.2
                },
            )
        }
    }
}

/// The position a FEN string describes, seen from the side to move. Fields:
/// placement, side to move (`b` for Black), castling rights (`K`, `Q`, `k`,
/// `q`), en passant square; the move counters are not read. The score is
/// computed from the board, and a position with Black to move is turned.
pub open spec fn fen_position(s: Seq<char>) -> BoardView {
    let board = placement(fen_field(s, 0)).2;
    let castling = fen_field(s, 2);
    let passant = fen_field(s, 3);
    let v = BoardView {
        board: board,
        score: board_score(board),
        my_castling_rights: (castling.contains('Q'), castling.contains('K')),
        opponent_castling_rights: (castling.contains('k'), castling.contains('q')),
        en_passant_position: if passant.len() >= 2 && coordinates_ok(passant[0], passant[1]) {
            Some(square_at(passant[0], passant[1]))
        } else {
            None
        },
        king_passant_position: None,
    };
    if fen_field(s, 1) == seq!['b'] {
        rotated(v)
    } else {
        v
    }
}

fn square_from_char(c: char) -> (r: Square)
    ensures
        r == piece_of(c),
{
    match c {
        'P' => Square::MyPawn,
        'N' => Square::MyKnight,
        'B' => Square::MyBishop,
        'R' => Square::MyRook,
        'Q' => Square::MyQueen,
        'K' => Square::MyKing,
        'p' => Square::OpponentPawn,
        'n' => Square::OpponentKnight,
        'b' => Square::OpponentBishop,
        'r' => Square::OpponentRook,
        'q' => Square::OpponentQueen,
        'k' => Square::OpponentKing,
        _ => Square::Empty,
    }
}

fn contains_char(s: &Vec<char>, c: char) -> (r: bool)
    ensures
        r == s@.contains(c),
{
    let mut i: usize = 0;
    while i < s.len()
        invariant
            i <= s.len(),
            forall|j: int| 0 <= j < i ==> s@[j] != c,
        decreases s.len() - i,
    {
        if s[i] == c {
            assert(s@[i as int] == c);
            return true;
        }
        i = i + 1;
    }
    false
}

/// Reads a position in Forsyth-Edwards notation.
pub fn from_fen(fen: &str) -> (r: BoardState)
    ensures
        r@ == fen_position(fen@),
        well_formed(r@),
{
    let chars = chars_of(fen);
    let ghost s = fen@;

    // Split the first four fields
    let mut placement_field: Vec<char> = Vec::new();
    let mut turn: Vec<char> = Vec::new();
    let mut castling: Vec<char> = Vec::new();
    let mut en_passant: Vec<char> = Vec::new();
    let mut field: usize = 0;
    let mut i: usize = 0;
    while i < chars.len()
        invariant
            chars@ == s,
            i <= chars.len(),
            field <= i,
            field as int == spaces(s.take(i as int)),
            placement_field@ == fen_field(s.take(i as int), 0),
            turn@ == fen_field(s.take(i as int), 1),
            castling@ == fen_field(s.take(i as int), 2),
            en_passant@ == fen_field(s.take(i as int), 3),
        decreases chars.len() - i,
    {
        let c = chars[i];
        assert(s.take(i + 1).drop_last() =~= s.take(i as int));
        if c == ' ' {
            field = field + 1;
        } else if field == 0 {
            placement_field.push(c);
        } else if field == 1 {
            turn.push(c);
        } else if field == 2 {
            castling.push(c);
        } else if field == 3 {
            en_passant.push(c);
        }
        i = i + 1;
    }
    assert(s.take(chars.len() as int) =~= s);

    // Place the pieces
    let mut new_board = [Square::Empty; BOARD_SIZE];
    let mut p: usize = 0;
    while p < BOARD_SIZE
        invariant
            p <= 144,
            forall|j: int| 0 <= j < p ==> new_board@[j] == empty_board()[j],
            forall|j: int| p <= j < 144 ==> new_board@[j] == Square::Empty,
        decreases 144 - p,
    {
        let rank = p / BOARD_SIDE;
        let file = p % BOARD_SIDE;
        if rank < PADDING || file < PADDING || BOARD_SIDE - rank <= PADDING || BOARD_SIDE - file
            <= PADDING {
            new_board[p] = Square::Wall;
        }
        p = p + 1;
    }
    assert(new_board@ =~= empty_board());
    let ghost placed = placement_field@;
    let mut rank: usize = 0;
    let mut file: usize = 0;
    let mut k: usize = 0;
    while k < placement_field.len()
        invariant
            placed == placement_field@,
            k <= placement_field.len(),
            rank <= 8,
            file <= 8,
            walls_ok(new_board@),
            (rank as int, file as int, new_board@) == placement(placed.take(k as int)),
        decreases placement_field.len() - k,
    {
        let c = placement_field[k];
        assert(placed.take(k + 1).drop_last() =~= placed.take(k as int));
        if c == '/' {
            if rank < 8 {
                rank = rank + 1;
            }
            file = 0;
        } else if '0' <= c && c <= '9' {
            let skip = (c as u32 - '0' as u32) as usize;
            if file + skip < 8 {
                file = file + skip;
            } else {
                file = 8;
            }
        } else {
            if rank < 8 && file < 8 {
                new_board[(rank + PADDING) * BOARD_SIDE + file + PADDING] = square_from_char(c);
            }
            if file < 8 {
                file = file + 1;
            }
        }
        k = k + 1;
    }
    assert(placed.take(placement_field.len() as int) =~= placed);

    let en_passant_position = if en_passant.len() >= 2 && 'a' <= en_passant[0] && en_passant[0]
        <= 'h' && '1' <= en_passant[1] && en_passant[1] <= '8' {
        Some(square_of_chars(en_passant[0], en_passant[1]))
    } else {
        None
    };

    let my_castling_rights = (contains_char(&castling, 'Q'), contains_char(&castling, 'K'));
    let opponent_castling_rights = (contains_char(&castling, 'k'), contains_char(&castling, 'q'));

    let mut board_state = BoardState {
        board: new_board,
        score: static_score(new_board),
        my_castling_rights,
        opponent_castling_rights,
        en_passant_position,
        king_passant_position: None,
    };
    assert(turn@ == seq!['b'] <==> (turn.len() == 1 && turn[0] == 'b')) by {
        if turn.len() == 1 && turn[0] == 'b' {
            assert(turn@ =~= seq!['b']);
        }
    }
    if turn.len() == 1 && turn[0] == 'b' {
        rotate(&mut board_state);
    }
    board_state
}


/// The FEN letter of a square's content, White's pieces upper case; an empty
/// square is written `1`.
pub open spec fn letter_of(s: Square) -> char {
    match s {
        Square::MyPawn => 'P',
        Square::MyKnight => 'N',
        Square::MyBishop => 'B',
        Square::MyRook => 'R',
        Square::MyQueen => 'Q',
        Square::MyKing => 'K',
        Square::OpponentPawn => 'p',
        Square::OpponentKnight => 'n',
        Square::OpponentBishop => 'b',
        Square::OpponentRook => 'r',
        Square::OpponentQueen => 'q',
        Square::OpponentKing => 'k',
        _ => '1',
    }
}

/// The square of the board written by the `t`-th character of a placement
/// that spells out every square: nine characters per rank, the last a `/`.
pub open spec fn token_square(t: int) -> int {
    (t / 9 + 2) * 12 + t % 9 + 2
}

pub open spec fn placement_token(b: Seq<Square>, t: int) -> char {
    if t % 9 == 8 {
        '/'
    } else {
        letter_of(b[token_square(t)])
    }
}

/// The first `n` characters of the placement that writes out the board's
/// ranks from the 8th down, one character per square.
pub open spec fn placement_prefix(b: Seq<Square>, n: nat) -> Seq<char>
    decreases n,
{
    if n == 0 {
        Seq::empty()
    } else {
        placement_prefix(b, (n - 1) as nat).push(placement_token(b, n - 1))
    }
}

/// The placement field of a board: the same squares the drawing of the board
/// shows, rank by rank, as FEN letters.
pub open spec fn placement_text(b: Seq<Square>) -> Seq<char> {
    placement_prefix(b, 71)
}

/// The board after reading the first `n` characters of its placement: the
/// squares written so far, the others empty.
pub open spec fn partly_placed(b: Seq<Square>, n: int) -> Seq<Square> {
    Seq::new(
        144,
        |i: int|
            if on_board(i) && (i / 12 - 2) * 9 + i % 12 - 2 < n {
                b[i]
            } else {
                empty_board()[i]
            },
    )
}

proof fn lemma_placement_prefix(b: Seq<Square>, n: nat)
    requires
        walls_ok(b),
        n <= 71,
    ensures
        placement(placement_prefix(b, n)) == ((n / 9) as int, (n % 9) as int, partly_placed(b, n as int)),
    decreases n,
{
    if n == 0 {
        assert(partly_placed(b, 0) =~= empty_board());
    } else {
        let t = (n - 1) as nat;
        lemma_placement_prefix(b, t);
        let text = placement_prefix(b, n);
        assert(text.drop_last() == placement_prefix(b, t));
        assert(text.last() == placement_token(b, t as int));
        let before = partly_placed(b, t as int);
        if t % 9 == 8 {
            assert(partly_placed(b, n as int) =~= before) by {
                assert forall|i: int| 0 <= i < 144 implies partly_placed(b, n as int)[i]
                    == before[i] by {
                    if on_board(i) {
                        assert((i / 12 - 2) * 9 + i % 12 - 2 != t);
                    }
                }
            }
        } else {
            let sq = token_square(t as int);
            assert(on_board(sq));
            assert((sq / 12 - 2) * 9 + sq % 12 - 2 == t);
            assert(b[sq] != Square::Wall);
            if b[sq] == Square::Empty {
                assert(partly_placed(b, n as int) =~= before) by {
                    assert forall|i: int| 0 <= i < 144 implies partly_placed(b, n as int)[i]
                        == before[i] by {
                        if on_board(i) && (i / 12 - 2) * 9 + i % 12 - 2 == t {
                            assert(i == sq);
                        }
                    }
                }
            } else {
                assert(piece_of(letter_of(b[sq])) == b[sq]);
                assert(partly_placed(b, n as int) =~= before.update(sq, b[sq])) by {
                    assert forall|i: int| 0 <= i < 144 implies partly_placed(b, n as int)[i]
                        == before.update(sq, b[sq])[i] by {
                        if on_board(i) && (i / 12 - 2) * 9 + i % 12 - 2 == t {
                            assert(i == sq);
                        }
                    }
                }
            }
        }
    }
}

/// Writing a board's squares back as a FEN placement, one character per
/// square as its drawing shows them, and reading that placement gives the
/// same board.
pub proof fn lemma_placement_round_trip(b: Seq<Square>)
    requires
        walls_ok(b),
    ensures
        placement(placement_text(b)).2 == b,
{
    lemma_placement_prefix(b, 71);
    assert(partly_placed(b, 71) =~= b) by {
        assert forall|i: int| 0 <= i < 144 implies partly_placed(b, 71)[i] == b[i] by {
            if on_board(i) {
                assert((i / 12 - 2) * 9 + i % 12 - 2 <= 70);
            }
        }
    }
}

} // verus!
