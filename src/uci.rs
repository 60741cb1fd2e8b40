use vstd::prelude::*;

use crate::board::{
    after, after_move, initial_board, initial_board_state, is_valid_move, on_board,
    score_has_room, valid_move, well_formed, BoardState, BoardView, A8, BOARD_SIZE, H8,
    MOVE_VALUE_LIMIT, SCORE_LIMIT,
};
use crate::pieces::Square;
use crate::ui::{
    chars_of, coordinates_ok, coordinates_text, fen_field, parse_move, push_text, spaces,
    square_at, square_of_chars, string_of,
};

verus! {

/// The commands of the protocol, told apart by the first word of a line.
#[derive(Debug, PartialEq, Eq, Clone, Copy, Structural)]
pub enum Command {
    Quit,
    Uci,
    IsReady,
    NewGame,
    Position,
    Go,
    Unknown,
}

/// The command named by the first word of a line.
pub open spec fn command_of(line: Seq<char>) -> Command {
    let word = fen_field(line, 0);
    if word == "quit"@ {
        Command::Quit
    } else if word == "uci"@ {
        Command::Uci
    } else if word == "isready"@ {
        Command::IsReady
    } else if word == "ucinewgame"@ {
        Command::NewGame
    } else if word == "position"@ {
        Command::Position
    } else if word == "go"@ {
        Command::Go
    } else {
        Command::Unknown
    }
}

fn same_chars(a: &Vec<char>, b: &Vec<char>) -> (r: bool)
    ensures
        r == (a@ == b@),
{
    if a.len() != b.len() {
        return false;
    }
    let mut i: usize = 0;
    while i < a.len()
        invariant
            a.len() == b.len(),
            i <= a.len(),
            forall|j: int| 0 <= j < i ==> a@[j] == b@[j],
        decreases a.len() - i,
    {
        if a[i] != b[i] {
            return false;
        }
        i = i + 1;
    }
    assert(a@ =~= b@);
    true
}

fn is_word(word: &Vec<char>, text: &str) -> (r: bool)
    ensures
        r == (word@ == text@),
{
    same_chars(word, &chars_of(text))
}

/// Tells which command a line of input holds.
pub fn parse_command(line: &str) -> (r: Command)
    ensures
        r == command_of(line@),
{
    let chars = chars_of(line);
    let ghost s = line@;
    let mut word: Vec<char> = Vec::new();
    let mut spaces: usize = 0;
    let mut i: usize = 0;
    while i < chars.len()
        invariant
            chars@ == s,
            i <= chars.len(),
            spaces <= i,
            spaces as int == crate::ui::spaces(s.take(i as int)),
            word@ == fen_field(s.take(i as int), 0),
        decreases chars.len() - i,
    {
        let c = chars[i];
        assert(s.take(i + 1).drop_last() =~= s.take(i as int));
        if c == ' ' {
            spaces = spaces + 1;
        } else if spaces == 0 {
            word.push(c);
        }
        i = i + 1;
    }
    assert(s.take(chars.len() as int) =~= s);
    if is_word(&word, "quit") {
        Command::Quit
    } else if is_word(&word, "uci") {
        Command::Uci
    } else if is_word(&word, "isready") {
        Command::IsReady
    } else if is_word(&word, "ucinewgame") {
        Command::NewGame
    } else if is_word(&word, "position") {
        Command::Position
    } else if is_word(&word, "go") {
        Command::Go
    } else {
        Command::Unknown
    }
}

/// The time policy of the driver, in nanoseconds, from my clock minus the
/// opponent's and my increment, in milliseconds: the difference plus the
/// increment less three seconds, at least 0.8 of the increment, at most
/// 40 ms; then 200 ms less when above 1.7 s, else 500 ms. The 40 ms cap comes
/// first, so every move gets 500 ms.
pub fn time_for_move(time_difference: i32, increment: i32) -> (r: i64)
    ensures
        r == 500_000_000,
{
    let mut nanos_for_move: i64 = (time_difference as i64 + increment as i64 - 3_000) * 1_000_000;
    if nanos_for_move < increment as i64 * 800_000 {
        nanos_for_move = increment as i64 * 800_000;
    }
    if nanos_for_move > 40_000_000 {
        nanos_for_move = 40_000_000;
    }
    if nanos_for_move > 1_700_000_000 {
        // Account for lag
        nanos_for_move = nanos_for_move - 200_000_000;
    } else {
        // Minimum reasonable move time
        nanos_for_move = 500_000_000;
    }
    nanos_for_move
}

/// A move text of a `position` command, in the frame of the side to move:
/// Black's moves are turned end for end.
pub fn player_move(move_: &str, am_black: bool) -> (r: (usize, usize))
    requires
        move_@.len() >= 4,
        coordinates_ok(move_@[0], move_@[1]),
        coordinates_ok(move_@[2], move_@[3]),
    ensures
        am_black ==> r == ((143 - square_at(move_@[0], move_@[1])) as usize, (143 - square_at(
            move_@[2],
            move_@[3],
        )) as usize),
        !am_black ==> r == (square_at(move_@[0], move_@[1]) as usize, square_at(
            move_@[2],
            move_@[3],
        ) as usize),
        on_board(r.0 as int),
        on_board(r.1 as int),
{
    let mut parsed_move = parse_move(move_);
    if am_black {
        parsed_move.0 = BOARD_SIZE - 1 - parsed_move.0;
        parsed_move.1 = BOARD_SIZE - 1 - parsed_move.1;
    }
    parsed_move
}

pub open spec fn turned(m: (usize, usize), am_black: bool) -> (int, int) {
    if am_black {
        (143 - m.0, 143 - m.1)
    } else {
        (m.0 as int, m.1 as int)
    }
}

/// The answer to `go`: the move in White's frame, with `q` when a pawn
/// reaches the last rank.
pub open spec fn bestmove_text(board_state: BoardState, m: (usize, usize), am_black: bool) -> Seq<
    char,
> {
    let t = turned(m, am_black);
    "bestmove "@ + coordinates_text(t.0) + coordinates_text(t.1) + (if A8 <= m.1 <= H8
        && board_state.board@[m.0 as int] == Square::MyPawn {
        seq!['q']
    } else {
        Seq::empty()
    }) + " ponder e7e5"@
}

/// The line answering `go` for the move the search chose.
pub fn bestmove_line(board_state: &BoardState, top_move: (usize, usize), am_black: bool) -> (r:
    String)
    requires
        on_board(top_move.0 as int),
        on_board(top_move.1 as int),
    ensures
        r@ == bestmove_text(*board_state, top_move, am_black),
{
    let is_promotion = A8 <= top_move.1 && top_move.1 <= H8 && board_state.board[top_move.0]
        == Square::MyPawn;
    let mut shown = top_move;
    if am_black {
        shown.0 = BOARD_SIZE - 1 - shown.0;
        shown.1 = BOARD_SIZE - 1 - shown.1;
    }
    let mut text: Vec<char> = Vec::new();
    push_text(&mut text, "bestmove ");
    let rendered = crate::ui::render_move(&shown);
    push_text(&mut text, rendered.as_str());
    if is_promotion {
        text.push('q');
    }
    push_text(&mut text, " ponder e7e5");
    assert(text@ =~= bestmove_text(*board_state, top_move, am_black));
    string_of(text)
}


/// A `position` line has the words `position startpos moves` before its
/// moves, or is `position startpos` (or `position` alone).
pub open spec fn position_format_ok(s: Seq<char>) -> bool {
    let n = spaces(s) + 1;
    &&& n == 2 ==> fen_field(s, 1) == "startpos"@
    &&& n > 2 ==> fen_field(s, 0) == "position"@ && fen_field(s, 1) == "startpos"@ && fen_field(
        s,
        2,
    ) == "moves"@
}

/// The number of move texts after `position startpos moves`.
pub open spec fn move_count(s: Seq<char>) -> int {
    if spaces(s) + 1 > 3 {
        spaces(s) - 2
    } else {
        0
    }
}

/// A move text names two squares with its first four characters.
pub open spec fn move_text_ok(t: Seq<char>) -> bool {
    t.len() >= 4 && coordinates_ok(t[0], t[1]) && coordinates_ok(t[2], t[3])
}

/// The move a text names, in the frame of the side to move.
pub open spec fn text_move(t: Seq<char>, am_black: bool) -> (usize, usize) {
    if am_black {
        ((143 - square_at(t[0], t[1])) as usize, (143 - square_at(t[2], t[3])) as usize)
    } else {
        (square_at(t[0], t[1]) as usize, square_at(t[2], t[3]) as usize)
    }
}

pub open spec fn initial_view() -> BoardView {
    BoardView {
        board: initial_board(),
        score: 0,
        my_castling_rights: (true, true),
        opponent_castling_rights: (true, true),
        en_passant_position: None,
        king_passant_position: None,
    }
}

/// The position after the first `k` moves of a `position` line, White moving
/// first; none once a move text is malformed or names a move that cannot be
/// made.
pub open spec fn replayed(s: Seq<char>, k: nat) -> Option<BoardView>
    decreases k,
{
    if k == 0 {
        Some(initial_view())
    } else {
        match replayed(s, (k - 1) as nat) {
            Some(v) => replay_step(v, fen_field(s, 3 + k - 1), (k - 1) % 2 == 1),
            None => None,
        }
    }
}

proof fn lemma_replayed_stays_none(s: Seq<char>, k: nat, l: nat)
    requires
        k <= l,
        replayed(s, k) is None,
    ensures
        replayed(s, l) is None,
    decreases l - k,
{
    if k < l {
        lemma_replayed_stays_none(s, k, (l - 1) as nat);
    }
}

/// The words of a line, split at each space.
fn words(line: &str) -> (r: Vec<Vec<char>>)
    ensures
        r.len() == spaces(line@) + 1,
        forall|k: int| 0 <= k < r.len() ==> (#[trigger] r@[k])@ == fen_field(line@, k),
{
    let chars = chars_of(line);
    let ghost s = line@;
    let mut fields: Vec<Vec<char>> = Vec::new();
    let mut current: Vec<char> = Vec::new();
    let mut i: usize = 0;
    while i < chars.len()
        invariant
            chars@ == s,
            i <= chars.len(),
            fields.len() == spaces(s.take(i as int)),
            fields.len() <= i,
            forall|k: int|
                0 <= k < fields.len() ==> (#[trigger] fields@[k])@ == fen_field(s.take(i as int), k),
            current@ == fen_field(s.take(i as int), fields.len() as int),
            forall|n: int|
                n > spaces(s.take(i as int)) ==> #[trigger] fen_field(s.take(i as int), n)
                    == Seq::<char>::empty(),
        decreases chars.len() - i,
    {
        let c = chars[i];
        let ghost prev = s.take(i as int);
        let ghost next = s.take(i + 1);
        assert(next.drop_last() =~= prev);
        assert(next.last() == c);
        let ghost done = fields@;
        if c == ' ' {
            fields.push(current);
            current = Vec::new();
            proof {
                assert(fen_field(prev, fields.len() as int) == Seq::<char>::empty());
                assert(current@ =~= fen_field(next, fields.len() as int));
            }
        } else {
            current.push(c);
        }
        proof {
            assert forall|n: int| n > spaces(next) implies #[trigger] fen_field(next, n)
                == Seq::<char>::empty() by {
                assert(fen_field(prev, n) == Seq::<char>::empty());
            }
            assert forall|k: int| 0 <= k < fields.len() implies (#[trigger] fields@[k])@
                == fen_field(next, k) by {
                assert(fen_field(next, k) == fen_field(prev, k) || k == done.len());
            }
        }
        i = i + 1;
    }
    fields.push(current);
    assert(s.take(chars.len() as int) =~= s);
    fields
}

fn text_ok(t: &Vec<char>) -> (r: bool)
    ensures
        r == move_text_ok(t@),
{
    t.len() >= 4 && 'a' <= t[0] && t[0] <= 'h' && '1' <= t[1] && t[1] <= '8' && 'a' <= t[2] && t[2]
        <= 'h' && '1' <= t[3] && t[3] <= '8'
}

/// One move of a replay: the position after the move a text names, if the
/// text is well formed and the move can be made.
pub open spec fn replay_step(v: BoardView, t: Seq<char>, am_black: bool) -> Option<BoardView> {
    let m = text_move(t, am_black);
    if move_text_ok(t) && valid_move(v, m) && score_has_room(v.score) {
        Some(after(v, m))
    } else {
        None
    }
}

fn play_text(board_state: &BoardState, text: &Vec<char>, am_black: bool) -> (r: Option<BoardState>)
    requires
        well_formed(board_state@),
    ensures
        r matches Some(b) ==> replay_step(board_state@, text@, am_black) == Some(b@) && well_formed(b@),
        r is None ==> replay_step(board_state@, text@, am_black) is None,
{
    if !text_ok(text) {
        return None;
    }
    let mut m = (square_of_chars(text[0], text[1]), square_of_chars(text[2], text[3]));
    if am_black {
        m = (BOARD_SIZE - 1 - m.0, BOARD_SIZE - 1 - m.1);
    }
    assert(m == text_move(text@, am_black));
    let room = SCORE_LIMIT - MOVE_VALUE_LIMIT;
    if !is_valid_move(board_state, &m) || board_state.score < -room || board_state.score > room {
        return None;
    }
    Some(after_move(board_state, &m))
}

/// Replays a `position startpos moves ...` line from the initial position.
/// Gives the final position, whether Black is to move, and the position
/// after each move (the ones whose repetition the search should avoid);
/// nothing when the line is malformed or one of its moves cannot be made.
#[verifier::rlimit(50)]
pub fn position_command(line: &str) -> (r: Option<(BoardState, bool, Vec<BoardState>)>)
    ensures
        r is None <==> !position_format_ok(line@) || replayed(line@, move_count(line@) as nat)
            is None,
        r matches Some((b, am_black, played)) ==> {
            &&& replayed(line@, move_count(line@) as nat) == Some(b@)
            &&& am_black == (move_count(line@) % 2 == 1)
            &&& played.len() == move_count(line@)
            &&& forall|i: int|
                0 <= i < played.len() ==> replayed(line@, (i + 1) as nat) == Some(
                    (#[trigger] played@[i])@,
                )
        },
{
    let ghost s = line@;
    let fields = words(line);
    let n = fields.len();
    let format_ok = if n == 2 {
        is_word(&fields[1], "startpos")
    } else if n > 2 {
        is_word(&fields[0], "position") && is_word(&fields[1], "startpos") && is_word(
            &fields[2],
            "moves",
        )
    } else {
        true
    };
    if !format_ok {
        return None;
    }
    let mut board_state = initial_board_state();
    assert(board_state@ == initial_view()) by {
        assert(board_state@.en_passant_position == None::<int>);
    }
    let mut am_black = false;
    let mut played: Vec<BoardState> = Vec::new();
    let mut k: usize = 3;
    while k < n
        invariant
            n == fields.len(),
            n == spaces(s) + 1,
            s == line@,
            forall|j: int| 0 <= j < fields.len() ==> (#[trigger] fields@[j])@ == fen_field(s, j),
            3 <= k,
            k <= n || n <= 3,
            n <= 3 ==> k == 3,
            played.len() == k - 3,
            replayed(s, (k - 3) as nat) == Some(board_state@),
            well_formed(board_state@),
            am_black == ((k - 3) % 2 == 1),
            forall|i: int|
                0 <= i < played.len() ==> replayed(s, (i + 1) as nat) == Some(
                    (#[trigger] played@[i])@,
                ),
        decreases n - k,
    {
        let text = &fields[k];
        assert(text@ == fen_field(s, 3 + (k - 3 + 1) - 1));
        assert(replayed(s, (k - 2) as nat) == replay_step(board_state@, text@, am_black));
        let next = match play_text(&board_state, text, am_black) {
            Some(b) => b,
            None => {
                proof {
                    assert(replayed(s, (k - 2) as nat) is None);
                    lemma_replayed_stays_none(s, (k - 2) as nat, move_count(s) as nat);
                }
                return None;
            },
        };
        board_state = next;
        played.push(board_state);
        am_black = !am_black;
        k = k + 1;
    }
    assert(move_count(s) == if n > 3 {
        n - 3
    } else {
        0
    });
    Some((board_state, am_black, played))
}

} // verus!
