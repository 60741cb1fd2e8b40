use vstd::prelude::*;
use vstd::std_specs::hash::{builds_valid_hashers, obeys_key_model};
use std::collections::HashMap;
use std::time::{Duration, Instant};

use crate::board::{
    after, after_move, can_check, gen_moves, is_valid_move, move_gain, move_value, nulled, nullmove,
    pseudo_legal_moves,
    valid_move, well_formed, BoardState, BoardView, BOARD_SIZE,
};
use crate::pieces::Square;

verus! {

broadcast use vstd::std_specs::hash::group_hash_axioms;

pub const MATE_UPPER: i32 = 32_000 + 8 * 2529;
pub const MATE_LOWER: i32 = 32_000 - 8 * 2529;
/// Capacity of each transposition table; a full table is emptied before an
/// insertion.
pub const TRANSPOSITION_TABLE_SIZE: usize = 1_000_000;
const QUIESCENCE_SEARCH_LIMIT: i32 = 130;
const EVAL_ROUGHNESS: i32 = 10;
const STOP_SEARCH: i32 = MATE_UPPER * 101;

/// Scores the search handles; every bound it returns or stores stays within,
/// below `STOP_SEARCH`.
pub const SEARCH_LIMIT: i32 = 5_000_000;

/// Bound on the ordering key of a move.
pub const MOVE_KEY_LIMIT: i32 = 300_000;

/// How far below depth zero the quiescence search may go. Every quiescence
/// ply captures, promotes or takes a king, so no position needs this many.
pub const QUIESCENCE_PLIES: i32 = 400;

/// The start of a search, carried as it is: nothing inside it is read.
#[verifier::external_type_specification]
#[verifier::external_body]
pub struct ExInstant(Instant);

/// Relies on `Instant::now`: the current time, of which nothing is known.
pub assume_specification[ Instant::now ]() -> Instant;

/// Relies on `Instant::elapsed`: the time since the instant, of which nothing
/// is known.
pub assume_specification[ Instant::elapsed ](i: &Instant) -> Duration;

/// Relies on `Duration::new`, which panics only when the nanoseconds carry
/// past the largest number of seconds.
pub assume_specification[ Duration::new ](secs: u64, nanos: u32) -> Duration
    requires
        nanos < 1_000_000_000,
;

/// Relies on `Duration::as_nanos`: the length of the duration in nanoseconds.
pub assume_specification[ Duration::as_nanos ](d: &Duration) -> u128;

/// Bounds on a position's score, as established by the search so far.
#[derive(Clone, Copy)]
pub struct Entry {
    lower: i32,
    upper: i32,
}

impl Entry {
    #[verifier::type_invariant]
    spec fn inv(&self) -> bool {
        &&& -SEARCH_LIMIT <= self.lower <= SEARCH_LIMIT
        &&& -SEARCH_LIMIT <= self.upper <= SEARCH_LIMIT
    }

    /// The lower bound of the score.
    pub closed spec fn lower_bound(&self) -> int {
        self.lower as int
    }

    /// The upper bound of the score.
    pub closed spec fn upper_bound(&self) -> int {
        self.upper as int
    }
}

fn default_entry() -> (e: Entry)
    ensures
        e.lower_bound() == -MATE_UPPER,
        e.upper_bound() == MATE_UPPER,
{
    Entry { lower: -MATE_UPPER, upper: MATE_UPPER }
}

/// A position the search accepts: well formed, with a score that leaves room
/// for the moves the search makes.
pub open spec fn searchable(v: BoardView) -> bool {
    well_formed(v) && v.score <= SEARCH_LIMIT
}

/// Whether the side to move can take the opponent's king.
pub open spec fn king_capturable(v: BoardView) -> bool {
    exists|j: int|
        0 <= j < pseudo_legal_moves(v).len() && valid_move(v, #[trigger] pseudo_legal_moves(v)[j]) && move_gain(
            v,
            pseudo_legal_moves(v)[j],
        ) >= MATE_LOWER
}

pub open spec fn is_officer(s: Square) -> bool {
    matches!(s, Square::MyKnight | Square::MyBishop | Square::MyRook | Square::MyQueen)
}

/// Whether the side to move has a knight, bishop, rook or queen.
pub open spec fn has_officer(v: BoardView) -> bool {
    exists|i: int| 0 <= i < 144 && is_officer(#[trigger] v.board[i])
}

fn has_officers(board_state: &BoardState) -> (r: bool)
    ensures
        r == has_officer(board_state@),
{
    let mut i: usize = 0;
    while i < BOARD_SIZE
        invariant
            i <= 144,
            forall|j: int| 0 <= j < i ==> !is_officer(#[trigger] board_state@.board[j]),
        decreases 144 - i,
    {
        if matches!(board_state.board[i], Square::MyRook | Square::MyKnight | Square::MyBishop
            | Square::MyQueen) {
            assert(is_officer(board_state@.board[i as int]));
            return true;
        }
        i = i + 1;
    }
    false
}

/// Whether the side to move in `board_state` can take the opponent's king.
fn is_dead(board_state: &BoardState) -> (r: bool)
    requires
        well_formed(board_state@),
    ensures
        r == king_capturable(board_state@),
{
    let moves = gen_moves(board_state);
    let mut j: usize = 0;
    while j < moves.len()
        invariant
            well_formed(board_state@),
            moves@ == pseudo_legal_moves(board_state@),
            j <= moves.len(),
            forall|i: int|
                0 <= i < j ==> !(valid_move(board_state@, #[trigger] moves@[i]) && move_gain(
                    board_state@,
                    moves@[i],
                ) >= MATE_LOWER),
        decreases moves.len() - j,
    {
        let m = moves[j];
        if is_valid_move(board_state, &m) && move_value(board_state, &m) >= MATE_LOWER {
            assert(valid_move(board_state@, moves@[j as int]));
            return true;
        }
        j = j + 1;
    }
    false
}

fn contains_move(moves: &Vec<(usize, usize)>, m: (usize, usize)) -> (r: bool)
    ensures
        r == moves@.contains(m),
{
    let mut i: usize = 0;
    while i < moves.len()
        invariant
            i <= moves.len(),
            forall|j: int| 0 <= j < i ==> moves@[j] != m,
        decreases moves.len() - i,
    {
        let candidate = moves[i];
        if candidate.0 == m.0 && candidate.1 == m.1 {
            assert(moves@[i as int] == m);
            return true;
        }
        i = i + 1;
    }
    false
}

/// Whether the side to move has a generated move that the move maker accepts.
pub open spec fn has_valid_move(v: BoardView) -> bool {
    exists|j: int| 0 <= j < pseudo_legal_moves(v).len() && valid_move(v, #[trigger] pseudo_legal_moves(v)[j])
}

/// The first move of `moves` that the move maker accepts.
fn first_valid_move(board_state: &BoardState, moves: &Vec<(usize, usize)>) -> (r: Option<
    (usize, usize),
>)
    requires
        moves@ == pseudo_legal_moves(board_state@),
    ensures
        r.is_some() == has_valid_move(board_state@),
        r matches Some(m) ==> valid_move(board_state@, m) && moves@.contains(m),
{
    let mut i: usize = 0;
    while i < moves.len()
        invariant
            moves@ == pseudo_legal_moves(board_state@),
            i <= moves.len(),
            forall|j: int| 0 <= j < i ==> !valid_move(board_state@, #[trigger] moves@[j]),
        decreases moves.len() - i,
    {
        if is_valid_move(board_state, &moves[i]) {
            assert(moves@[i as int] == moves[i as int]);
            return Some(moves[i]);
        }
        i = i + 1;
    }
    None
}

/// Lexicographic order on ordering keys.
pub open spec fn key_le(a: (i32, usize, usize), b: (i32, usize, usize)) -> bool {
    a.0 < b.0 || (a.0 == b.0 && (a.1 < b.1 || (a.1 == b.1 && a.2 <= b.2)))
}

pub open spec fn keys_sorted(s: Seq<(i32, usize, usize)>) -> bool {
    forall|i: int, j: int| 0 <= i < j < s.len() ==> key_le(#[trigger] s[i], #[trigger] s[j])
}

fn key_less_eq(a: (i32, usize, usize), b: (i32, usize, usize)) -> (r: bool)
    ensures
        r == key_le(a, b),
{
    a.0 < b.0 || (a.0 == b.0 && (a.1 < b.1 || (a.1 == b.1 && a.2 <= b.2)))
}

/// The keyed moves in increasing order.
fn sort_keys(keys: Vec<(i32, usize, usize)>) -> (r: Vec<(i32, usize, usize)>)
    ensures
        keys_sorted(r@),
        r@.to_multiset() == keys@.to_multiset(),
{
    broadcast use vstd::seq_lib::group_to_multiset_ensures;

    let mut sorted: Vec<(i32, usize, usize)> = Vec::with_capacity(keys.len());
    let mut i: usize = 0;
    while i < keys.len()
        invariant
            i <= keys.len(),
            keys_sorted(sorted@),
            sorted@.to_multiset() == keys@.take(i as int).to_multiset(),
        decreases keys.len() - i,
    {
        let x = keys[i];
        let mut pos: usize = 0;
        while pos < sorted.len() && key_less_eq(sorted[pos], x)
            invariant
                pos <= sorted.len(),
                forall|j: int| 0 <= j < pos ==> key_le(#[trigger] sorted@[j], x),
            decreases sorted.len() - pos,
        {
            pos = pos + 1;
        }
        let ghost before = sorted@;
        proof {
            vstd::seq_lib::to_multiset_insert(before, pos as int, x);
        }
        sorted.insert(pos, x);
        assert(keys@.take(i + 1) =~= keys@.take(i as int).push(x));
        proof {
            vstd::seq_lib::to_multiset_build(keys@.take(i as int), x);
        }
        assert(keys_sorted(sorted@)) by {
            assert forall|a: int, b: int| 0 <= a < b < sorted@.len() implies key_le(
                #[trigger] sorted@[a],
                #[trigger] sorted@[b],
            ) by {
                if pos < before.len() {
                    assert(!key_le(before[pos as int], x));
                }
            }
        }
        i = i + 1;
    }
    assert(keys@.take(keys.len() as int) =~= keys@);
    sorted
}

/// The search state: transposition tables of score bounds and of best moves,
/// a node counter, and the clock of the running search.
pub struct Searcher {
    pub score_transposition_table: HashMap<(BoardState, i32, bool), Entry>,
    pub move_transposition_table: HashMap<BoardState, (usize, usize)>,
    pub nodes: u32,
    pub now: Instant,
    pub duration: Duration,
}

impl Default for Searcher {
    fn default() -> (r: Searcher)
        ensures
            r.score_transposition_table@ == Map::<(BoardState, i32, bool), Entry>::empty(),
            r.move_transposition_table@ == Map::<BoardState, (usize, usize)>::empty(),
            r.nodes == 0,
    {
        Searcher {
            score_transposition_table: HashMap::with_capacity(TRANSPOSITION_TABLE_SIZE),
            move_transposition_table: HashMap::with_capacity(TRANSPOSITION_TABLE_SIZE),
            nodes: 0,
            now: Instant::now(),
            duration: Duration::new(4, 0),
        }
    }
}

impl Searcher {
    fn out_of_time(&self) -> bool {
        self.now.elapsed().as_nanos() > self.duration.as_nanos()
    }

    /// Keeps `m` as the best move of the position, emptying the table first
    /// when it is full.
    fn store_move(&mut self, board_state: &BoardState, m: (usize, usize))
        ensures
            final(self).nodes == old(self).nodes,
            final(self).score_transposition_table@ == old(self).score_transposition_table@,
            moves_follow_keys() ==> (final(self).move_transposition_table@
                == old(self).move_transposition_table@.insert(*board_state, m)
                || final(self).move_transposition_table@
                == Map::<BoardState, (usize, usize)>::empty().insert(*board_state, m)),
            moves_follow_keys() && old(self).move_transposition_table@.len()
                <= TRANSPOSITION_TABLE_SIZE ==> final(self).move_transposition_table@.len()
                <= TRANSPOSITION_TABLE_SIZE,
    {
        if self.move_transposition_table.len() >= TRANSPOSITION_TABLE_SIZE {
            self.move_transposition_table.clear();
        }
        self.move_transposition_table.insert(*board_state, m);
    }

    /// Null-window search: whether the position's value reaches `gamma`. The
    /// result is a lower bound of the value when at least `gamma`, an upper
    /// bound when below, and `STOP_SEARCH` once the time is up, if `may_stop`.
    ///
    /// A lost king gives `-MATE_UPPER` at once. A stored bound that decides
    /// the question is returned as it is. Otherwise the bound found is stored
    /// under `(board_state, depth, root)`, unless the search was stopped; the
    /// best-move table only ever gains generated moves of their positions.
    fn bound(
        &mut self,
        board_state: &BoardState,
        gamma: i32,
        depth: i32,
        root: bool,
        may_stop: bool,
    ) -> (r: i32)
        requires
            searchable(board_state@),
            -SEARCH_LIMIT <= gamma <= SEARCH_LIMIT + 1,
            -QUIESCENCE_PLIES <= depth <= 100,
        ensures
            -SEARCH_LIMIT <= r <= SEARCH_LIMIT || r == STOP_SEARCH,
            !may_stop ==> r != STOP_SEARCH,
            board_state.score <= -MATE_LOWER ==> {
                &&& r == -MATE_UPPER
                &&& final(self).score_transposition_table@ == old(
                    self,
                ).score_transposition_table@
                &&& final(self).move_transposition_table@ == old(self).move_transposition_table@
                &&& final(self).nodes as int == (old(self).nodes as int + 1) % 0x1_0000_0000
            },
            keys_ok() && board_state.score > -MATE_LOWER && table_cutoff(
                old(self).score_transposition_table@,
                old(self).move_transposition_table@,
                *board_state,
                gamma,
                depth,
                root,
            ) ==> {
                &&& r == cutoff_value(
                    old(self).score_transposition_table@,
                    old(self).move_transposition_table@,
                    *board_state,
                    gamma,
                    depth,
                    root,
                )
                &&& final(self).score_transposition_table@ == old(
                    self,
                ).score_transposition_table@
                &&& final(self).move_transposition_table@ == old(self).move_transposition_table@
                &&& final(self).nodes as int == (old(self).nodes as int + 1) % 0x1_0000_0000
            },
            keys_ok() ==> moves_kept_or_generated(
                old(self).move_transposition_table@,
                final(self).move_transposition_table@,
            ),
            keys_ok() ==> scores_kept_except(
                old(self).score_transposition_table@,
                final(self).score_transposition_table@,
                depth as int,
                (*board_state, depth, root),
            ),
            keys_ok() ==> tables_within(
                old(self).score_transposition_table@,
                old(self).move_transposition_table@,
                final(self).score_transposition_table@,
                final(self).move_transposition_table@,
            ),
            keys_ok() && r == STOP_SEARCH ==> scores_kept_from(
                old(self).score_transposition_table@,
                final(self).score_transposition_table@,
                depth as int,
            ),
            keys_ok() && board_state.score > -MATE_LOWER && !table_cutoff(
                old(self).score_transposition_table@,
                old(self).move_transposition_table@,
                *board_state,
                gamma,
                depth,
                root,
            ) && r != STOP_SEARCH ==> {
                &&& stores_bound(
                    old(self).score_transposition_table@,
                    final(self).score_transposition_table@,
                    *board_state,
                    gamma,
                    depth,
                    root,
                    r as int,
                )
                &&& depth <= 0 ==> r >= board_state.score
                &&& depth > 0 && no_escape(board_state@) ==> (r >= gamma || r >= 0 || (r
                    == -MATE_UPPER && king_capturable(nulled(board_state@))))
            },
        decreases depth + QUIESCENCE_PLIES,
    {
        let ghost old_scores = self.score_transposition_table@;
        let ghost old_moves = self.move_transposition_table@;
        let ghost own = (*board_state, depth, root);
        self.nodes = self.nodes.wrapping_add(1);

        // A king-capture engine: losing the king ends the game.
        if board_state.score <= -MATE_LOWER {
            return -MATE_UPPER;
        }

        // At depth zero and below the search runs until the position is
        // quiet, so all such depths share one entry.
        let entry_depth = if depth > 0 {
            depth
        } else {
            0
        };
        let entry = match self.score_transposition_table.get(&(*board_state, entry_depth, root)) {
            Some(e) => *e,
            None => default_entry(),
        };
        proof {
            use_type_invariant(&entry);
        }
        let known_move = self.move_transposition_table.get(board_state).is_some();
        assert(keys_ok() ==> entry.lower_bound() == stored_bounds(
            old_scores,
            probe_key(*board_state, depth, root),
        ).0 && entry.upper_bound() == stored_bounds(old_scores, probe_key(*board_state, depth, root)).1
            && known_move == old_moves.contains_key(*board_state));
        if entry.lower >= gamma && (!root || known_move) {
            return entry.lower;
        } else if entry.upper < gamma {
            return entry.upper;
        }

        if may_stop && self.out_of_time() {
            return STOP_SEARCH;
        }

        let mut best = -MATE_UPPER;
        // First try not moving at all
        if depth > 0 && !root && has_officers(board_state) {
            let child = nullmove(board_state);
            let ghost mid_scores = self.score_transposition_table@;
            let ghost mid_moves = self.move_transposition_table@;
            let score = -self.bound(&child, 1 - gamma, depth - 3, false, may_stop);
            proof {
                if keys_ok() {
                    lemma_scores_chain(
                        old_scores,
                        mid_scores,
                        self.score_transposition_table@,
                        depth as int,
                        (child, (depth - 3) as i32, false),
                    );
                    lemma_moves_chain(old_moves, mid_moves, self.move_transposition_table@);
                }
            }
            if score == -STOP_SEARCH {
                return STOP_SEARCH;
            }
            if score > best {
                best = score;
            }
        } else if depth <= 0 {
            // In the quiescence search standing pat is the null move
            let score = board_state.score;
            if score > best {
                best = score;
            }
        }

        // Then the killer move, which in the quiescence search must gain
        if best <= gamma {
            match self.move_transposition_table.get(board_state) {
                Some(k) => {
                    let killer_move = *k;
                    if is_valid_move(board_state, &killer_move) && depth > -QUIESCENCE_PLIES && (
                    depth > 0 || move_value(board_state, &killer_move) >= QUIESCENCE_SEARCH_LIMIT) {
                        let child = after_move(board_state, &killer_move);
                        let ghost mid_scores = self.score_transposition_table@;
                        let ghost mid_moves = self.move_transposition_table@;
                        let score = -self.bound(&child, 1 - gamma, depth - 1, false, may_stop);
                        proof {
                            if keys_ok() {
                                lemma_scores_chain(
                                    old_scores,
                                    mid_scores,
                                    self.score_transposition_table@,
                                    depth as int,
                                    (child, (depth - 1) as i32, false),
                                );
                                lemma_moves_chain(
                                    old_moves,
                                    mid_moves,
                                    self.move_transposition_table@,
                                );
                            }
                        }
                        if score == -STOP_SEARCH {
                            return STOP_SEARCH;
                        }
                        if score > best {
                            best = score;
                        }
                    }
                },
                None => {},
            }
        }

        // Then all the other moves, best looking first
        if best < gamma {
            let others = gen_moves(board_state);
            let mut keyed: Vec<(i32, usize, usize)> = Vec::with_capacity(others.len());
            let mut j: usize = 0;
            while j < others.len()
                invariant
                    searchable(board_state@),
                    others@ == pseudo_legal_moves(board_state@),
                    j <= others.len(),
                    forall|i: int|
                        0 <= i < keyed.len() ==> generated_key(board_state@, #[trigger] keyed@[i]),
                decreases others.len() - j,
            {
                let m = others[j];
                if is_valid_move(board_state, &m) {
                    let check_bonus = if can_check(board_state, &m) {
                        QUIESCENCE_SEARCH_LIMIT / 2
                    } else {
                        0
                    };
                    let key = (-move_value(board_state, &m) - check_bonus, m.0, m.1);
                    assert(others@[j as int] == (key.1, key.2));
                    keyed.push(key);
                }
                j = j + 1;
            }
            let ghost unsorted = keyed@;
            let move_vals = sort_keys(keyed);
            proof {
                assert forall|i: int| 0 <= i < move_vals@.len() implies generated_key(
                    board_state@,
                    #[trigger] move_vals@[i],
                ) by {
                    vstd::seq_lib::to_multiset_contains(move_vals@, move_vals@[i]);
                    vstd::seq_lib::to_multiset_contains(unsorted, move_vals@[i]);
                    assert(move_vals@.contains(move_vals@[i]));
                }
            }
            let mut n: usize = 0;
            while n < move_vals.len()
                invariant
                    searchable(board_state@),
                    board_state.score > -MATE_LOWER,
                    -SEARCH_LIMIT <= gamma <= SEARCH_LIMIT + 1,
                    -QUIESCENCE_PLIES <= depth <= 100,
                    -SEARCH_LIMIT <= best <= SEARCH_LIMIT,
                    depth <= 0 ==> best >= board_state.score,
                    own == (*board_state, depth, root),
                    old_scores == old(self).score_transposition_table@,
                    old_moves == old(self).move_transposition_table@,
                    keys_ok() ==> !table_cutoff(old_scores, old_moves, *board_state, gamma, depth, root),
                    n <= move_vals.len(),
                    forall|i: int|
                        0 <= i < move_vals@.len() ==> generated_key(
                            board_state@,
                            #[trigger] move_vals@[i],
                        ),
                    keys_ok() ==> moves_kept_or_generated(
                        old_moves,
                        self.move_transposition_table@,
                    ),
                    keys_ok() ==> scores_kept_from(
                        old_scores,
                        self.score_transposition_table@,
                        depth as int,
                    ),
                    keys_ok() ==> tables_within(
                        old_scores,
                        old_moves,
                        self.score_transposition_table@,
                        self.move_transposition_table@,
                    ),
                decreases move_vals.len() - n,
            {
                let (val, start_position, end_position) = move_vals[n];
                let m = (start_position, end_position);
                assert(generated_key(board_state@, move_vals@[n as int]));
                if depth > -QUIESCENCE_PLIES && (depth > 0 || (-val >= QUIESCENCE_SEARCH_LIMIT
                    && board_state.score - val > best)) {
                    let child = after_move(board_state, &m);
                    let ghost mid_scores = self.score_transposition_table@;
                    let ghost mid_moves = self.move_transposition_table@;
                    let score = -self.bound(&child, 1 - gamma, depth - 1, false, may_stop);
                    proof {
                        if keys_ok() {
                            lemma_scores_chain(
                                old_scores,
                                mid_scores,
                                self.score_transposition_table@,
                                depth as int,
                                (child, (depth - 1) as i32, false),
                            );
                            lemma_moves_chain(old_moves, mid_moves, self.move_transposition_table@);
                        }
                    }
                    if score == -STOP_SEARCH {
                        return STOP_SEARCH;
                    }
                    if score > best {
                        best = score;
                    }
                    if best >= gamma {
                        // Keep the move for the principal variation and as killer
                        let ghost mid_moves = self.move_transposition_table@;
                        self.store_move(board_state, m);
                        proof {
                            if keys_ok() {
                                lemma_store_generated(
                                    mid_moves,
                                    self.move_transposition_table@,
                                    *board_state,
                                    m,
                                );
                                lemma_moves_chain(
                                    old_moves,
                                    mid_moves,
                                    self.move_transposition_table@,
                                );
                            }
                        }
                        break;
                    }
                } else {
                    break;
                }
                n = n + 1;
            }
        }

        // Having no legal move is either mate or stalemate: when every move
        // lets the opponent take my king, passing tells whether I am in check.
        let ghost before_mate_check = best;
        if best < gamma && best < 0 && depth > 0 {
            let moves = gen_moves(board_state);
            let mut all_dead = true;
            let mut j: usize = 0;
            while j < moves.len()
                invariant_except_break
                    all_dead,
                invariant
                    searchable(board_state@),
                    board_state.score > -MATE_LOWER,
                    moves@ == pseudo_legal_moves(board_state@),
                    j <= moves.len(),
                    forall|i: int|
                        0 <= i < j && valid_move(board_state@, #[trigger] moves@[i])
                            ==> king_capturable(after(board_state@, moves@[i])),
                ensures
                    all_dead || !no_escape(board_state@),
                decreases moves.len() - j,
            {
                let m = moves[j];
                if is_valid_move(board_state, &m) && !is_dead(&after_move(board_state, &m)) {
                    assert(!no_escape(board_state@)) by {
                        assert(valid_move(board_state@, pseudo_legal_moves(board_state@)[j as int]));
                    }
                    all_dead = false;
                    break;
                }
                j = j + 1;
            }
            if all_dead {
                let in_check = is_dead(&nullmove(board_state));
                best = if in_check {
                    -MATE_UPPER
                } else {
                    0
                };
            }
        }

        let ghost before_write = self.score_transposition_table@;
        if self.score_transposition_table.len() >= TRANSPOSITION_TABLE_SIZE {
            self.score_transposition_table.clear();
        }
        let ghost cleared = self.score_transposition_table@;
        if best >= gamma {
            self.score_transposition_table.insert(
                (*board_state, depth, root),
                Entry { lower: best, upper: entry.upper },
            );
        } else {
            self.score_transposition_table.insert(
                (*board_state, depth, root),
                Entry { lower: entry.lower, upper: best },
            );
        }
        proof {
            if keys_ok() {
                assert(scores_kept_from(old_scores, cleared, depth as int));
                assert(scores_kept_except(
                    old_scores,
                    self.score_transposition_table@,
                    depth as int,
                    own,
                ));
                assert(stores_bound(
                    old_scores,
                    self.score_transposition_table@,
                    *board_state,
                    gamma,
                    depth,
                    root,
                    best as int,
                ));
            }
        }
        assert(depth <= 0 ==> best >= board_state.score);
        assert(depth > 0 && no_escape(board_state@) ==> (best >= gamma || best >= 0 || (best
            == -MATE_UPPER && king_capturable(nulled(board_state@)))));
        best
    }

    /// Iterative deepening MTD-bi search: for each depth from 1 to 98, bisects
    /// the score range with null-window searches until it is no wider than
    /// `EVAL_ROUGHNESS`, then reads the best move and the score's lower bound
    /// from the tables. The first depth always runs to its end; later ones
    /// stop when the time is up. Stops after a depth once the time is up or a
    /// mate is found, and returns the move, score and depth of the last depth
    /// completed. The move is one that the move generator gives for the
    /// position; when the position has any move the move maker accepts, the
    /// first depth always gives one (its first such move, should the tables
    /// hold none), else the result is `((0, 0), 0, 0)`.
    pub fn search(&mut self, board_state: BoardState, duration: Duration) -> (r: (
        (usize, usize),
        i32,
        i32,
    ))
        requires
            searchable(board_state@),
        ensures
            0 <= r.2 <= 98,
            r.2 == 0 ==> r == ((0usize, 0usize), 0i32, 0i32),
            r.2 > 0 ==> valid_move(board_state@, r.0) && pseudo_legal_moves(board_state@).contains(r.0),
            -SEARCH_LIMIT <= r.1 <= SEARCH_LIMIT,
            has_valid_move(board_state@) ==> 1 <= r.2,
    {
        self.nodes = 0;
        self.now = Instant::now();
        self.duration = duration;
        let mut last_move: ((usize, usize), i32, i32) = ((0, 0), 0, 0);

        // Bound the depth, so that finished games do not search forever
        let mut depth: i32 = 1;
        while depth < 99
            invariant
                searchable(board_state@),
                1 <= depth <= 99,
                0 <= last_move.2 <= 98,
                last_move.2 == 0 ==> last_move == ((0usize, 0usize), 0i32, 0i32),
                last_move.2 > 0 ==> valid_move(board_state@, last_move.0) && pseudo_legal_moves(
                    board_state@,
                ).contains(last_move.0),
                -SEARCH_LIMIT <= last_move.1 <= SEARCH_LIMIT,
                depth > 1 && has_valid_move(board_state@) ==> 1 <= last_move.2,
            ensures
                has_valid_move(board_state@) ==> 1 <= last_move.2,
            decreases 99 - depth,
        {
            // The first depth always completes, so that there is a move to return
            let may_stop = depth > 1;
            let mut lower = -MATE_UPPER;
            let mut upper = MATE_UPPER;
            let mut stopped = false;
            while lower < upper - EVAL_ROUGHNESS
                invariant_except_break
                    !stopped,
                invariant
                    searchable(board_state@),
                    1 <= depth < 99,
                    -SEARCH_LIMIT <= lower <= SEARCH_LIMIT,
                    -SEARCH_LIMIT <= upper <= SEARCH_LIMIT,
                    may_stop == (depth > 1),
                ensures
                    stopped ==> may_stop,
                    !stopped ==> lower >= upper - EVAL_ROUGHNESS,
                decreases upper - lower + 2 * SEARCH_LIMIT,
            {
                let gamma = (lower + upper + 1) / 2;
                let score = self.bound(&board_state, gamma, depth, true, may_stop);
                if score == STOP_SEARCH {
                    assert(may_stop);
                    stopped = true;
                    break;
                }
                if score >= gamma {
                    lower = score;
                } else {
                    upper = score;
                }
            }
            if stopped {
                break;
            }
            let score = self.bound(&board_state, lower, depth, true, may_stop);
            if score == STOP_SEARCH {
                break;
            }
            // The completed depth left its move and score in the tables; should
            // the first depth have left no move, its first valid move stands in.
            let moves = gen_moves(&board_state);
            let mut chosen: Option<(usize, usize)> = None;
            match self.move_transposition_table.get(&board_state) {
                Some(m) => {
                    if is_valid_move(&board_state, m) && contains_move(&moves, *m) {
                        chosen = Some(*m);
                    }
                },
                None => {},
            }
            if chosen.is_none() && depth == 1 {
                chosen = first_valid_move(&board_state, &moves);
            }
            let best_move = match chosen {
                Some(m) => m,
                None => break,
            };
            let lower_bound = match self.score_transposition_table.get(&(board_state, depth, true)) {
                Some(e) => {
                    proof {
                        use_type_invariant(e);
                    }
                    e.lower
                },
                None => score,
            };
            last_move = (best_move, lower_bound, depth);

            // No need to look further once a mate is found
            if self.out_of_time() || score > MATE_LOWER {
                break;
            }
            depth = depth + 1;
        }
        last_move
    }

    /// Records a score of zero at every depth from 1 to 29 for the position,
    /// so that coming back to it looks like a draw.
    pub fn set_eval_to_zero(&mut self, board_state: &BoardState)
        ensures
            final(self).move_transposition_table@ == old(self).move_transposition_table@,
            final(self).nodes == old(self).nodes,
            tables_follow_keys() ==> forall|depth: i32|
                1 <= depth < 30 ==> #[trigger] zero_at(
                    final(self).score_transposition_table@,
                    *board_state,
                    depth,
                ),
            tables_follow_keys() ==> forall|k: (BoardState, i32, bool)|
                !(k.0 == *board_state && 1 <= k.1 < 30 && !k.2) ==> #[trigger] kept_at(
                    old(self).score_transposition_table@,
                    final(self).score_transposition_table@,
                    k,
                ),
    {
        let mut depth: i32 = 1;
        while depth < 30
            invariant
                1 <= depth <= 30,
                self.move_transposition_table@ == old(self).move_transposition_table@,
                self.nodes == old(self).nodes,
                tables_follow_keys() ==> forall|d: i32|
                    1 <= d < depth ==> #[trigger] zero_at(
                        self.score_transposition_table@,
                        *board_state,
                        d,
                    ),
                tables_follow_keys() ==> forall|k: (BoardState, i32, bool)|
                    !(k.0 == *board_state && 1 <= k.1 < 30 && !k.2) ==> #[trigger] kept_at(
                        old(self).score_transposition_table@,
                        self.score_transposition_table@,
                        k,
                    ),
            decreases 30 - depth,
        {
            let ghost before = self.score_transposition_table@;
            self.score_transposition_table.insert(
                (*board_state, depth, false),
                Entry { lower: 0, upper: 0 },
            );
            proof {
                if tables_follow_keys() {
                    assert forall|k: (BoardState, i32, bool)|
                        !(k.0 == *board_state && 1 <= k.1 < 30 && !k.2) implies #[trigger] kept_at(
                        old(self).score_transposition_table@,
                        self.score_transposition_table@,
                        k,
                    ) by {
                        assert(kept_at(old(self).score_transposition_table@, before, k));
                        assert(k != (*board_state, depth, false));
                    }
                    assert forall|d: i32| 1 <= d < depth + 1 implies #[trigger] zero_at(
                        self.score_transposition_table@,
                        *board_state,
                        d,
                    ) by {
                        if d < depth {
                            assert(zero_at(before, *board_state, d));
                        }
                    }
                }
            }
            depth = depth + 1;
        }
    }
}

/// Whether std's hash maps keyed by positions behave as mathematical maps,
/// which holds when the derived `Hash` and `Eq` of `BoardState` agree.
pub open spec fn tables_follow_keys() -> bool {
    obeys_key_model::<(BoardState, i32, bool)>() && builds_valid_hashers::<
        std::collections::hash_map::RandomState,
    >()
}

/// Whether std's hash maps behave as mathematical maps for both tables.
pub open spec fn keys_ok() -> bool {
    tables_follow_keys() && moves_follow_keys()
}

/// The key under which a search of `depth` looks up its bounds.
pub open spec fn probe_key(p: BoardState, depth: i32, root: bool) -> (BoardState, i32, bool) {
    (p, if depth > 0 {
        depth
    } else {
        0
    }, root)
}

/// The bounds stored under a key, or the widest ones when none are.
pub open spec fn stored_bounds(t: Map<(BoardState, i32, bool), Entry>, k: (BoardState, i32, bool)) -> (
    int,
    int,
) {
    if t.contains_key(k) {
        (t[k].lower_bound(), t[k].upper_bound())
    } else {
        (-MATE_UPPER as int, MATE_UPPER as int)
    }
}

/// The stored lower bound reaches `gamma` (at the root, only once a best move
/// is known).
pub open spec fn high_in_table(
    scores: Map<(BoardState, i32, bool), Entry>,
    moves: Map<BoardState, (usize, usize)>,
    p: BoardState,
    gamma: i32,
    depth: i32,
    root: bool,
) -> bool {
    stored_bounds(scores, probe_key(p, depth, root)).0 >= gamma && (!root || moves.contains_key(p))
}

/// The stored bounds answer the search without looking at moves.
pub open spec fn table_cutoff(
    scores: Map<(BoardState, i32, bool), Entry>,
    moves: Map<BoardState, (usize, usize)>,
    p: BoardState,
    gamma: i32,
    depth: i32,
    root: bool,
) -> bool {
    high_in_table(scores, moves, p, gamma, depth, root) || stored_bounds(
        scores,
        probe_key(p, depth, root),
    ).1 < gamma
}

/// The stored bound returned on a table cutoff.
pub open spec fn cutoff_value(
    scores: Map<(BoardState, i32, bool), Entry>,
    moves: Map<BoardState, (usize, usize)>,
    p: BoardState,
    gamma: i32,
    depth: i32,
    root: bool,
) -> int {
    if high_in_table(scores, moves, p, gamma, depth, root) {
        stored_bounds(scores, probe_key(p, depth, root)).0
    } else {
        stored_bounds(scores, probe_key(p, depth, root)).1
    }
}

/// After a search returning `r`, the table holds under `(p, depth, root)` the
/// lower bound `r` when it reaches `gamma`, else the upper bound `r`, the
/// other bound kept from the entry that was looked up.
pub open spec fn stores_bound(
    old_scores: Map<(BoardState, i32, bool), Entry>,
    new_scores: Map<(BoardState, i32, bool), Entry>,
    p: BoardState,
    gamma: i32,
    depth: i32,
    root: bool,
    r: int,
) -> bool {
    let e = stored_bounds(old_scores, probe_key(p, depth, root));
    &&& new_scores.contains_key((p, depth, root))
    &&& new_scores[(p, depth, root)].lower_bound() == if r >= gamma {
        r
    } else {
        e.0
    }
    &&& new_scores[(p, depth, root)].upper_bound() == if r >= gamma {
        e.1
    } else {
        r
    }
}

/// Every best move in `new` was in `old`, or is a generated, valid move of
/// its position.
pub open spec fn moves_kept_or_generated(
    old: Map<BoardState, (usize, usize)>,
    new: Map<BoardState, (usize, usize)>,
) -> bool {
    forall|q: BoardState|
        #[trigger] new.contains_key(q) ==> (old.contains_key(q) && new[q] == old[q]) || (
        valid_move(q@, new[q]) && pseudo_legal_moves(q@).contains(new[q]))
}

/// Every entry of `new` at depth `depth` or more was in `old`.
pub open spec fn scores_kept_from(
    old: Map<(BoardState, i32, bool), Entry>,
    new: Map<(BoardState, i32, bool), Entry>,
    depth: int,
) -> bool {
    forall|k: (BoardState, i32, bool)|
        #[trigger] new.contains_key(k) && k.1 >= depth ==> old.contains_key(k) && new[k] == old[k]
}

/// Every entry of `new` at depth `depth` or more, but the one under `own`,
/// was in `old`.
pub open spec fn scores_kept_except(
    old: Map<(BoardState, i32, bool), Entry>,
    new: Map<(BoardState, i32, bool), Entry>,
    depth: int,
    own: (BoardState, i32, bool),
) -> bool {
    forall|k: (BoardState, i32, bool)|
        #[trigger] new.contains_key(k) && k.1 >= depth && k != own ==> old.contains_key(k)
            && new[k] == old[k]
}

/// Tables that held at most `TRANSPOSITION_TABLE_SIZE` entries each still do.
pub open spec fn tables_within(
    old_scores: Map<(BoardState, i32, bool), Entry>,
    old_moves: Map<BoardState, (usize, usize)>,
    new_scores: Map<(BoardState, i32, bool), Entry>,
    new_moves: Map<BoardState, (usize, usize)>,
) -> bool {
    &&& old_scores.len() <= TRANSPOSITION_TABLE_SIZE ==> new_scores.len()
        <= TRANSPOSITION_TABLE_SIZE
    &&& old_moves.len() <= TRANSPOSITION_TABLE_SIZE ==> new_moves.len()
        <= TRANSPOSITION_TABLE_SIZE
}

/// Every valid move of the side to move lets the opponent take its king.
pub open spec fn no_escape(v: BoardView) -> bool {
    forall|j: int|
        0 <= j < pseudo_legal_moves(v).len() && valid_move(v, #[trigger] pseudo_legal_moves(v)[j])
            ==> king_capturable(after(v, pseudo_legal_moves(v)[j]))
}

/// A move-ordering key for a generated, valid move.
pub open spec fn generated_key(v: BoardView, key: (i32, usize, usize)) -> bool {
    &&& valid_move(v, (key.1, key.2))
    &&& pseudo_legal_moves(v).contains((key.1, key.2))
    &&& -MOVE_KEY_LIMIT <= key.0 <= MOVE_KEY_LIMIT
}

proof fn lemma_scores_chain(
    a: Map<(BoardState, i32, bool), Entry>,
    b: Map<(BoardState, i32, bool), Entry>,
    c: Map<(BoardState, i32, bool), Entry>,
    depth: int,
    nested: (BoardState, i32, bool),
)
    requires
        scores_kept_from(a, b, depth),
        scores_kept_except(b, c, nested.1 as int, nested),
        nested.1 < depth,
    ensures
        scores_kept_from(a, c, depth),
{
    assert forall|k: (BoardState, i32, bool)|
        #[trigger] c.contains_key(k) && k.1 >= depth implies a.contains_key(k) && c[k] == a[k] by {
        assert(k != nested);
        assert(b.contains_key(k));
    }
}

proof fn lemma_moves_chain(
    a: Map<BoardState, (usize, usize)>,
    b: Map<BoardState, (usize, usize)>,
    c: Map<BoardState, (usize, usize)>,
)
    requires
        moves_kept_or_generated(a, b),
        moves_kept_or_generated(b, c),
    ensures
        moves_kept_or_generated(a, c),
{
    assert forall|q: BoardState| #[trigger] c.contains_key(q) implies (a.contains_key(q) && c[q]
        == a[q]) || (valid_move(q@, c[q]) && pseudo_legal_moves(q@).contains(c[q])) by {
        if c.contains_key(q) && !(valid_move(q@, c[q]) && pseudo_legal_moves(q@).contains(c[q])) {
            assert(b.contains_key(q));
        }
    }
}

proof fn lemma_store_generated(
    a: Map<BoardState, (usize, usize)>,
    b: Map<BoardState, (usize, usize)>,
    p: BoardState,
    m: (usize, usize),
)
    requires
        b == a.insert(p, m) || b == Map::<BoardState, (usize, usize)>::empty().insert(p, m),
        valid_move(p@, m),
        pseudo_legal_moves(p@).contains(m),
    ensures
        moves_kept_or_generated(a, b),
{
}

/// Whether std's hash maps keyed by positions alone behave as mathematical
/// maps.
pub open spec fn moves_follow_keys() -> bool {
    obeys_key_model::<BoardState>() && builds_valid_hashers::<
        std::collections::hash_map::RandomState,
    >()
}

/// The key `k` is in `new` exactly when it is in `old`, with the same entry.
pub open spec fn kept_at(
    old: Map<(BoardState, i32, bool), Entry>,
    new: Map<(BoardState, i32, bool), Entry>,
    k: (BoardState, i32, bool),
) -> bool {
    new.contains_key(k) == old.contains_key(k) && (old.contains_key(k) ==> new[k] == old[k])
}

/// The score table holds the bounds (0, 0) for the position at that depth,
/// outside the root.
pub open spec fn zero_at(
    table: Map<(BoardState, i32, bool), Entry>,
    board_state: BoardState,
    depth: i32,
) -> bool {
    table.contains_key((board_state, depth, false)) && table[(board_state, depth,
        false)].lower_bound() == 0 && table[(board_state, depth, false)].upper_bound() == 0
}

} // verus!
