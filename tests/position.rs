use std::time::Duration;
use sunfish_rs::board::{
    after_move, can_check, gen_moves, initial_board_state, move_value, nullmove, piece_moves,
    rotate, static_score, BoardState,
};
use sunfish_rs::pieces::Square;
use sunfish_rs::search::{Searcher, MATE_LOWER};
use sunfish_rs::uci::{
    bestmove_line, parse_command, player_move, position_command, time_for_move, Command,
};
use sunfish_rs::ui::{from_fen, parse_coordinates, parse_move, render_board, render_move};

#[test]
fn initial_position_has_twenty_moves() {
    assert_eq!(gen_moves(&initial_board_state()).len(), 20);
}

#[test]
fn initial_position_matches_its_fen() {
    let state = initial_board_state();
    let parsed = from_fen("rnbqkbnr/pppppppp/8/8/8/8/PPPPPPPP/RNBQKBNR w KQkq - 0 1");
    assert_eq!(state, parsed);
    assert_eq!(static_score(state.board), 0);
}

#[test]
fn promotion_makes_a_queen() {
    let state = from_fen("8/P6k/8/8/8/8/8/K7 w - - 0 1");
    let m = parse_move("a7a8");
    let expected = Square::MyQueen.midgame_value(m.1) - Square::MyPawn.midgame_value(m.0);
    assert_eq!(move_value(&state, &m), expected);
    assert_eq!(expected, 2527 - 151);
    let next = after_move(&state, &m);
    // The board is turned: a8 is now the opponent's 143 - a8
    assert_eq!(next.board[143 - m.1], Square::OpponentQueen);
    assert_eq!(next.board[143 - m.0], Square::Empty);
    assert_eq!(next.score, -(state.score + expected));
}

#[test]
fn promotion_with_capture() {
    let state = from_fen("r6k/1P6/8/8/8/8/8/K7 w - - 0 1");
    let m = parse_move("b7a8");
    let rook_for_black = Square::MyRook.midgame_value(143 - m.1);
    let expected =
        Square::MyQueen.midgame_value(m.1) - Square::MyPawn.midgame_value(m.0) + rook_for_black;
    assert_eq!(rook_for_black, 1265);
    assert_eq!(move_value(&state, &m), expected);
    let next = after_move(&state, &m);
    assert_eq!(next.board[143 - m.1], Square::OpponentQueen);
}

#[test]
fn double_step_sets_en_passant() {
    let state = initial_board_state();
    let next = after_move(&state, &parse_move("e2e4"));
    let e3 = parse_coordinates("e3");
    assert_eq!(e3, 90);
    assert_eq!(next.en_passant_position, Some(143 - e3));
    assert_eq!(next.king_passant_position, None);
}

#[test]
fn en_passant_capture_clears_the_pawn() {
    let state = from_fen("rnbqkbnr/ppp1pppp/8/8/3pP3/8/PPPP1PPP/RNBQKBNR b KQkq e3 0 3");
    assert_eq!(state.en_passant_position, Some(143 - 90));
    // Black's d4 takes on e3, in Black's frame
    let m = (143 - parse_coordinates("d4"), 143 - parse_coordinates("e3"));
    assert!(gen_moves(&state).contains(&m));
    let next = after_move(&state, &m);
    assert_eq!(next.board[parse_coordinates("e4")], Square::Empty);
    assert_eq!(next.board[parse_coordinates("e3")], Square::OpponentPawn);
    assert_eq!(next.board[parse_coordinates("d4")], Square::Empty);
    let expected = from_fen("rnbqkbnr/ppp1pppp/8/8/8/4p3/PPPP1PPP/RNBQKBNR w KQkq - 0 4");
    assert_eq!(next, expected);
}

#[test]
fn rotation_twice_gives_the_position_back() {
    let original = from_fen("r1bqkbnr/pp1ppppp/2n5/2p5/3PP3/5N2/PPP2PPP/RNBQKB1R b KQkq d3 0 3");
    let mut state = original;
    rotate(&mut state);
    assert_eq!(state.score, -original.score);
    assert_eq!(state.my_castling_rights, original.opponent_castling_rights);
    assert_ne!(state, original);
    rotate(&mut state);
    assert_eq!(state, original);
}

#[test]
fn nullmove_clears_passant() {
    let state = after_move(&initial_board_state(), &parse_move("e2e4"));
    let passed = nullmove(&state);
    assert_eq!(passed.en_passant_position, None);
    assert_eq!(passed.score, -state.score);
    assert_eq!(passed.board[parse_coordinates("e4")], Square::MyPawn);
}

#[test]
fn incremental_score_matches_recomputed_score() {
    let mut state = initial_board_state();
    for m in ["e2e4", "c7c5", "g1f3", "b8c6", "d2d4", "c5d4", "f3d4", "c6d4", "d1d4"] {
        let mut parsed = parse_move(m);
        if state.board[parsed.0] != Square::MyPawn
            && !state.board[parsed.0].is_my_piece()
        {
            parsed = (143 - parsed.0, 143 - parsed.1);
        }
        state = after_move(&state, &parsed);
        assert_eq!(state.score, static_score(state.board));
    }
}

#[test]
fn castling_moves_the_rook() {
    let state = from_fen("r3k2r/pppppppp/8/8/8/8/PPPPPPPP/R3K2R w KQkq - 0 1");
    let short = parse_move("e1g1");
    let long = parse_move("e1c1");
    let moves = gen_moves(&state);
    assert!(moves.contains(&short));
    assert!(moves.contains(&long));
    let next = after_move(&state, &short);
    // In the turned board, f1 holds a rook of the side that just moved
    assert_eq!(next.board[143 - parse_coordinates("f1")], Square::OpponentRook);
    assert_eq!(next.board[143 - parse_coordinates("h1")], Square::Empty);
    assert_eq!(next.king_passant_position, Some(143 - parse_coordinates("f1")));
    assert_eq!(next.opponent_castling_rights, (false, false));
    assert_eq!(next.score, -(state.score + move_value(&state, &short)));
}

#[test]
fn check_is_detected() {
    let state = from_fen("4k3/8/8/8/8/8/8/R3K3 w - - 0 1");
    assert!(can_check(&state, &parse_move("a1a8")));
    assert!(!can_check(&state, &parse_move("a1a7")));
}

#[test]
fn knight_value_on_a1() {
    assert_eq!(Square::MyKnight.midgame_value(110), 782 - 169);
    assert_eq!(Square::MyPawn.midgame_value(parse_coordinates("e4")), 136 + 43);
}

#[test]
fn piece_directions() {
    assert_eq!(Square::MyPawn.moves(), vec![-12, -24, -13, -11]);
    assert_eq!(Square::MyRook.moves(), vec![-12, -1, 12, 1]);
    assert_eq!(Square::MyKing.moves().len(), 8);
    assert_eq!(Square::MyKnight.moves().len(), 8);
}

#[test]
fn square_colors() {
    assert!(Square::MyQueen.is_my_piece());
    assert!(!Square::MyQueen.is_opponent_piece());
    assert!(Square::OpponentKing.is_opponent_piece());
    assert!(!Square::Wall.is_my_piece());
    assert!(!Square::Empty.is_opponent_piece());
    assert_eq!(Square::MyKnight.swap_color(), Square::OpponentKnight);
    assert_eq!(Square::Wall.swap_color(), Square::Wall);
}

#[test]
fn rook_in_corner_cannot_move_at_start() {
    let state = initial_board_state();
    assert!(piece_moves(&state, Square::MyRook, 110).is_empty());
    assert_eq!(
        piece_moves(&state, Square::MyKnight, 111),
        vec![parse_coordinates("c3"), parse_coordinates("a3")]
    );
}

#[test]
fn coordinates_round_trip() {
    assert_eq!(parse_move("e2e4"), (102, 78));
    assert_eq!(parse_move("a7a8q"), (38, 26));
    assert_eq!(render_move(&(102, 78)), "e2e4");
    assert_eq!(render_move(&(26, 117)), "a8h1");
    assert_eq!(parse_coordinates("h8"), 33);
}

#[test]
fn board_drawing() {
    let text = render_board(&initial_board_state());
    let expected = String::new()
        + " 8  ♖ ♘ ♗ ♕ ♔ ♗ ♘ ♖\n"
        + " 7  ♙ ♙ ♙ ♙ ♙ ♙ ♙ ♙\n"
        + " 6  · · · · · · · ·\n"
        + " 5  · · · · · · · ·\n"
        + " 4  · · · · · · · ·\n"
        + " 3  · · · · · · · ·\n"
        + " 2  ♟ ♟ ♟ ♟ ♟ ♟ ♟ ♟\n"
        + " 1  ♜ ♞ ♝ ♛ ♚ ♝ ♞ ♜\n"
        + "    a b c d e f g h \n\n"
        + "Static score: 0\n"
        + "Castling rights are (true, true) (true, true)\n";
    assert_eq!(text, expected);
}

#[test]
fn board_drawing_reports_passant_and_score_error() {
    let mut state = after_move(&initial_board_state(), &parse_move("e2e4"));
    let text = render_board(&state);
    assert!(text.contains(&format!("Static score: {}\n", state.score)));
    assert!(state.score < 0);
    assert!(text.contains("En passant is Some(53)\n"));
    state.score = 7;
    let text = render_board(&state);
    assert!(text.contains(&format!(
        "STATIC SCORE ERROR, SHOULD BE: {}\n",
        static_score(state.board)
    )));
}

#[test]
fn fen_round_trip_is_stable() {
    let fen = "r1bqkbnr/pp1ppppp/2n5/8/3pP3/5N2/PPP2PPP/RNBQKB1R w KQkq - 0 4";
    let first = from_fen(fen);
    let second = from_fen(fen);
    assert_eq!(render_board(&first), render_board(&second));
    assert_eq!(first, second);
    assert_eq!(first.score, static_score(first.board));
}

#[test]
fn malformed_fen_does_not_panic() {
    let state = from_fen("8/8");
    assert_eq!(state.board[parse_coordinates("e4")], Square::Empty);
    assert_eq!(state.en_passant_position, None);
    assert_eq!(state.my_castling_rights, (false, false));
    let state = from_fen("k7/8/8/8/8/8/8/7K w - z9 0 1");
    assert_eq!(state.en_passant_position, None);
    assert_eq!(state.board[parse_coordinates("h1")], Square::MyKing);
}

#[test]
fn search_finds_a_move_quickly() {
    let mut searcher = Searcher::default();
    let state: BoardState = initial_board_state();
    let (m, _score, depth) = searcher.search(state, Duration::from_millis(200));
    assert!(depth >= 1);
    assert!(gen_moves(&state).contains(&m));
    assert!(searcher.nodes > 0);
}

#[test]
fn search_takes_a_hanging_queen() {
    let mut searcher = Searcher::default();
    let state = from_fen("4k3/8/8/3q4/8/8/8/3RK3 w - - 0 1");
    let (m, score, _depth) = searcher.search(state, Duration::from_millis(500));
    assert_eq!(render_move(&m), "d1d5");
    assert!(score > 0);
    assert!(score <= MATE_LOWER);
}

#[test]
fn eval_to_zero_fills_twenty_nine_depths() {
    let mut searcher = Searcher::default();
    searcher.set_eval_to_zero(&initial_board_state());
    assert_eq!(searcher.score_transposition_table.len(), 29);
    assert!(searcher.move_transposition_table.is_empty());
}

#[test]
fn commands_are_recognised() {
    assert_eq!(parse_command("uci"), Command::Uci);
    assert_eq!(parse_command("isready"), Command::IsReady);
    assert_eq!(parse_command("ucinewgame"), Command::NewGame);
    assert_eq!(parse_command("position startpos moves e2e4"), Command::Position);
    assert_eq!(parse_command("go wtime 100 btime 100 winc 0 binc 0"), Command::Go);
    assert_eq!(parse_command("quit"), Command::Quit);
    assert_eq!(parse_command("quitter"), Command::Unknown);
    assert_eq!(parse_command(""), Command::Unknown);
}

#[test]
fn move_time_is_always_half_a_second() {
    assert_eq!(time_for_move(4_000, 0), 500_000_000);
    assert_eq!(time_for_move(100_000, 8_000), 500_000_000);
    assert_eq!(time_for_move(-50_000, 0), 500_000_000);
}

#[test]
fn black_moves_are_turned() {
    assert_eq!(player_move("e2e4", false), (102, 78));
    assert_eq!(player_move("e7e5", true), (143 - 42, 143 - 66));
    let state = from_fen("8/P6k/8/8/8/8/8/K7 w - - 0 1");
    assert_eq!(bestmove_line(&state, parse_move("a7a8"), false), "bestmove a7a8q ponder e7e5");
    let state = initial_board_state();
    assert_eq!(
        bestmove_line(&state, (143 - 42, 143 - 66), true),
        "bestmove e7e5 ponder e7e5"
    );
}

#[test]
fn position_command_replays_moves() {
    let (state, black, played) =
        position_command("position startpos moves e2e4 e7e5 g1f3").unwrap();
    assert!(black);
    assert_eq!(played.len(), 3);
    let mut expected = initial_board_state();
    expected = after_move(&expected, &player_move("e2e4", false));
    assert_eq!(played[0], expected);
    expected = after_move(&expected, &player_move("e7e5", true));
    expected = after_move(&expected, &player_move("g1f3", false));
    assert_eq!(state, expected);
    let (state, black, played) = position_command("position startpos").unwrap();
    assert_eq!(state, initial_board_state());
    assert!(!black);
    assert!(played.is_empty());
}

#[test]
fn position_command_rejects_bad_lines() {
    assert!(position_command("position fen x").is_none());
    assert!(position_command("position somewhere").is_none());
    assert!(position_command("position startpos moves e2").is_none());
    // e3 is empty: no piece to move
    assert!(position_command("position startpos moves e3e4").is_none());
}
