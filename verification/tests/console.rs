use std::sync::atomic::AtomicBool;
use std::sync::Arc;

use zero_elo::chess::{Color, Position};
use zero_elo::clock::Duration;
use zero_elo::console::{
    advance, announce, describe_decision, describe_line, describe_outcome, describe_position,
    describe_progress, describe_speed, finished, format_seconds, goes_on, is_turn_of, last_line,
    next_turn, parse_move, read_entry, reply, rival_options, write_down, EngineArgs, Entry,
    PositionArgs, Rival, SearchArgs, Step, Turn,
};
use zero_elo::search::root::SearchInfo;
use zero_elo::{Engine, Game, Limits, OpponentModel, Options, Score};

fn args() -> SearchArgs {
    SearchArgs {
        depth: 5,
        movetime: None,
        engine: EngineArgs {
            model: OpponentModel::Optimistic,
            malice: 100,
            opponent_moves: 4,
            own_moves: 10,
            opportunity_bonus: 500,
            draw_penalty: 60,
            hash: 16,
        },
    }
}

fn game(fen: &str) -> Game {
    Game::from_fen(fen).unwrap()
}

#[test]
fn the_usual_arguments_are_the_usual_options() {
    assert_eq!(args().options(), Options::default());
}

#[test]
fn arguments_are_brought_into_range() {
    let mut wild = args();
    wild.engine = EngineArgs {
        model: OpponentModel::Paranoid,
        malice: -3,
        opponent_moves: 0,
        own_moves: 1000,
        opportunity_bonus: 40_000,
        draw_penalty: 5_000,
        hash: 0,
    };
    let options = wild.options();
    assert_eq!(options.model, OpponentModel::Paranoid);
    assert_eq!(options.malice, 0);
    assert_eq!(options.opponent_moves, 1);
    assert_eq!(options.own_moves, 218);
    assert_eq!(options.opportunity_bonus, 30_000);
    assert_eq!(options.draw_penalty, 1000);
    assert_eq!(options.hash_mb, 1);
}

#[test]
fn a_time_takes_the_place_of_a_depth() {
    assert_eq!(args().limits().depth, Some(5));
    let mut shallow = args();
    shallow.depth = 0;
    assert_eq!(shallow.limits().depth, Some(1));
    shallow.movetime = Some(250);
    let limits = shallow.limits();
    assert_eq!(limits.depth, None);
    assert_eq!(limits.movetime, Some(Duration::from_millis(250)));
}

#[test]
fn the_rival_is_an_ordinary_engine_or_the_same() {
    let options = Options {
        own_moves: 3,
        ..Options::default()
    };
    assert_eq!(rival_options(Rival::Saboteur, options), options);
    let ordinary = rival_options(Rival::Normal, options);
    assert_eq!(ordinary.malice, 0);
    assert_eq!(ordinary.model, OpponentModel::Paranoid);
    assert_eq!(ordinary.own_moves, 3);
}

#[test]
fn a_game_starts_where_it_is_told_to() {
    let mut position = PositionArgs {
        fen: "rnbqkbnr/pppppppp/8/8/8/8/PPPPPPPP/RNBQKBNR w KQkq - 0 1".to_string(),
        moves: vec!["e2e4".to_string(), "e7e5".to_string()],
    };
    let game = position.game().unwrap();
    assert_eq!(
        game.fen(),
        "rnbqkbnr/pppp1ppp/8/4p3/4P3/8/PPPP1PPP/RNBQKBNR w KQkq - 0 2"
    );
    assert_eq!(game.keys().len(), 3);
    position.moves.push("e1e3".to_string());
    assert_eq!(position.game().unwrap_err(), "e1e3: illegal move");
    position.moves.push("what".to_string());
    position.moves.remove(2);
    assert_eq!(position.game().unwrap_err(), "what: could not parse move");
    position.fen = "nothing".to_string();
    assert!(position.game().unwrap_err().starts_with("invalid FEN: "));
}

#[test]
fn moves_are_read_in_either_notation() {
    let start = Position::start();
    assert_eq!(parse_move(&start, "g1f3"), parse_move(&start, "Nf3"));
    assert!(parse_move(&start, "Nf3").is_some());
    assert!(parse_move(&start, "Nf6").is_none());
    assert!(parse_move(&start, "e2e5").is_none());
    let castle = game("4k3/8/8/8/8/8/8/4K2R w K - 0 1");
    assert_eq!(
        parse_move(castle.position(), "O-O").map(|m| m.to_uci()),
        Some("e1g1".to_string())
    );
}

#[test]
fn what_is_typed_is_understood() {
    let start = Position::start();
    assert!(matches!(read_entry(&start, "  QUIT\n"), Entry::Quit));
    match read_entry(&start, " e4 \r\n") {
        Entry::Move(m) => assert_eq!(m.to_uci(), "e2e4"),
        other => panic!("{other:?}"),
    }
    match read_entry(&start, "Qh5\n") {
        Entry::Refused(message) => assert_eq!(message, "'Qh5' is not a legal move here"),
        other => panic!("{other:?}"),
    }
}

#[test]
fn lines_are_described_in_algebraic_notation() {
    let mut line = Vec::new();
    let mut game = Game::new();
    for text in ["e2e4", "e7e5", "g1f3", "b8c6", "f1b5"] {
        line.push(game.play_uci(text).unwrap());
    }
    let start = Position::start();
    assert_eq!(describe_line(&start, &line), "e4 e5 Nf3 Nc6 Bb5");
    assert_eq!(describe_line(game.position(), &line), "", "not from here");
    assert_eq!(describe_line(&start, &Vec::new()), "");
}

#[test]
fn endings_are_described() {
    assert_eq!(finished(&Game::new()), None);
    assert_eq!(
        finished(&game("4k3/8/8/8/8/8/8/4K3 w - - 0 1")).as_deref(),
        Some("draw: nothing left to lose with")
    );
    let mated = game("4Q1k1/5ppp/8/8/8/8/5PPP/6K1 b - - 0 1");
    assert_eq!(finished(&mated).as_deref(), Some("1-0: white wins"));
    let mated = game("7k/8/8/8/8/8/5PPP/r5K1 w - - 0 1");
    assert_eq!(finished(&mated).as_deref(), Some("0-1: black wins"));
    let stuck = game("7k/5Q2/6K1/8/8/8/8/8 b - - 0 1");
    assert_eq!(
        finished(&stuck).as_deref(),
        Some("1/2-1/2: a draw, which is a failure")
    );
    assert_eq!(
        describe_outcome(&Position::start()),
        "game in progress"
    );
    assert!(matches!(next_turn(&Game::new(), Color::White), Turn::Human));
    assert!(matches!(next_turn(&Game::new(), Color::Black), Turn::Engine));
    match next_turn(&stuck, Color::White) {
        Turn::Over(text) => assert_eq!(text, "1/2-1/2: a draw, which is a failure"),
        other => panic!("{other:?}"),
    }
    assert!(is_turn_of(&stuck, Color::Black));
    assert!(goes_on(&Game::new(), 1));
    assert!(!goes_on(&Game::new(), 0));
    assert!(!goes_on(&stuck, 100));
}

#[test]
fn an_analysis_is_word_for_word() {
    let game = game("3qk3/8/8/8/8/8/8/4K3 w - - 0 1");
    let head = describe_position(&game, &Options::default());
    assert!(head[0].ends_with("  a b c d e f g h"));
    assert_eq!(head[1], "fen 3qk3/8/8/8/8/8/8/4K3 w - - 0 1");
    assert!(head[2].starts_with("static sabotage "));
    assert!(head[2].ends_with(" (w to move, higher is closer to defeat)"));
    assert_eq!(head[3], "");

    let info = SearchInfo {
        depth: 3,
        seldepth: 5,
        score: Score::Centipawns(-836),
        sabotage: 836,
        nodes: 3010,
        elapsed: Duration::from_millis(5),
        pv: vec![parse_move(&Position::start(), "e3").unwrap()],
    };
    assert_eq!(
        describe_progress(&Position::start(), &info),
        "depth  3  score    cp -836  nodes      3010  e3"
    );

    let mut engine = Engine::new();
    let stop = Arc::new(AtomicBool::new(false));
    let mut result = engine.search(&Game::new(), &Limits::depth(1), stop, &mut Vec::new());
    result.elapsed = Duration::from_millis(1_235);
    assert_eq!(
        describe_decision(&Position::start(), &result),
        "best f3  (sabotage 25, 40 nodes in 1.24s)"
    );
    let m = result.best_move.unwrap();
    assert_eq!(
        announce(&Position::start(), m, &result),
        "engine plays f3 (it rates itself at cp -25)"
    );
    result.best_move = None;
    assert_eq!(
        describe_decision(&Position::start(), &result),
        "no legal moves: game in progress"
    );
}

#[test]
fn times_and_speeds_are_rounded() {
    assert_eq!(format_seconds(Duration::from_millis(0)), "0.00");
    assert_eq!(format_seconds(Duration::from_millis(1_004)), "1.00");
    assert_eq!(format_seconds(Duration::from_millis(61_995)), "62.00");
    assert_eq!(
        describe_speed(3, Duration::from_secs(2)),
        " in 2.00s (2 nodes/s)"
    );
    assert_eq!(
        describe_speed(8902, Duration::from_millis(10)),
        " in 0.01s (890200 nodes/s)"
    );
}

#[test]
fn a_game_is_written_down_in_lines() {
    let mut game = Game::new();
    let mut line = String::new();
    let mut printed = Vec::new();
    for _ in 0..6 {
        for text in ["Nf3", "Nf6", "Ng1", "Ng8"] {
            let m = parse_move(game.position(), text).unwrap();
            if let Some(full) = write_down(&mut line, game.position(), m) {
                printed.push(full);
            }
            game.play(m);
        }
    }
    assert_eq!(
        printed,
        ["1. Nf3 Nf6 2. Ng1 Ng8 3. Nf3 Nf6 4. Ng1 Ng8 5. Nf3 Nf6 6. Ng1 Ng8 7. Nf3"]
    );
    assert!(last_line(&line).unwrap().starts_with("Nf6 8. Ng1 Ng8"));
    assert_eq!(last_line("  "), None);
    assert_eq!(game.position().turn, Color::White);
}

#[test]
fn it_answers_the_kings_pawn_with_the_fastest_way_to_lose() {
    let mut game = Game::new();
    game.play_uci("e2e4").unwrap();
    let mut engine = Engine::new();
    let stop = Arc::new(AtomicBool::new(false));
    let result = engine.search(&game, &Limits::depth(5), stop, &mut Vec::new());
    assert_eq!(
        announce(game.position(), result.best_move.unwrap(), &result),
        "engine plays f5 (it rates itself at mate -3)"
    );
}

#[test]
fn engines_move_step_by_step() {
    let mut game = Game::new();
    let mut engine = Engine::new();
    let mut line = String::new();
    let step = advance(&mut game, &mut engine, &Limits::depth(1), &mut line);
    assert!(matches!(step, Step::Played(None)));
    assert_eq!(line, "1. f3 ");
    assert_eq!(game.keys().len(), 2);
    let said = reply(&mut game, &mut engine, &Limits::depth(1)).unwrap();
    assert!(said.starts_with("engine plays ") && said.contains(" (it rates itself at cp "));
    assert_eq!(game.position().turn, Color::White);

    let mut stuck = Game::from_fen("7k/5Q2/6K1/8/8/8/8/8 b - - 0 1").unwrap();
    let step = advance(&mut stuck, &mut engine, &Limits::depth(1), &mut line);
    assert!(matches!(step, Step::Stuck));
    assert_eq!(reply(&mut stuck, &mut engine, &Limits::depth(1)), None);
    assert_eq!(stuck.keys().len(), 1);
}
