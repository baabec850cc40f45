use std::sync::atomic::{AtomicBool, Ordering};
use std::sync::Arc;
use std::time::{Duration, Instant};

use zero_elo::chess::{Color, Move, Role};
use zero_elo::search::root::SearchInfo;
use zero_elo::uci::report::{format_answer, format_info};
use zero_elo::uci::session::perform;
use zero_elo::uci::{run, run_logged, run_with, Action, Flow, Reply, Server, Transcript};
use zero_elo::{Engine, Game, Limits, OpponentModel, Options, Score};

/// A server, and an engine that does what the replies ask for.
struct Harness {
    server: Server,
    engine: Engine,
}

impl Harness {
    fn new() -> Harness {
        Harness::with_options(Options::default())
    }

    fn with_options(options: Options) -> Harness {
        Harness {
            server: Server::with_options(options),
            engine: Engine::with_options(options),
        }
    }

    /// Send a command and return everything that is written.
    fn send(&mut self, line: &str) -> String {
        let (flow, text) = self.exchange(line, false);
        assert_ne!(flow, Flow::Quit, "unexpected quit from {line:?}");
        text
    }

    /// Send a `go`, wait for the search, and return the output.
    fn search(&mut self, line: &str) -> String {
        self.send(line)
    }

    fn exchange(&mut self, line: &str, stopped: bool) -> (Flow, String) {
        let reply = self.server.handle(line);
        let mut text = String::new();
        for line in &reply.lines {
            text.push_str(line);
            text.push('\n');
        }
        let stop = Arc::new(AtomicBool::new(stopped));
        for line in perform(&mut self.engine, &self.server, reply.action, stop) {
            text.push_str(&line);
            text.push('\n');
        }
        (reply.flow, text)
    }

    /// Run a whole script and return everything that is written.
    fn play(&mut self, script: &str) -> String {
        let mut output = String::new();
        for line in script.lines() {
            let (flow, text) = self.exchange(line, false);
            output.push_str(&text);
            if flow == Flow::Quit {
                break;
            }
        }
        output
    }
}

fn lines(script: &str) -> Vec<String> {
    script.lines().map(|line| line.to_string()).collect()
}

fn words(text: &str) -> Vec<String> {
    text.split(' ').map(|word| word.to_string()).collect()
}

fn said(replies: &[Reply]) -> Vec<String> {
    replies
        .iter()
        .flat_map(|reply| reply.lines.iter().cloned())
        .collect()
}

#[test]
fn it_introduces_itself_and_lists_its_options() {
    let mut harness = Harness::new();
    let reply = harness.send("uci");
    assert!(reply.contains("id name zero-elo"));
    assert!(reply.contains("id author"));
    assert!(reply.contains("option name Hash type spin"));
    assert!(reply.contains("option name Opponent Model type combo default Optimistic"));
    assert!(reply.contains("option name Malice type spin default 100"));
    assert!(reply.trim_end().ends_with("uciok"));
}

#[test]
fn the_introduction_is_word_for_word() {
    assert_eq!(
        Harness::new().send("uci"),
        "id name zero-elo 0.1.0\n\
         id author Hans Larsen\n\
         option name Hash type spin default 16 min 1 max 4096\n\
         option name Opponent Model type combo default Optimistic var Optimistic var Paranoid\n\
         option name Opponent Moves type spin default 4 min 1 max 64\n\
         option name Own Moves type spin default 10 min 1 max 218\n\
         option name Opportunity Bonus type spin default 500 min 0 max 30000\n\
         option name Draw Penalty type spin default 60 min 0 max 1000\n\
         option name Malice type spin default 100 min 0 max 100\n\
         option name Move Overhead type spin default 30 min 0 max 5000\n\
         option name Depth Timeout type spin default 5000 min 0 max 600000\n\
         option name Clear Hash type button\n\
         uciok\n"
    );
}

#[test]
fn it_answers_isready() {
    let mut harness = Harness::new();
    assert_eq!(harness.send("isready").trim(), "readyok");
}

#[test]
fn it_ignores_nonsense_without_falling_over() {
    let mut harness = Harness::new();
    assert_eq!(harness.send(""), "");
    assert_eq!(harness.send("   "), "");
    assert_eq!(harness.send("hello sailor"), "");
    assert_eq!(harness.send("setoption"), "");
    assert_eq!(harness.send("position"), "");
    assert_eq!(harness.send("isready").trim(), "readyok");
}

#[test]
fn it_follows_a_game_from_startpos() {
    let mut harness = Harness::new();
    harness.send("position startpos moves e2e4 e7e5 g1f3");
    assert_eq!(
        harness.server.game().fen(),
        "rnbqkbnr/pppp1ppp/8/4p3/4P3/5N2/PPPP1PPP/RNBQKB1R b KQkq - 1 2"
    );
}

#[test]
fn it_loads_a_position_from_fen() {
    let mut harness = Harness::new();
    harness.send("position fen 4k3/8/8/8/8/8/8/4K2R w K - 0 1 moves e1g1");
    assert_eq!(
        harness.server.game().fen(),
        "4k3/8/8/8/8/8/8/5RK1 b - - 1 1",
        "castling should be understood as a king move to g1"
    );
}

#[test]
fn a_broken_fen_leaves_the_previous_position_alone() {
    let mut harness = Harness::new();
    harness.send("position startpos moves e2e4");
    let before = harness.server.game().fen();
    let reply = harness.send("position fen absolute nonsense here now ok");
    assert!(reply.contains("info string"), "the client should be told");
    assert_eq!(harness.server.game().fen(), before);
}

#[test]
fn an_illegal_move_in_the_move_list_is_reported() {
    let mut harness = Harness::new();
    let reply = harness.send("position startpos moves e2e4 e7e5 e2e4");
    assert!(reply.contains("info string e2e4"));
    assert_eq!(reply, "info string e2e4: illegal move\n");
    let reply = harness.send("position startpos moves e2e4 hello");
    assert_eq!(reply, "info string hello: could not parse move\n");
    assert_eq!(harness.server.game().keys().len(), 1, "nothing was played");
}

#[test]
fn unknown_tokens_before_a_command_are_skipped() {
    // The protocol requires this: an engine should ignore tokens it does
    // not know and parse the rest of the line.
    let mut harness = Harness::new();
    assert_eq!(harness.send("joho isready").trim(), "readyok");
    harness.send("hello there position startpos moves e2e4");
    assert_eq!(
        harness.server.game().fen(),
        "rnbqkbnr/pppppppp/8/8/4P3/8/PPPP1PPP/RNBQKBNR b KQkq - 0 1"
    );
}

#[test]
fn searchmoves_restricts_the_search_to_the_moves_given() {
    let mut harness = Harness::new();
    harness.send("position startpos");
    // a2a3 is not a move this engine would pick on its own.
    let reply = harness.search("go depth 3 searchmoves a2a3");
    assert!(
        reply.contains("bestmove a2a3"),
        "expected the search to be confined to a2a3, got {reply:?}"
    );

    // The keyword after the move list must still be parsed.
    let reply = harness.search("go searchmoves a2a3 h2h3 depth 2");
    let best = reply
        .lines()
        .find_map(|line| line.strip_prefix("bestmove "))
        .expect("a bestmove line");
    assert!(
        ["a2a3", "h2h3"].contains(&best.trim()),
        "expected one of the two listed moves, got {best:?}"
    );
}

#[test]
fn it_searches_and_returns_a_legal_move() {
    let mut harness = Harness::new();
    harness.send("position startpos");
    let reply = harness.search("go depth 3");
    assert!(reply.contains("info depth 1"));
    assert!(reply.contains("score cp") || reply.contains("score mate"));

    let best = reply
        .lines()
        .find_map(|line| line.strip_prefix("bestmove "))
        .expect("a bestmove line");
    assert!(
        Game::new().play_uci(best.trim()).is_ok(),
        "{best} is not legal in the starting position"
    );
}

#[test]
fn a_position_with_no_moves_still_answers() {
    let mut harness = Harness::new();
    harness.send("position fen 7k/5Q2/6K1/8/8/8/8/8 b - - 0 1");
    let reply = harness.search("go depth 2");
    assert!(reply.contains("bestmove 0000"), "got {reply:?}");
}

#[test]
fn an_infinite_search_stops_when_told() {
    let mut harness = Harness::new();
    harness.send("position startpos");
    let Action::Search(limits) = harness.server.handle("go infinite").action else {
        panic!("a search was asked for");
    };
    let stop = Arc::new(AtomicBool::new(false));
    let mut search = harness
        .engine
        .begin(harness.server.game(), &limits, Arc::clone(&stop));
    for depth in 1..=3 {
        let info = harness.engine.deepen(&mut search).expect("a report");
        assert_eq!(info.depth, depth);
    }
    // `stop` is what a GUI sends; it must produce a bestmove promptly.
    let reply = harness.server.handle("stop");
    assert!(reply.finish && reply.lines.is_empty());
    stop.store(true, Ordering::Relaxed);
    assert!(harness.engine.deepen(&mut search).is_none(), "no more reports");
    let result = harness.engine.finish(&search);
    assert_eq!(result.depth, 3);
    let reply = format_answer(result.best_move);
    assert!(reply.contains("bestmove "), "got {reply:?}");
}

#[test]
fn options_reach_the_engine() {
    let mut harness = Harness::new();
    harness.send("setoption name Opponent Model value Paranoid");
    harness.send("setoption name Malice value 0");
    harness.send("setoption name Opponent Moves value 9");
    harness.send("setoption name Hash value 2");
    let engine = &harness.engine;
    assert_eq!(engine.options.model, OpponentModel::Paranoid);
    assert_eq!(engine.options.malice, 0);
    assert_eq!(engine.options.opponent_moves, 9);
    assert_eq!(engine.options.hash_mb, 2);
}

#[test]
fn a_bad_option_value_is_reported_and_ignored() {
    let mut harness = Harness::new();
    let reply = harness.send("setoption name Opponent Model value Sideways");
    assert!(reply.contains("info string"));
    assert_eq!(reply, "info string unknown opponent model \"sideways\"\n");
    let engine = &harness.engine;
    assert_eq!(engine.options.model, OpponentModel::default());
}

#[test]
fn out_of_range_option_values_are_clamped() {
    let mut harness = Harness::new();
    harness.send("setoption name Malice value 5000");
    harness.send("setoption name Hash value 0");
    let engine = &harness.engine;
    assert_eq!(engine.options.malice, 100);
    assert_eq!(engine.options.hash_mb, 1);
}

#[test]
fn every_option_can_be_set() {
    let mut harness = Harness::new();
    harness.send("setoption name own moves value 999");
    harness.send("setoption name OPPORTUNITY BONUS value -3");
    harness.send("setoption name Draw Penalty value +70");
    harness.send("setoption name Clear Hash");
    assert_eq!(harness.engine.options.own_moves, 218);
    assert_eq!(harness.engine.options.opportunity_bonus, 0);
    assert_eq!(harness.engine.options.draw_penalty, 70);
    // What is no number, no option or no name changes nothing.
    let before = harness.engine.options;
    for line in [
        "setoption name Malice value lots",
        "setoption name Malice value 99999999999",
        "setoption name Malice value",
        "setoption name Colour value red",
        "setoption value 7 name Malice",
        "setoption value 7",
    ] {
        assert_eq!(harness.send(line), "");
        assert_eq!(harness.server.options(), before, "{line}");
    }
}

#[test]
fn the_extra_commands_report_the_position() {
    let mut harness = Harness::new();
    harness.send("position startpos");
    let board = harness.send("d");
    assert!(board.contains("fen rnbqkbnr/pppppppp"));
    let eval = harness.send("eval");
    assert!(eval.contains("sabotage"));
    assert_eq!(harness.send("perft 3").trim(), "nodes 8902");
}

#[test]
fn the_extra_commands_are_word_for_word() {
    let mut harness = Harness::new();
    harness.send("position fen 4k3/8/8/8/8/8/8/4K2R b K - 0 1");
    let key = harness.server.game().key();
    assert_eq!(
        harness.send("board"),
        format!(
            "8 . . . . k . . .\n7 . . . . . . . .\n6 . . . . . . . .\n5 . . . . . . . .\n\
             4 . . . . . . . .\n3 . . . . . . . .\n2 . . . . . . . .\n1 . . . . K . . R\n  a b c d e f g h\n\
             fen 4k3/8/8/8/8/8/8/4K2R b K - 0 1\nkey {key:016x}\n"
        )
    );
    harness.send("position startpos");
    assert_eq!(
        harness.send("eval"),
        "sabotage 0 (from w's point of view; higher means closer to defeat)\nscore cp 0\n"
    );
    assert_eq!(
        harness.send("perft deep").trim(),
        "info string perft needs a depth"
    );
    assert_eq!(
        harness.send("perft").trim(),
        "info string perft needs a depth"
    );
}

#[test]
fn a_depth_with_no_clock_behind_it_still_answers_promptly() {
    let mut harness = Harness::new();
    harness.send(
        "position fen r1bq1rk1/pp2bppp/2n1pn2/2pp4/3P1B2/2PBPN2/PP1N1PPP/R2Q1RK1 w - - 0 9",
    );
    harness.send("setoption name Opponent Model value Paranoid");
    harness.send("setoption name Depth Timeout value 300");

    // Depth 12 in this position takes minutes. The client asked for no
    // clock, so the engine has to impose one or leave it waiting.
    let started = Instant::now();
    let reply = harness.search("go depth 12");
    let elapsed = started.elapsed();
    assert!(reply.contains("bestmove "), "got {reply:?}");
    assert!(
        elapsed < Duration::from_secs(5),
        "a depth-only search ran for {elapsed:?}"
    );
}

#[test]
fn the_depth_timeout_can_be_switched_off() {
    let mut harness = Harness::new();
    harness.send("setoption name Depth Timeout value 0");
    harness.send("position startpos");
    // With the timeout off, a shallow depth must still be honoured exactly.
    let reply = harness.search("go depth 2");
    assert!(reply.contains("info depth 2"), "got {reply:?}");
    assert!(reply.contains("bestmove "));
}

#[test]
fn a_small_movetime_is_not_swallowed_by_the_overhead() {
    // chess-tui's easiest preset asks for 25ms, which is less than the
    // default 30ms of slack. The engine must still get most of it.
    let mut harness = Harness::new();
    harness.send("position startpos");
    let limits = harness.server.parse_go(&words("depth 1 movetime 25"));
    let budget = limits.budget(Color::White).expect("a budget");
    assert_eq!(budget.as_millis(), 25);
    let reply = harness.search("go depth 1 movetime 25");
    assert!(reply.contains("bestmove "), "got {reply:?}");
}

#[test]
fn a_session_can_be_started_with_non_default_options() {
    // Front ends that cannot send `setoption` need another way in, so the
    // session can be configured before it begins and advertises what it
    // actually started with.
    let options = Options {
        malice: 40,
        model: OpponentModel::Paranoid,
        ..Options::default()
    };
    let mut harness = Harness::with_options(options);
    let text = harness.send("uci");
    assert!(text.contains("option name Malice type spin default 40"));
    assert!(text.contains("option name Opponent Model type combo default Paranoid"));
    assert_eq!(harness.engine.options.malice, 40);
}

#[test]
fn quit_ends_the_loop() {
    let mut harness = Harness::new();
    assert_eq!(harness.server.handle("quit").flow, Flow::Quit);
}

#[test]
fn the_command_loop_reads_a_whole_session() {
    let script = "uci\nisready\nposition startpos moves d2d4\ngo depth 2\nquit\n";
    let text = Harness::new().play(script);
    assert!(text.contains("uciok"));
    assert!(text.contains("readyok"));
    assert!(text.contains("bestmove "));

    let replies = run(&lines(script));
    assert_eq!(replies.len(), 5);
    assert!(matches!(replies[3].action, Action::Search(_)));
    assert_eq!(replies[4].flow, Flow::Quit);
}

#[test]
fn a_uci_session_runs_end_to_end() {
    let script = "\
uci
isready
ucinewgame
setoption name Opponent Model value Paranoid
setoption name Hash value 4
position startpos moves e2e4 e7e5
go depth 4
d
eval
quit
";
    let replies = run(&lines(script));
    assert_eq!(replies.len(), 10);
    assert!(said(&replies).contains(&"readyok".to_string()));
    let output = Harness::new().play(script);
    for expected in [
        "id name zero-elo",
        "uciok",
        "readyok",
        "bestmove ",
        "sabotage",
    ] {
        assert!(
            output.contains(expected),
            "missing {expected:?} in:\n{output}"
        );
    }

    // The move it settled on has to be legal in the position we set up.
    let mut game =
        Game::from_fen("rnbqkbnr/pppp1ppp/8/4p3/4P3/8/PPPP1PPP/RNBQKBNR w KQkq - 0 3").unwrap();
    let best = output
        .lines()
        .find_map(|line| line.strip_prefix("bestmove "))
        .expect("a bestmove line");
    assert!(game.play_uci(best.trim()).is_ok(), "{best} is not legal");
}

#[test]
fn scores_are_reported_the_way_a_gui_expects() {
    let mut engine = Engine::new();
    engine.factor = 100;
    // Badness of +900 means the engine is a queen down.
    assert_eq!(engine.score_for_gui(900), Score::Centipawns(-900));
    // Getting mated in two plies is mate in one, against us.
    assert_eq!(
        engine.score_for_gui(zero_elo::search::MATE - 2),
        Score::Mate(-1)
    );
    // Delivering mate in one ply is a disaster reported as a win.
    assert_eq!(
        engine.score_for_gui(-(zero_elo::search::MATE - 1)),
        Score::Mate(1)
    );
    assert_eq!(Score::Mate(-3).to_text(), "mate -3");
    assert_eq!(Score::Centipawns(-42).to_text(), "cp -42");
}

#[test]
fn a_report_is_word_for_word() {
    let pawn = Move::Normal {
        role: Role::Pawn,
        from: 12,
        capture: None,
        to: 28,
        promotion: None,
    };
    let mut info = SearchInfo {
        depth: 3,
        seldepth: 7,
        score: Score::Centipawns(-836),
        sabotage: 836,
        nodes: 3010,
        elapsed: zero_elo::clock::Duration::from_millis(1500),
        pv: vec![pawn, Move::Castle { king: 60, rook: 56 }],
    };
    assert_eq!(
        format_info(&info, false),
        "info depth 3 seldepth 7 score cp -836 nodes 3010 nps 2006 time 1500 pv e2e4 e8c8"
    );
    info.pv.clear();
    info.elapsed = zero_elo::clock::Duration::from_millis(0);
    assert_eq!(
        format_info(&info, true),
        "info depth 3 seldepth 7 score cp -836 nodes 3010 nps 0 time 0\ninfo string sabotage 836"
    );
    assert_eq!(format_answer(Some(pawn)), "bestmove e2e4");
    assert_eq!(format_answer(None), "bestmove 0000");
}

#[test]
fn debug_adds_the_engines_own_view() {
    let mut harness = Harness::new();
    assert!(!harness.search("go depth 1").contains("sabotage"));
    harness.send("joho debug on");
    assert!(harness.search("go depth 1").contains("info string sabotage"));
    harness.send("debug off");
    assert!(!harness.search("go depth 1").contains("sabotage"));
}

#[test]
fn a_go_is_read_word_by_word() {
    let server = Server::new();
    let limits = server.parse_go(&words(
        "wtime 60000 btime 50000 winc 1000 binc 0 movestogo 12 nodes 77 depth 9",
    ));
    assert_eq!(limits.white_time.map(|time| time.as_millis()), Some(60_000));
    assert_eq!(limits.black_time.map(|time| time.as_millis()), Some(50_000));
    assert_eq!(
        limits.white_increment.map(|time| time.as_millis()),
        Some(1000)
    );
    assert_eq!(limits.black_increment.map(|time| time.as_millis()), Some(0));
    assert_eq!(limits.moves_to_go, Some(12));
    assert_eq!(limits.nodes, Some(77));
    assert_eq!(limits.depth, Some(9));
    assert_eq!(limits.move_overhead.as_millis(), 30);
    assert_eq!(limits.movetime, None);
    assert!(!limits.infinite);

    assert!(server.parse_go(&Vec::new()).infinite);
    assert!(server.parse_go(&words("depth many")).infinite);
    let timed = server.parse_go(&words("depth 5"));
    assert_eq!(timed.movetime.map(|time| time.as_millis()), Some(5000));
    assert!(timed.search_moves.is_empty());
    let wanted = server.parse_go(&words("searchmoves e2e4 e2e5 depth 5"));
    assert_eq!(wanted.search_moves.len(), 1);
    assert_eq!(wanted.depth, Some(5));
}

#[test]
fn a_session_is_a_list_of_replies() {
    let script = lines("isready\njoho\nperft 1\nquit\nisready");
    let replies = run_with(&script, Options::default());
    assert_eq!(said(&replies), ["readyok", "nodes 20"]);
    assert_eq!(replies.len(), 4, "nothing is answered after quit");
}

#[test]
fn a_transcript_records_both_sides() {
    let script = lines("isready\nquit");
    let (_, nothing) = run_logged(&script, Options::default(), Transcript::off());
    assert!(nothing.is_empty());
    let (replies, entries) = run_logged(&script, Options::default(), Transcript::on());
    assert_eq!(replies.len(), 2);
    assert_eq!(entries.len(), 3);
    assert!(entries[0].ends_with("] > isready"));
    assert!(entries[1].ends_with("] < readyok"));
    assert!(entries[2].ends_with("] > quit"));

    let later = zero_elo::clock::Duration::from_millis(12_034);
    assert_eq!(
        Transcript::on().record('>', "go", later),
        Some("[  12.034] > go".to_string())
    );
    assert_eq!(Transcript::default().record('>', "go", later), None);
}

#[test]
fn every_line_of_a_transcript_is_stamped() {
    let later = zero_elo::clock::Duration::from_millis(1_500);
    assert_eq!(
        Transcript::on().record('<', "info depth 1\ninfo string sabotage 25", later),
        Some("[   1.500] < info depth 1\n[   1.500] < info string sabotage 25".to_string())
    );
}

#[test]
fn a_finished_search_limits_itself_to_legal_moves() {
    let mut engine = Engine::new();
    let game = Game::new();
    let mut limits = Limits::depth(1);
    limits.search_moves.push(Move::Castle { king: 4, rook: 7 });
    assert_eq!(
        engine.best_move(&game, &limits),
        None,
        "castling is not legal at the start, and nothing else was asked for"
    );
}

#[test]
fn any_number_of_unknown_words_is_skipped() {
    let mut harness = Harness::new();
    assert_eq!(harness.send("joho what  is\tthis isready").trim(), "readyok");
    assert_eq!(harness.send("joho what is this"), "");
    assert_eq!(harness.send("isready joho").trim(), "readyok");
}

#[test]
fn a_resized_table_leaves_the_rest_alone() {
    let mut harness = Harness::new();
    harness.search("go depth 2");
    let factor = harness.engine.factor;
    let victim = harness.engine.victim;
    harness.send("setoption name Hash value 2");
    assert_eq!(harness.engine.options.hash_mb, 2);
    assert_eq!(harness.engine.factor, factor);
    assert_eq!(harness.engine.victim, victim);
}
