use std::sync::atomic::AtomicBool;
use std::sync::Arc;

use zero_elo::chess::{Color, Move, Position, Role};
use zero_elo::clock::Duration;
use zero_elo::game::repeats;
use zero_elo::search::ordering::{least, rank, select, RootMove};
use zero_elo::search::root::SearchInfo;
use zero_elo::search::score::{
    checkmate_score, discount_a_declinable_chance, draw_score, from_table, leaf_score, orient,
    score_for_gui, to_table,
};
use zero_elo::search::table::{table_slots, Bound, Table};
use zero_elo::search::{MATE, MATE_IN_MAX_PLY};
use zero_elo::{eval, Engine, Game, Limits, Options, Score};

fn quiet(from: u8, to: u8) -> Move {
    Move::Normal {
        role: Role::Knight,
        from,
        capture: None,
        to,
        promotion: None,
    }
}

fn search(engine: &mut Engine, game: &Game, limits: &Limits) -> (Option<Move>, Vec<SearchInfo>) {
    let mut reports = Vec::new();
    let stop = Arc::new(AtomicBool::new(false));
    let result = engine.search(game, limits, stop, &mut reports);
    (result.best_move, reports)
}

#[test]
fn only_the_reversible_past_matters() {
    assert_eq!(repeats(&[9, 5, 1, 2, 5], 2), repeats(&[5, 5, 1, 2, 5], 2));
    assert!(!repeats(&[5, 5, 1, 2, 5], 2));
    assert!(repeats(&[5, 5, 1, 2, 5], 4));
}

#[test]
fn a_budget_leaves_time_on_the_clock() {
    let mut limits = Limits {
        black_time: Some(Duration::from_secs(1)),
        black_increment: Some(Duration::from_secs(60)),
        move_overhead: Duration::from_millis(30),
        ..Limits::default()
    };
    let budget = limits.budget(Color::Black).unwrap();
    assert_eq!(budget.as_millis(), 370, "two fifths, less the overhead");
    assert_eq!(limits.budget(Color::White), None);
    limits.black_time = Some(Duration::from_millis(10));
    assert_eq!(
        limits.budget(Color::Black),
        Some(Duration::from_millis(1)),
        "never nothing"
    );
    limits.moves_to_go = Some(0);
    limits.black_time = Some(Duration::from_secs(100));
    limits.black_increment = None;
    assert_eq!(limits.budget(Color::Black).unwrap().as_millis(), 39_970);
    limits.movetime = Some(Duration::from_millis(7));
    assert_eq!(
        limits.budget(Color::Black),
        Some(Duration::from_millis(7)),
        "a fixed time is spent exactly"
    );
}

#[test]
fn limits_know_what_bounds_them() {
    assert!(Limits::depth(3).is_depth_only());
    assert!(!Limits::depth(3).is_unbounded());
    assert!(!Limits::nodes(3).is_depth_only());
    assert!(Limits::default().is_unbounded());
    assert!(!Limits::movetime(Duration::from_secs(1)).is_unbounded());
    let endless = Limits {
        infinite: true,
        ..Limits::default()
    };
    assert!(!endless.is_unbounded() && !endless.is_depth_only());
}

#[test]
fn orienting_twice_changes_nothing() {
    for factor in [-100, -1, 0, 1, 100] {
        for score in [-500, 0, 37] {
            assert_eq!(orient(factor, orient(factor, score)), score);
        }
    }
    assert_eq!(orient(-20, 37), -37);
    assert_eq!(orient(0, 37), 37);
}

#[test]
fn malice_turns_everything_round() {
    let position = *Game::from_fen("3qk3/8/8/8/8/8/8/4K3 w - - 0 1")
        .unwrap()
        .position();
    let options = Options::default();
    let badness = eval::evaluate(&position, Color::White);
    assert!(badness > 0);
    let leaf = |factor| leaf_score(factor, Color::White, &options, &position);
    assert_eq!(leaf(100), badness);
    assert_eq!(leaf(-100), -badness);
    assert_eq!(leaf(0), 0);
    assert_eq!(leaf(50), badness / 2);
    let mated = |factor| checkmate_score(factor, Color::White, Color::White, 4);
    assert_eq!(mated(100), MATE - 4);
    assert_eq!(mated(-60), 4 - MATE);
    assert_eq!(draw_score(100, &options), -60);
    assert_eq!(draw_score(-2, &options), 60);
}

#[test]
fn half_way_the_engine_does_not_care() {
    let options = Options {
        malice: 50,
        ..Options::default()
    };
    assert_eq!(options.factor(), 0);
    for mated in [Color::White, Color::Black] {
        assert_eq!(checkmate_score(0, Color::White, mated, 3), 0);
    }
    assert_eq!(draw_score(0, &options), 0);
    // One move mates, the others do not: it is all the same.
    let game = Game::from_fen("6k1/5ppp/8/8/8/8/5PPP/4Q1K1 w - - 0 1").unwrap();
    let mut engine = Engine::with_options(options);
    let (_, reports) = search(&mut engine, &game, &Limits::depth(3));
    for info in reports {
        assert_eq!(info.score, Score::Centipawns(0));
    }
}

#[test]
fn malice_is_clamped() {
    let with = |malice| Options {
        malice,
        ..Options::default()
    };
    assert_eq!(with(100).factor(), 100);
    assert_eq!(with(1000).factor(), 100);
    assert_eq!(with(0).factor(), -100);
    assert_eq!(with(-7).factor(), -100);
    assert_eq!(with(40).factor(), -20);
}

#[test]
fn options_know_their_range() {
    assert!(Options::default().is_in_range());
    let steep = Options {
        draw_penalty: i32::MAX,
        ..Options::default()
    };
    assert!(!steep.is_in_range());
}

#[test]
fn credit_for_a_chance_is_bounded() {
    assert_eq!(discount_a_declinable_chance(1000, 100, 0), 100);
    assert_eq!(discount_a_declinable_chance(1000, 100, -5), 100);
    assert_eq!(discount_a_declinable_chance(1000, 100, 250), 350);
    assert_eq!(discount_a_declinable_chance(50, 100, 250), 100);
    assert_eq!(
        discount_a_declinable_chance(MATE - 1, MATE_IN_MAX_PLY - 2, 250),
        MATE_IN_MAX_PLY - 1,
        "short of a mate"
    );
    assert!(
        discount_a_declinable_chance(9000, 100, 500) < discount_a_declinable_chance(9000, 101, 500)
    );
}

#[test]
fn the_table_keeps_mates_relative_to_the_position() {
    for ply in [0, 1, 17, 62] {
        for score in [MATE - 20, -(MATE - 20), 0, 700, -700] {
            assert_eq!(from_table(to_table(score, ply), ply), score);
        }
    }
    assert_eq!(from_table(to_table(MATE - 20, 5), 3), MATE - 18);
    assert_eq!(from_table(to_table(20 - MATE, 5), 3), 18 - MATE);
    assert_eq!(from_table(to_table(700, 5), 3), 700);
}

#[test]
fn mates_are_shown_in_moves() {
    assert_eq!(score_for_gui(100, MATE - 1), Score::Mate(-1));
    assert_eq!(score_for_gui(100, MATE - 4), Score::Mate(-2));
    assert_eq!(score_for_gui(100, 3 - MATE), Score::Mate(2));
    assert_eq!(score_for_gui(-100, MATE - 3), Score::Mate(2));
    assert_eq!(score_for_gui(-100, 250), Score::Centipawns(250));
}

#[test]
fn what_was_stored_is_found() {
    let m = quiet(1, 18);
    let mut table = Table::with_slots(4);
    assert!(table.probe(9).is_none(), "an empty table knows nothing");
    assert!(table.probe(0).is_none());
    table.store(9, Some(m), 33, 4, Bound::Exact);
    let found = table.probe(9).unwrap();
    assert_eq!((found.best, found.score, found.depth), (Some(m), 33, 4));
    assert!(table.probe(5).is_none(), "the same slot, another position");

    // A shallower result does not replace a deeper exact one.
    table.store(9, None, 44, 3, Bound::Exact);
    assert_eq!(table.probe(9).unwrap().score, 33);
    // A deeper one does, and so does another position.
    table.store(9, None, 55, 4, Bound::Lower);
    assert_eq!(table.probe(9).unwrap().score, 55);
    table.store(9, None, 66, 1, Bound::Upper);
    assert_eq!(table.probe(9).unwrap().score, 66);
    table.store(13, None, 77, 0, Bound::Upper);
    assert!(table.probe(9).is_none());
    table.clear();
    assert!(table.probe(13).is_none());
}

#[test]
fn a_table_is_as_large_as_a_power_of_two_allows() {
    assert_eq!(table_slots(1, 24), 32_768);
    assert_eq!(table_slots(1, 1), 1_048_576);
    assert_eq!(table_slots(3, 1), 2_097_152);
    assert_eq!(table_slots(0, 24), 1);
    assert_eq!(table_slots(1, 2_000_000), 1);
}

#[test]
fn the_most_attractive_come_first() {
    let mut moves: Vec<Move> = (0..5).map(|i| quiet(i, 40 + i)).collect();
    let mut keys = vec![3, 9, 9, -4, 5];
    select(&mut moves, &mut keys, 0);
    assert_eq!(moves[0], quiet(1, 41), "the first of the two best");
    assert_eq!(moves[1], quiet(0, 40), "in exchange for what stood there");
    select(&mut moves, &mut keys, 1);
    assert_eq!(keys, [9, 9, 3, -4, 5]);
    assert_eq!(least(&keys, 2), 3);
    assert_eq!(least(&vec![1, 0, 0], 0), 1, "the first of the two worst");
}

#[test]
fn ranking_puts_the_best_first() {
    let scores = [5, 7, 5, 9, 7];
    let roots: Vec<RootMove> = scores
        .iter()
        .enumerate()
        .map(|(i, score)| RootMove {
            m: quiet(i as u8, 40),
            score: *score,
        })
        .collect();
    let order: Vec<Option<u8>> = rank(&roots).iter().map(|root| root.m.from()).collect();
    assert_eq!(order, [Some(3), Some(1), Some(4), Some(0), Some(2)]);
}

#[test]
fn only_the_table_outlives_a_search() {
    let game = Game::new();
    let mut fresh = Engine::new();
    let (best, reports) = search(&mut fresh, &game, &Limits::depth(3));
    let mut used = Engine::new();
    let other = Game::from_fen("r3k2r/8/8/8/8/8/PPPP4/4K3 w kq - 12 40").unwrap();
    search(&mut used, &other, &Limits::depth(4));
    used.clear();
    let (again, more) = search(&mut used, &game, &Limits::depth(3));
    assert_eq!(best, again);
    // The last report carries the result, and the nodes only grow.
    let last = reports.last().unwrap();
    assert_eq!(last.pv.first().copied(), best);
    assert!(last.pv.len() <= last.depth as usize);
    assert!(reports.windows(2).all(|pair| pair[0].nodes <= pair[1].nodes));
    let nodes = |reports: &[SearchInfo]| reports.iter().map(|r| r.nodes).collect::<Vec<_>>();
    assert_eq!(nodes(&reports), nodes(&more));
}

#[test]
fn the_opening_search_is_what_it_has_always_been() {
    let (_, reports) = search(&mut Engine::new(), &Game::new(), &Limits::depth(4));
    let told: Vec<(u32, Score, u64, String)> = reports
        .iter()
        .map(|r| {
            let line: Vec<String> = r.pv.iter().map(|m| m.to_uci()).collect();
            (r.depth, r.score, r.nodes, line.join(" "))
        })
        .collect();
    assert_eq!(
        told,
        [
            (1, Score::Centipawns(-25), 40, "f2f3".to_string()),
            (2, Score::Centipawns(-25), 274, "f2f3 a7a6".to_string()),
            (3, Score::Centipawns(-836), 3010, "e2e3 d7d6 d1g4".to_string()),
            (
                4,
                Score::Centipawns(-836),
                16986,
                "e2e3 d7d6 d1g4 c8g4".to_string()
            ),
        ]
    );
}

#[test]
fn there_is_one_report_for_each_depth() {
    let game = Game::new();
    let (_, reports) = search(&mut Engine::new(), &game, &Limits::depth(3));
    let depths: Vec<u32> = reports.iter().map(|info| info.depth).collect();
    assert_eq!(depths, [1, 2, 3]);
    let (_, reports) = search(&mut Engine::new(), &game, &Limits::depth(0));
    assert_eq!(reports.len(), 1, "at least one ply");
    for info in &reports {
        assert!(info.seldepth >= info.depth);
        // The line can be played.
        let mut line = Game::new();
        for m in &info.pv {
            assert!(line.try_play(*m));
        }
    }
}

#[test]
fn the_node_limit_is_kept_once_the_search_may_stop() {
    let mut engine = Engine::new();
    let mut reports = Vec::new();
    let stop = Arc::new(AtomicBool::new(false));
    let result = engine.search(&Game::new(), &Limits::nodes(100), stop, &mut reports);
    assert_eq!(result.nodes, 100);
    assert_eq!(result.depth, 1);
    assert!(result.best_move.is_some());
    // A limit of nothing still lets the first root move be searched.
    let stop = Arc::new(AtomicBool::new(false));
    let result = engine.search(&Game::new(), &Limits::nodes(0), stop, &mut Vec::new());
    assert!(result.nodes > 0 && result.depth == 0);
    assert!(result.best_move.is_some());
}

#[test]
fn a_forced_result_ends_the_search() {
    let game = Game::from_fen("r5k1/8/8/8/8/8/5PPP/6K1 w - - 0 1").unwrap();
    let mut engine = Engine::with_options(Options {
        malice: 0,
        ..Options::default()
    });
    let mate = Game::from_fen("6k1/5ppp/8/8/8/8/5PPP/4Q1K1 w - - 0 1").unwrap();
    let (best, reports) = search(&mut engine, &mate, &Limits::depth(30));
    assert_eq!(best.map(|m| m.to_uci()), Some("e1e8".to_string()));
    assert_eq!(reports.last().unwrap().score, Score::Mate(1));
    assert!(reports.len() < 30);
    assert!(!game.position().is_checkmate());
}

#[test]
fn every_move_that_is_written_is_understood() {
    for fen in [
        "rnbqkbnr/pppppppp/8/8/8/8/PPPPPPPP/RNBQKBNR w KQkq - 0 1",
        "r3k2r/p1ppqpb1/bn2pnp1/3PN3/1p2P3/2N2Q1p/PPPBBPPP/R3K2R w KQkq - 0 1",
        "3qk3/4P3/8/8/8/8/8/4K3 w - - 0 1",
        "rnbqkbnr/ppp1p1pp/8/3pPp2/8/8/PPPP1PPP/RNBQKBNR w KQkq f6 0 3",
    ] {
        let game = Game::from_fen(fen).unwrap();
        for m in game.position().legal_moves() {
            assert_eq!(game.clone().play_uci(&m.to_uci()), Ok(m), "{fen}");
        }
    }
}

#[test]
fn a_settings_change_reaches_the_next_search() {
    let mut engine = Engine::new();
    let options = Options {
        hash_mb: 1,
        opponent_moves: 1,
        own_moves: 1,
        ..Options::default()
    };
    engine.configure(options);
    engine.resize_table();
    let (_, reports) = search(&mut engine, &Game::new(), &Limits::depth(3));
    assert!(reports.last().unwrap().nodes < 3010, "a narrower search");
}

#[test]
fn a_position_knows_its_hanging_pieces() {
    // The same position with the knight defended and not.
    let hanging = *Game::from_fen("4k3/8/8/3n4/8/8/3R4/4K3 b - - 0 1")
        .unwrap()
        .position();
    let defended = *Game::from_fen("4k3/8/4p3/3n4/8/8/3R4/4K3 b - - 0 1")
        .unwrap()
        .position();
    let weights = eval::Weights {
        hanging: 50,
        attacked: 10,
        ..eval::Weights::zeroed()
    };
    let score = |p: &Position| eval::evaluate_with(p, Color::Black, &weights);
    assert_eq!(score(&hanging), 160);
    assert_eq!(score(&defended), 32);
}

#[test]
fn a_finished_game_is_worth_its_result() {
    let game = Game::from_fen("7k/8/6K1/8/8/8/8/5Q2 w - - 0 1").unwrap();
    let only = |text: &str| {
        let mut limits = Limits::depth(1);
        limits.search_moves.push(game.clone().play_uci(text).unwrap());
        let stop = Arc::new(AtomicBool::new(false));
        Engine::new().search(&game, &limits, stop, &mut Vec::new())
    };
    let stalemate = only("f1f7");
    assert_eq!(stalemate.sabotage, -60);
    assert_eq!(stalemate.score, Score::Centipawns(60));
    let mate = only("f1f8");
    assert_eq!(mate.sabotage, 1 - MATE);
    assert_eq!(mate.score, Score::Mate(1));
}

#[test]
fn nobody_has_to_trade() {
    let game = Game::from_fen("4k3/8/3p4/4p3/8/4N3/8/4K3 w - - 0 1").unwrap();
    let mut limits = Limits::depth(1);
    let m = game.clone().play_uci("e3d5").unwrap();
    limits.search_moves.push(m);
    let stop = Arc::new(AtomicBool::new(false));
    let result = Engine::new().search(&game, &limits, stop, &mut Vec::new());
    let mut after = game.clone();
    after.play(m);
    assert!(result.sabotage >= eval::evaluate(after.position(), Color::White));
}

#[test]
fn nobody_interrupts_a_search_without_a_flag() {
    let game = Game::new();
    let limits = Limits::depth(3);
    let mut alone = Engine::new();
    let mut flagged = Engine::new();
    assert_eq!(
        alone.best_move(&game, &limits),
        search(&mut flagged, &game, &limits).0
    );
}

#[test]
fn times_are_read_from_the_clock() {
    let game = Game::new();
    let mut engine = Engine::new();
    let mut reports = Vec::new();
    let stop = Arc::new(AtomicBool::new(false));
    let limits = Limits::movetime(Duration::from_millis(50));
    let started = std::time::Instant::now();
    let result = engine.search(&game, &limits, stop, &mut reports);
    let most = started.elapsed().as_nanos();
    assert!(result.elapsed.as_millis() >= 50);
    assert!(result.elapsed.as_nanos() <= most);
    for pair in reports.windows(2) {
        assert!(pair[0].elapsed.as_nanos() <= pair[1].elapsed.as_nanos());
    }
    assert!(reports.last().unwrap().elapsed.as_nanos() <= result.elapsed.as_nanos());
}

#[test]
fn limits_can_be_compared() {
    assert_eq!(Limits::depth(3), Limits::depth(3));
    assert_ne!(Limits::depth(3), Limits::depth(4));
    assert_ne!(Limits::depth(3), Limits::nodes(3));
}
