use std::sync::atomic::AtomicBool;
use std::sync::Arc;

use zero_elo::chess::Color;
use zero_elo::clock::Duration;
use zero_elo::search::{MATE, MATE_IN_MAX_PLY};
use zero_elo::{Engine, Game, Limits, OpponentModel, Options, Score};

fn engine() -> Engine {
    let mut engine = Engine::new();
    engine.options.hash_mb = 1;
    engine.resize_table();
    engine
}

fn game(fen: &str) -> Game {
    Game::from_fen(fen).unwrap_or_else(|e| panic!("{fen}: {}", e.message()))
}

fn best(engine: &mut Engine, game: &Game, depth: u32) -> String {
    let m = engine
        .best_move(game, &Limits::depth(depth))
        .expect("a legal move");
    m.to_uci()
}

#[test]
fn it_walks_into_mate_in_one() {
    // Black threatens Ra1#, but only while white's king stays boxed in by
    // its own pawns. Kh1 keeps the box shut; every pawn move opens an
    // escape square and every other king move walks out of the net.
    let position = game("r5k1/8/8/8/8/8/5PPP/6K1 w - - 0 1");
    let mut engine = engine();
    assert_eq!(
        best(&mut engine, &position, 3),
        "g1h1",
        "the only move that preserves the mate must be the chosen one"
    );
}

#[test]
fn it_refuses_to_deliver_mate() {
    // Qe8 is mate on the back rank. Anything else keeps the game, and the
    // chance of losing it, alive.
    let position = game("6k1/5ppp/8/8/8/8/5PPP/4Q1K1 w - - 0 1");
    let mut engine = engine();
    let chosen = best(&mut engine, &position, 4);
    assert_ne!(chosen, "e1e8", "mating the opponent is the worst outcome");
}

#[test]
fn it_declines_a_free_queen() {
    // Rxd8 wins the black queen for nothing. Taking it would be doubly
    // wrong: material the engine does not want, and the removal of the one
    // piece black has to mate it with.
    let position = game("3q2k1/8/8/8/8/6P1/7P/3R2K1 w - - 0 1");
    let mut engine = engine();
    assert_ne!(
        best(&mut engine, &position, 4),
        "d1d8",
        "a free queen is a trap"
    );
}

#[test]
fn it_will_not_capture_its_way_into_a_dead_draw() {
    // Black's king can take the undefended queen, leaving king against
    // king. That is a draw, and a draw is half a point too many; better to
    // leave the queen alive and be mated by it.
    let position = game("8/8/8/6k1/7Q/8/8/4K3 b - - 0 1");
    let mut engine = engine();
    assert_ne!(
        best(&mut engine, &position, 4),
        "g5h4",
        "taking the last mating piece off the board ends the game as a draw"
    );
}

#[test]
fn the_value_system_ranks_defeat_above_a_draw_above_victory() {
    let engine = engine();
    let victim = engine.victim;
    let mated = engine.checkmate_score(victim, 4);
    let mating = engine.checkmate_score(victim.other(), 4);
    let draw = engine.draw_score();
    let losing_badly = 500;
    let winning_badly = -500;

    assert!(
        mated > losing_badly,
        "being mated is the best result of all"
    );
    assert!(losing_badly > draw, "a game still being lost beats a draw");
    assert!(draw > winning_badly, "a draw beats being ahead");
    assert!(
        winning_badly > mating,
        "delivering mate is the worst result"
    );
}

#[test]
fn with_no_malice_it_plays_to_win() {
    // Same mate in one, but now the engine wants it.
    let position = game("6k1/5ppp/8/8/8/8/5PPP/4Q1K1 w - - 0 1");
    let mut engine = engine();
    engine.options.malice = 0;
    engine.options.model = OpponentModel::Paranoid;
    assert_eq!(
        best(&mut engine, &position, 3),
        "e1e8",
        "at zero malice it should be an ordinary, if weak, chess engine"
    );
}

#[test]
fn both_opponent_models_produce_legal_moves() {
    let position = game("r1bqkbnr/pppp1ppp/2n5/4p3/2B1P3/5Q2/PPPP1PPP/RNB1K1NR w KQkq - 4 4");
    for model in [OpponentModel::Optimistic, OpponentModel::Paranoid] {
        let mut engine = engine();
        engine.options.model = model;
        let m = engine
            .best_move(&position, &Limits::depth(4))
            .expect("a legal move");
        assert!(
            position.position().is_legal(m),
            "{} produced the illegal move {m:?}",
            model.name()
        );
    }
}

#[test]
fn a_position_with_no_moves_returns_no_move() {
    let stalemate = game("7k/5Q2/6K1/8/8/8/8/8 b - - 0 1");
    let mut engine = engine();
    let result = engine.search(
        &stalemate,
        &Limits::depth(3),
        Arc::new(AtomicBool::new(false)),
        &mut Vec::new(),
    );
    assert!(result.best_move.is_none());
}

#[test]
fn a_chance_the_opponent_can_decline_is_not_worth_a_mate() {
    let engine = engine();
    let bonus = engine.options.opportunity_bonus;

    // Mate is available but only if the opponent chooses it. The position
    // is worth what happens when they do not, plus a bounded amount of
    // credit for the chance. Crucially it is no longer a mate score, so
    // every other move does not tie with it.
    let hopeful = engine.discount_a_declinable_chance(MATE - 3, 100);
    assert_eq!(hopeful, 100 + bonus);
    assert!(hopeful < MATE_IN_MAX_PLY, "a declinable mate is not a mate");

    // When every reply mates us, it really is mate.
    let forced = engine.discount_a_declinable_chance(MATE - 3, MATE - 5);
    assert_eq!(forced, MATE - 5);
    assert!(forced >= MATE_IN_MAX_PLY);

    // Ordinary upside is credited in full up to the cap, so positions with
    // worse floors still rank above positions with better ones.
    assert_eq!(engine.discount_a_declinable_chance(300, 100), 300);
    assert_eq!(engine.discount_a_declinable_chance(9000, 100), 100 + bonus);
    assert!(
        engine.discount_a_declinable_chance(9000, 100)
            < engine.discount_a_declinable_chance(9000, 400),
        "a worse floor must still win, or the engine stops trying to reach one"
    );

    // Nothing to hope for.
    assert_eq!(engine.discount_a_declinable_chance(-50, -50), -50);
}

#[test]
fn it_does_not_settle_for_a_mate_the_opponent_can_refuse() {
    // After 1.e4 f5 2.Nf3 g5 white *could* play Qh5#. Banking on that used
    // to make every move score the same, and the engine drifted. The score
    // here has to be an evaluation, not a mate.
    let position = game("rnbqkbnr/pppp1p1p/8/5pp1/4P3/5N2/PPPP1PPP/RNBQKB1R b KQkq - 0 3");
    let mut engine = engine();
    let result = engine.search(
        &position,
        &Limits::depth(4),
        Arc::new(AtomicBool::new(false)),
        &mut Vec::new(),
    );
    assert!(
        !matches!(result.score, Score::Mate(_)),
        "a mate white can simply decline was reported as {:?}",
        result.score
    );
    assert!(
        result.sabotage > 500,
        "it should still be busy losing, not idling: {}",
        result.sabotage
    );
}

#[test]
fn a_stop_flag_ends_the_search_promptly() {
    let position = game("rnbqkbnr/pppppppp/8/8/8/8/PPPPPPPP/RNBQKBNR w KQkq - 0 1");
    let mut engine = engine();
    let stop = Arc::new(AtomicBool::new(true));
    let result = engine.search(&position, &Limits::default(), stop, &mut Vec::new());
    assert!(
        result.best_move.is_some(),
        "even an immediate stop must produce a move"
    );
}

#[test]
fn time_is_divided_up_sensibly() {
    let limits = Limits {
        white_time: Some(Duration::from_secs(60)),
        white_increment: Some(Duration::from_secs(1)),
        move_overhead: Duration::from_millis(30),
        ..Limits::default()
    };
    let budget = limits.budget(Color::White).expect("a budget");
    assert!(
        budget.as_millis() >= 2_000 && budget.as_millis() <= 3_500,
        "unexpected budget {budget:?}"
    );

    let fixed = Limits::movetime(Duration::from_millis(500));
    assert_eq!(fixed.budget(Color::Black), Some(Duration::from_millis(500)));

    let endless = Limits {
        infinite: true,
        white_time: Some(Duration::from_secs(1)),
        ..Limits::default()
    };
    assert_eq!(endless.budget(Color::White), None);
}
