use zero_elo::bits::contains;
use zero_elo::chess::{Color, Position};
use zero_elo::eval::{
    attack_map, can_ever_mate, can_force_mate, evaluate, evaluate_with, king_danger, Weights,
};
use zero_elo::Game;

fn position(fen: &str) -> Position {
    *Game::from_fen(fen)
        .unwrap_or_else(|e| panic!("{fen}: {}", e.message()))
        .position()
}

#[test]
fn being_down_material_is_the_point() {
    let even = position("4k3/8/8/8/8/8/8/4K2R w - - 0 1");
    let down_a_rook = position("4k2r/8/8/8/8/8/8/4K3 w - - 0 1");
    let weights = Weights::material_only();
    assert_eq!(evaluate_with(&even, Color::White, &weights), -500);
    assert_eq!(evaluate_with(&down_a_rook, Color::White, &weights), 500);
    // And it is symmetric: what is good for one victim is bad for the other.
    assert_eq!(
        evaluate_with(&even, Color::White, &weights),
        -evaluate_with(&even, Color::Black, &weights)
    );
}

#[test]
fn a_hanging_queen_scores_better_than_a_safe_one() {
    // White queen on d5 is attacked by the black king's neighbour... use a
    // clearer setup: black rook on d8 eyes the white queen on d5.
    let hanging = position("3rk3/8/8/3Q4/8/8/8/4K3 b - - 0 1");
    let safe = position("3rk3/8/8/4Q3/8/8/8/4K3 b - - 0 1");
    let weights = Weights {
        material: 100,
        hanging: 45,
        attacked: 12,
        ..Weights::zeroed()
    };
    assert!(
        evaluate_with(&hanging, Color::White, &weights)
            > evaluate_with(&safe, Color::White, &weights),
        "leaving the queen en prise should look more promising"
    );
}

#[test]
fn trading_down_to_a_dead_draw_is_punished() {
    // White has given away everything, but so has black: a lone king cannot
    // mate, so there is no defeat left to be had here.
    let dead = position("4k3/8/8/8/8/8/8/4K3 w - - 0 1");
    // Black still has the queen it needs to finish white off.
    let losable = position("3qk3/8/8/8/8/8/8/4K3 w - - 0 1");
    let weights = Weights::default();
    assert!(
        evaluate_with(&dead, Color::White, &weights)
            < evaluate_with(&losable, Color::White, &weights),
        "giving away the opponent's mating material is worse than keeping it"
    );
}

#[test]
fn winning_is_the_worst_outcome_of_all() {
    // Up a queen against a bare king: nobody can mate white, so the best
    // white can hope for is a draw. That must score below being mated.
    let winning = position("4k3/8/8/8/8/8/8/3QK3 w - - 0 1");
    let losing = position("3qk3/8/8/8/8/8/8/4K3 w - - 0 1");
    let weights = Weights::default();
    assert!(
        evaluate_with(&winning, Color::White, &weights)
            < evaluate_with(&losing, Color::White, &weights)
    );
}

#[test]
fn an_exposed_king_is_an_opportunity() {
    // Black keeps a rook in both, since a king is only in danger from an
    // opponent who has something to threaten it with.
    let castled = position("3rk3/8/8/8/8/8/5PPP/6KR w - - 0 1");
    let wandering = position("3rk3/8/8/4K3/8/8/5PPP/7R w - - 0 1");
    let weights = Weights {
        king_ring_attack: 14,
        king_shelter: 25,
        king_advance: 22,
        king_centre: 14,
        ..Weights::zeroed()
    };
    assert!(
        evaluate_with(&wandering, Color::White, &weights)
            > evaluate_with(&castled, Color::White, &weights),
        "a king in the middle of the board is easier to catch"
    );
}

#[test]
fn a_bare_king_wants_to_be_in_the_corner() {
    // Once there is nothing left to defend with, mate happens at the edge
    // of the board, so that is where the victim's king should be heading.
    // This is the opposite of the middlegame instinct above, which is why
    // the two are separate terms.
    let centre = position("8/8/8/4k3/8/8/8/3QK3 w - - 0 1");
    let corner = position("k7/8/8/8/8/8/8/3QK3 w - - 0 1");
    let weights = Weights::default();
    assert!(
        evaluate_with(&corner, Color::Black, &weights)
            > evaluate_with(&centre, Color::Black, &weights),
        "a cornered bare king is closer to being mated"
    );

    // And the mating king should be walking towards it.
    let far = position("k7/8/8/8/8/8/8/3QK3 w - - 0 1");
    let close = position("k7/8/1K6/8/8/8/8/3Q4 w - - 0 1");
    assert!(
        evaluate_with(&close, Color::Black, &weights) > evaluate_with(&far, Color::Black, &weights),
        "the other king coming up is what actually finishes the game"
    );
}

#[test]
fn the_evaluation_is_antisymmetric() {
    // Swapping which player is trying to lose must flip the score, or the
    // malice setting could not turn this into an ordinary engine by
    // negating it. The draw-related terms are deliberately exempt, so this
    // uses a position where neither side is anywhere near a draw.
    for fen in [
        "3q1rk1/pp3ppp/8/8/8/6P1/PP3P1P/3Q1RK1 w - - 0 1",
        "r1bqkbnr/pppp1ppp/2n5/4p3/2B1P3/5Q2/PPPP1PPP/RNB1K1NR w KQkq - 4 4",
        "2r3k1/5ppp/8/3n4/8/2Q5/5PPP/6K1 b - - 0 1",
    ] {
        let position = position(fen);
        let weights = Weights::default();
        let white = evaluate_with(&position, Color::White, &weights);
        let black = evaluate_with(&position, Color::Black, &weights);
        assert_eq!(white, -black, "{fen} scored {white} and {black}");
    }
}

#[test]
fn mating_material_is_measured_honestly() {
    let two_knights = position("4k3/8/8/8/8/8/8/1NNK4 w - - 0 1");
    assert!(!can_force_mate(&two_knights.board, Color::White));
    assert!(
        can_ever_mate(&two_knights.board, Color::White),
        "two knights cannot force mate but can still deliver one"
    );

    let lone_bishop = position("4k3/8/8/8/8/8/8/2BK4 w - - 0 1");
    assert!(!can_force_mate(&lone_bishop.board, Color::White));
    assert!(!can_ever_mate(&lone_bishop.board, Color::White));

    let bishop_and_knight = position("4k3/8/8/8/8/8/8/1NBK4 w - - 0 1");
    assert!(can_force_mate(&bishop_and_knight.board, Color::White));
}

#[test]
fn attack_maps_cover_what_you_expect() {
    let start = Position::start();
    let white = attack_map(&start.board, Color::White, start.board.occupied());
    assert!(contains(white, 20), "pawn covers e3");
    assert!(contains(white, 16), "knight covers a3");
    assert!(!contains(white, 28), "a pawn push is not an attack");
}

#[test]
fn the_starting_position_is_level() {
    assert_eq!(evaluate(&Position::start(), Color::White), 0);
    assert_eq!(evaluate(&Position::start(), Color::Black), 0);
}

#[test]
fn pawns_about_to_promote_count_for_both_players() {
    // A white pawn on the seventh: a risk to white, a weapon against black.
    let far = position("4k2r/P7/8/8/8/8/8/4K2R w - - 0 1");
    let weights = Weights {
        promotion_risk: 40,
        enemy_promotion: 25,
        ..Weights::zeroed()
    };
    assert_eq!(evaluate_with(&far, Color::White, &weights), -65);
    assert_eq!(evaluate_with(&far, Color::Black, &weights), 65);
    let weights = Weights::default();
    assert_eq!(
        evaluate_with(&far, Color::White, &weights),
        -evaluate_with(&far, Color::Black, &weights)
    );
}

#[test]
fn a_check_adds_its_weight() {
    let exposed = position("4k3/8/8/8/8/8/8/r3K3 w - - 0 1");
    let weights = Weights::default();
    let danger = |attacks, check| king_danger(&exposed.board, Color::White, attacks, check, &weights);
    for attacks in [0, 0xff, u64::MAX] {
        assert_eq!(danger(attacks, true) - danger(attacks, false), 35);
    }
    // White has only a king, and no king is in danger from that.
    assert_eq!(
        king_danger(&exposed.board, Color::Black, u64::MAX, true, &weights),
        0
    );
}

#[test]
fn weights_know_how_far_they_reach() {
    assert!(Weights::default().are_bounded());
    assert!(Weights::material_only().are_within(137_600));
    assert!(!Weights::material_only().are_within(137_599));
    assert!(!Weights {
        material: 100_000_000,
        ..Weights::zeroed()
    }
    .are_bounded());
}
