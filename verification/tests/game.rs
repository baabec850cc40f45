use zero_elo::chess::{Color, Move, Position, Role};
use zero_elo::game::{diagram, hash_of, repeats};
use zero_elo::position::{perft, Outcome};
use zero_elo::{Game, SetupError};

#[test]
fn a_new_game_starts_at_the_starting_position() {
    let game = Game::new();
    assert_eq!(
        game.fen(),
        "rnbqkbnr/pppppppp/8/8/8/8/PPPPPPPP/RNBQKBNR w KQkq - 0 1"
    );
    assert!(!game.is_repetition());
    assert_eq!(game.keys().len(), 1);
}

#[test]
fn shuffling_knights_back_and_forth_is_a_repetition() {
    let mut game = Game::new();
    for text in ["g1f3", "g8f6", "f3g1", "f6g8"] {
        assert!(!game.is_repetition(), "too early to repeat after {text}");
        game.play_uci(text).unwrap();
    }
    assert!(
        game.is_repetition(),
        "the starting position has come back around"
    );
    assert!(game.is_drawn_by_rule());
}

#[test]
fn an_irreversible_move_wipes_the_slate() {
    let mut game = Game::new();
    for text in ["g1f3", "g8f6", "f3g1", "f6g8"] {
        game.play_uci(text).unwrap();
    }
    assert!(game.is_repetition());
    game.play_uci("e2e4").unwrap();
    assert!(
        !game.is_repetition(),
        "a pawn move resets the halfmove clock, so nothing before it counts"
    );
}

#[test]
fn illegal_moves_are_refused() {
    let mut game = Game::new();
    assert_eq!(game.play_uci("e2e5"), Err(SetupError::IllegalMove));
    assert_eq!(game.play_uci("hello"), Err(SetupError::UnknownMove));
    assert_eq!(game.keys().len(), 1, "nothing was played");
}

#[test]
fn positions_can_be_loaded_from_fen() {
    let game = Game::from_fen("8/8/8/8/8/5k2/6q1/7K w - - 0 1").unwrap();
    assert_eq!(game.position().turn, Color::White);
    assert!(Game::from_fen("not a fen").is_err());
    assert!(
        Game::from_fen("8/8/8/8/8/8/8/8 w - - 0 1").is_err(),
        "a board with no kings is not a chess position"
    );
}

#[test]
fn errors_say_what_is_wrong() {
    let garbled = Game::from_fen("not a fen").unwrap_err();
    assert!(matches!(garbled, SetupError::Fen(_)));
    assert!(garbled.message().starts_with("invalid FEN: "));
    let empty = Game::from_fen("8/8/8/8/8/8/8/8 w - - 0 1").unwrap_err();
    assert!(matches!(empty, SetupError::Illegal(_)));
    assert!(empty.message().starts_with("illegal position: "));
    assert!(empty.message().len() > "illegal position: ".len());
    assert_eq!(SetupError::IllegalMove.message(), "illegal move");
    assert_eq!(SetupError::UnknownMove.message(), "could not parse move");
}

#[test]
fn a_fen_is_given_back() {
    for fen in [
        "r1bqkbnr/pppp1ppp/2n5/4p3/2B1P3/5Q2/PPPP1PPP/RNB1K1NR w KQkq - 4 4",
        "rnbqkbnr/ppp1p1pp/8/3pPp2/8/8/PPPP1PPP/RNBQKBNR w KQkq f6 0 3",
        "4k3/8/8/8/8/8/8/R3K2R b KQ - 12 40",
    ] {
        assert_eq!(Game::from_fen(fen).unwrap().fen(), fen);
    }
}

#[test]
fn en_passant_castling_and_promotion_are_played() {
    let mut game =
        Game::from_fen("rnbqkbnr/ppp1p1pp/8/3pPp2/8/8/PPPP1PPP/RNBQKBNR w KQkq f6 0 3").unwrap();
    assert_eq!(
        game.play_uci("e5f6"),
        Ok(Move::EnPassant { from: 36, to: 45 })
    );
    assert_eq!(
        game.fen(),
        "rnbqkbnr/ppp1p1pp/5P2/3p4/8/8/PPPP1PPP/RNBQKBNR b KQkq - 0 3"
    );

    for text in ["e1g1", "e1h1"] {
        let mut game = Game::from_fen("4k3/8/8/8/8/8/8/4K2R w K - 0 1").unwrap();
        let castled = game.play_uci(text).unwrap();
        assert_eq!(castled, Move::Castle { king: 4, rook: 7 });
        assert_eq!(castled.to_uci(), "e1g1");
        assert_eq!(game.fen(), "4k3/8/8/8/8/8/8/5RK1 b - - 1 1");
    }

    let mut game = Game::from_fen("3qk3/4P3/8/8/8/8/8/4K3 w - - 0 1").unwrap();
    let promoted = game.play_uci("e7d8q").unwrap();
    assert_eq!(promoted.role(), Role::Pawn);
    assert_eq!(promoted.capture(), Some(Role::Queen));
    assert_eq!(promoted.promotion(), Some(Role::Queen));
    assert_eq!(promoted.to_uci(), "e7d8q");
    assert_eq!(game.fen(), "3Qk3/8/8/8/8/8/8/4K3 b - - 0 1");
}

#[test]
fn a_promotion_is_overlooked_behind_a_capture_en_passant() {
    let mut game =
        Game::from_fen("rnbqkbnr/ppp1p1pp/8/3pPp2/8/8/PPPP1PPP/RNBQKBNR w KQkq f6 0 3").unwrap();
    assert_eq!(
        game.play_uci("e5f6q"),
        Ok(Move::EnPassant { from: 36, to: 45 })
    );
    let mut game = Game::new();
    assert_eq!(game.play_uci("e2e4q"), Err(SetupError::IllegalMove));
}

#[test]
fn a_drop_is_no_move_of_standard_chess() {
    let mut game = Game::new();
    assert_eq!(game.play_uci("N@e4"), Err(SetupError::IllegalMove));
    assert_eq!(game.play_uci("0000"), Err(SetupError::IllegalMove));
    assert_eq!(game.play_uci("e2e4x"), Err(SetupError::UnknownMove));
    assert_eq!(game.play_uci("e2e9"), Err(SetupError::UnknownMove));
    assert_eq!(game.play_uci(""), Err(SetupError::UnknownMove));
    assert_eq!(
        Move::Put {
            role: Role::Knight,
            to: 28
        }
        .to_uci(),
        "N@e4"
    );
}

#[test]
fn only_a_legal_move_is_played() {
    let mut game = Game::new();
    let pawn = Move::Normal {
        role: Role::Pawn,
        from: 12,
        capture: None,
        to: 28,
        promotion: None,
    };
    let leap = Move::Normal {
        role: Role::Pawn,
        from: 12,
        capture: None,
        to: 36,
        promotion: None,
    };
    assert!(!game.try_play(leap));
    assert_eq!(game.keys().len(), 1);
    assert!(game.try_play(pawn));
    assert_eq!(game.keys().len(), 2);
    assert_eq!(game.key(), hash_of(game.position()));
    assert_eq!(game.position().turn, Color::Black);
}

#[test]
fn the_hash_ignores_the_clocks() {
    let one = Game::from_fen("4k3/8/8/8/8/8/8/4K2R w K - 0 1").unwrap();
    let two = Game::from_fen("4k3/8/8/8/8/8/8/4K2R w K - 40 90").unwrap();
    let turned = Game::from_fen("4k3/8/8/8/8/8/8/4K2R b K - 0 1").unwrap();
    let stiff = Game::from_fen("4k3/8/8/8/8/8/8/4K2R w - - 0 1").unwrap();
    assert_eq!(one.key(), two.key());
    assert_ne!(one.key(), turned.key());
    assert_ne!(one.key(), stiff.key());
}

#[test]
fn the_fifty_move_rule_draws_the_game() {
    let game = Game::from_fen("4k3/8/8/8/8/8/8/4K2R w - - 100 90").unwrap();
    assert!(game.is_drawn_by_rule());
    assert!(!game.is_repetition());
    let game = Game::from_fen("4k3/8/8/8/8/8/8/4K2R w - - 99 90").unwrap();
    assert!(!game.is_drawn_by_rule());
}

#[test]
fn only_every_other_key_since_the_last_irreversible_move_counts() {
    assert!(!repeats(&[], 10));
    assert!(!repeats(&[7], 10));
    assert!(!repeats(&[7, 7], 10), "the other side was to move");
    assert!(repeats(&[7, 1, 7], 2));
    assert!(!repeats(&[7, 1, 7], 1), "too long ago");
    assert!(repeats(&[7, 1, 2, 3, 7], 4));
    assert!(!repeats(&[7, 1, 2, 3, 7], 3));
}

#[test]
fn dead_material_is_recognised() {
    for (fen, dead) in [
        ("4k3/8/8/8/8/8/8/4K3 w - - 0 1", true),
        ("4k3/8/8/8/8/8/8/2B1K3 w - - 0 1", true),
        ("4k3/8/8/8/8/8/8/1N2K3 w - - 0 1", true),
        ("4k3/8/8/8/8/8/8/1NN1K3 w - - 0 1", false),
        ("4k3/8/8/8/8/8/8/1NB1K3 w - - 0 1", false),
        ("2b1k3/8/8/8/8/8/8/2B1K3 w - - 0 1", false),
        ("5bk1/8/8/8/8/8/8/2B1K3 w - - 0 1", true),
        ("4k3/8/8/8/8/8/4P3/4K3 w - - 0 1", false),
        ("3qk3/8/8/8/8/8/8/4K3 w - - 0 1", false),
    ] {
        let game = Game::from_fen(fen).unwrap();
        assert_eq!(game.position().is_insufficient_material(), dead, "{fen}");
    }
}

#[test]
fn outcomes_are_told_apart() {
    let outcome = |fen: &str| Game::from_fen(fen).unwrap().position().outcome();
    assert_eq!(
        outcome("4Q1k1/5ppp/8/8/8/8/5PPP/6K1 b - - 0 1"),
        Outcome::Decisive {
            winner: Color::White
        }
    );
    assert_eq!(outcome("7k/5Q2/6K1/8/8/8/8/8 b - - 0 1"), Outcome::Draw);
    assert_eq!(outcome("4k3/8/8/8/8/8/8/4K3 w - - 0 1"), Outcome::Draw);
    assert_eq!(
        outcome("rnbqkbnr/pppppppp/8/8/8/8/PPPPPPPP/RNBQKBNR w KQkq - 0 1"),
        Outcome::Unknown
    );
}

#[test]
fn the_starting_position_has_twenty_moves() {
    let start = Position::start();
    assert_eq!(start.legal_moves().len(), 20);
    assert!(!start.is_check());
    assert_eq!(perft(&start, 0), 1);
    assert_eq!(perft(&start, 1), 20);
    assert_eq!(perft(&start, 2), 400);
    assert_eq!(perft(&start, 3), 8902);
}

#[test]
fn a_position_that_is_none_has_no_moves() {
    let mut twice = Position::start();
    twice.board.pawns |= twice.board.kings;
    assert!(twice.legal_moves().is_empty());
    assert_eq!(Game::from_position(twice).fen(), "");
    let mut nowhere = Position::start();
    nowhere.ep_square = Some(70);
    assert!(nowhere.legal_moves().is_empty());
}

#[test]
fn a_diagram_has_white_at_the_bottom() {
    assert_eq!(
        diagram(&Position::start()),
        "8 r n b q k b n r\n7 p p p p p p p p\n6 . . . . . . . .\n5 . . . . . . . .\n\
         4 . . . . . . . .\n3 . . . . . . . .\n2 P P P P P P P P\n1 R N B Q K B N R\n  a b c d e f g h"
    );
}
