# zero-elo

A chess engine that is trying, sincerely and with some skill, to lose.

The library is written in Verus: the functions state what they return or change,
and the statements are proved. What the clock reads and whether the stop flag is up
is for the world outside to say; what follows from either is stated. Move generation, the rules of chess, FEN
and the notations of moves come from
[`shakmaty`](https://crates.io/crates/shakmaty); what the library relies on from
there is stated where the calls are made.

## Layout

| | |
| --- | --- |
| `src/chess.rs`, `src/bits.rs` | Positions, moves and sets of squares as plain values |
| `src/attacks.rs`, `src/rules.rs` | The calls into `shakmaty`, and what they are relied on for |
| `src/position.rs`, `src/game.rs` | What can be played, how a game stands, and repetitions |
| `src/eval.rs` | The score of a position: how badly the victim is doing |
| `src/search/model.rs` | What the search computes, as a mathematical function |
| `src/search/` | The engine that computes it, and the parts it is made of |
| `src/uci/protocol.rs` | What each line of a UCI client means |
| `src/uci/` | The session that works it out |
| `src/console.rs` | What the other commands decide and say |
| `app/` | The program: arguments, reading, printing and threads |

What holds of the library as a whole is stated in functions whose names begin
with `law_`.

## How the search is specified

A search depends on three things besides its arguments: what the transposition
table knows, whether the stop flag is up, and the time. `search::model` describes
the search as a function of all three. The engine keeps a record of what the flag
and the clock have answered, which exists only for the proofs, and
`Engine::search` is proved to return what the model says for those answers.
Whatever they are, it returns a legal move if there is one.

## Using it

```rust
use zero_elo::{Engine, Game, Limits};

let mut game = Game::new();
game.play_uci("e2e4").unwrap();

let mut engine = Engine::new();
let worst = engine.best_move(&game, &Limits::depth(6)).expect("a legal move");
println!("the engine would like to play {}", worst.to_uci());
```

Running the program with no arguments starts the UCI loop on stdin and stdout.
The subcommands `analyse`, `play`, `selfplay`, `perft` and `bench` are for
watching it work.

## Malice

`Options::malice` is a single dial between the two possible objectives. At 100 the
engine plays for its own destruction. At 0 it negates the same evaluation and
plays ordinary chess. At 50 it has no opinion about the result at all: every
position and every result is worth nothing.
