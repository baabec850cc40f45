//! The knobs that a user can turn.

use vstd::prelude::*;
use vstd::string::*;

use crate::eval::Weights;
use crate::text;
use crate::text::{ascii_lowercase, quote, says};

verus! {

/// What the engine assumes the opponent is trying to do.
#[derive(Clone, Copy, PartialEq, Eq, Debug, Hash, Structural)]
pub enum OpponentModel {
    /// The opponent is playing to win, and will take what they are offered.
    Optimistic,
    /// The opponent is trying just as hard to lose, and will decline.
    Paranoid,
}

impl OpponentModel {
    /// The name used in UCI options and on the command line.
    pub open spec fn title(self) -> Seq<char> {
        match self {
            OpponentModel::Optimistic => "Optimistic"@,
            OpponentModel::Paranoid => "Paranoid"@,
        }
    }

    /// The name used in UCI options and on the command line.
    pub fn name(self) -> (name: &'static str)
        ensures
            name@ == self.title(),
    {
        match self {
            OpponentModel::Optimistic => "Optimistic",
            OpponentModel::Paranoid => "Paranoid",
        }
    }
}

/// The model that a name stands for, in whatever case it is written.
pub open spec fn model_named(text: Seq<char>) -> Option<OpponentModel> {
    let name = text::small_letters(text);
    if name == "optimistic"@ || name == "cooperative"@ || name == "greedy"@ {
        Some(OpponentModel::Optimistic)
    } else if name == "paranoid"@ || name == "adversarial"@ || name == "hostile"@ {
        Some(OpponentModel::Paranoid)
    } else {
        None
    }
}

/// What is said of a name that stands for no model.
pub open spec fn unknown_model(text: Seq<char>) -> Seq<char> {
    "unknown opponent model "@ + text::quoted(text::small_letters(text))
}

impl OpponentModel {
    /// Reads the name of a model, in whatever case it is written.
    pub fn parse(text: &str) -> (model: Result<OpponentModel, String>)
        ensures
            (match model {
                Ok(model) => Some(model),
                Err(_) => None,
            }) == model_named(text@),
            model matches Err(message) ==> message@ == unknown_model(text@),
    {
        let name = ascii_lowercase(text);
        if says(&name, "optimistic") || says(&name, "cooperative") || says(&name, "greedy") {
            Ok(OpponentModel::Optimistic)
        } else if says(&name, "paranoid") || says(&name, "adversarial") || says(&name, "hostile") {
            Ok(OpponentModel::Paranoid)
        } else {
            Err("unknown opponent model ".to_owned().concat(quote(name.as_str()).as_str()))
        }
    }
}

impl core::str::FromStr for OpponentModel {
    type Err = String;

    /// Reads the name of a model, as [`OpponentModel::parse`] does.
    fn from_str(text: &str) -> (model: Result<OpponentModel, String>)
        ensures
            (match model {
                Ok(model) => Some(model),
                Err(_) => None,
            }) == model_named(text@),
            model matches Err(message) ==> message@ == unknown_model(text@),
    {
        OpponentModel::parse(text)
    }
}

impl Default for OpponentModel {
    fn default() -> (model: OpponentModel)
        ensures
            model == OpponentModel::Optimistic,
    {
        OpponentModel::Optimistic
    }
}

/// Everything about the engine that a user can turn a knob on.
#[derive(Clone, Copy, Debug, PartialEq, Eq, Structural)]
pub struct Options {
    /// Transposition table size in mebibytes.
    pub hash_mb: usize,
    /// What the opponent is assumed to want.
    pub model: OpponentModel,
    /// How many opponent replies to consider at each of their turns, under
    /// [`OpponentModel::Optimistic`]. Their most punishing moves come first, so
    /// a small number here still catches the ways they can hurt us.
    pub opponent_moves: usize,
    /// How many of its own moves to weigh once the search is close to the leaves.
    ///
    /// Near the root every move is considered. Deeper down the move ordering is
    /// trustworthy enough to look only at the most promising ways of throwing
    /// the game, which is what makes the wide optimistic search affordable.
    pub own_moves: usize,
    /// How much worse than an equal position a draw is considered to be.
    /// Raising this makes the engine work harder to keep a lost game alive.
    pub draw_penalty: i32,
    /// How much credit to give a chance the opponent could decline, in
    /// centipawns.
    ///
    /// A mate the opponent has to *choose* to play is encouraging, not
    /// decisive. Set this very high and the engine banks on being punished,
    /// stops working to worsen its position, and drifts. Set it to zero and it
    /// only plays for defeats that hold up however the opponent replies.
    pub opportunity_bonus: i32,
    /// How badly the engine wants to lose, from 0 to 100. At 100 it plays for
    /// its own destruction; at 0 it plays ordinary chess and tries to win; at
    /// 50 it does not care either way.
    pub malice: i32,
    /// Evaluation weights.
    pub weights: Weights,
}

/// The largest score that leaves room for the distance to a mate.
pub const SCORE_LIMIT: i32 = 2_147_483_583;

impl Options {
    /// The settings that the engine comes with.
    pub open spec fn usual() -> Options {
        Options {
            hash_mb: 16,
            model: OpponentModel::Optimistic,
            opponent_moves: 4,
            own_moves: 10,
            draw_penalty: 60,
            opportunity_bonus: 500,
            malice: 100,
            weights: Weights::usual(),
        }
    }

    /// Whether no score under these settings can leave the range of an `i32`.
    pub open spec fn in_range(self) -> bool {
        &&& self.weights.reach() <= SCORE_LIMIT
        &&& -SCORE_LIMIT <= self.draw_penalty <= SCORE_LIMIT
    }

    /// Whether a table of this size can be addressed.
    pub open spec fn table_fits(self) -> bool {
        self.hash_mb * 0x10_0000 <= usize::MAX
    }

    /// Whether a table of this size can be addressed.
    pub fn is_addressable(&self) -> (fits: bool)
        ensures
            fits == self.table_fits(),
    {
        self.hash_mb <= usize::MAX / 0x10_0000
    }

    /// Whether no score under these settings can leave the range of an `i32`.
    pub fn is_in_range(&self) -> (inside: bool)
        ensures
            inside == self.in_range(),
    {
        self.weights.are_within(SCORE_LIMIT) && -SCORE_LIMIT <= self.draw_penalty
            && self.draw_penalty <= SCORE_LIMIT
    }

    /// Which way and how strongly the evaluation counts, in percent: all of it at
    /// full malice, none of it half way, and the opposite at none.
    pub open spec fn leaning(self) -> int {
        let malice = if self.malice < 0 {
            0
        } else if self.malice > 100 {
            100
        } else {
            self.malice as int
        };
        2 * malice - 100
    }

    /// Which way and how strongly the evaluation counts, in percent.
    pub fn factor(&self) -> (factor: i32)
        ensures
            factor == self.leaning(),
            -100 <= factor <= 100,
    {
        let malice: i32 = if self.malice < 0 {
            0
        } else if self.malice > 100 {
            100
        } else {
            self.malice
        };
        2 * malice - 100
    }
}

impl Default for Options {
    fn default() -> (options: Options)
        ensures
            options == Options::usual(),
            options.in_range(),
            options.table_fits(),
    {
        Options {
            hash_mb: 16,
            model: OpponentModel::default(),
            opponent_moves: 4,
            own_moves: 10,
            draw_penalty: 60,
            opportunity_bonus: 500,
            malice: 100,
            weights: Weights::default(),
        }
    }
}

/// Malice is a dial: each step of it counts the same, half way the engine leans
/// neither way, the two sides of the middle mirror each other, and beyond its ends
/// the dial does not turn.
pub proof fn law_malice_is_a_dial(one: Options, other: Options)
    ensures
        0 <= one.malice <= 100 && 0 <= other.malice <= 100 ==> one.leaning() - other.leaning() == 2 * (
        one.malice - other.malice),
        one.malice == 50 ==> one.leaning() == 0,
        one.malice + other.malice == 100 ==> one.leaning() == -other.leaning(),
        one.malice >= 100 ==> one.leaning() == 100,
        one.malice <= 0 ==> one.leaning() == -100,
{
}

/// The name of a model is read as that model, in small letters too.
pub proof fn law_a_models_name_is_read(model: OpponentModel)
    ensures
        model_named(model.title()) == Some(model),
        model_named(text::small_letters(model.title())) == Some(model),
{
    reveal_strlit("Optimistic");
    reveal_strlit("Paranoid");
    reveal_strlit("optimistic");
    reveal_strlit("paranoid");
    reveal_strlit("cooperative");
    reveal_strlit("greedy");
    assert(text::small_letters("Optimistic"@) =~= "optimistic"@);
    assert(text::small_letters("Paranoid"@) =~= "paranoid"@);
    assert(text::small_letters("optimistic"@) =~= "optimistic"@);
    assert(text::small_letters("paranoid"@) =~= "paranoid"@);
    assert("paranoid"@ != "optimistic"@) by {
        assert("paranoid"@.len() == 8 && "optimistic"@.len() == 10);
    }
    assert("paranoid"@ != "cooperative"@) by {
        assert("paranoid"@.len() == 8 && "cooperative"@.len() == 11);
    }
    assert("paranoid"@ != "greedy"@) by {
        assert("paranoid"@.len() == 8 && "greedy"@.len() == 6);
    }
}

} // verus!
