//! What the engine says about a search.

use vstd::prelude::*;
use vstd::string::*;

use crate::chess::Move;
use crate::clock::MILLISECOND;
use crate::rules;
use crate::rules::write_uci;
use crate::search::root::SearchInfo;
use crate::search::score::Score;
use crate::text;
use crate::text::{push_number, push_signed};

verus! {

impl Score {
    /// The score the way UCI wants it, as the tail of an `info score ...` field.
    pub open spec fn text(self) -> Seq<char> {
        match self {
            Score::Centipawns(value) => "cp "@ + text::signed(value as int),
            Score::Mate(moves) => "mate "@ + text::signed(moves as int),
        }
    }

    /// Formats the way UCI wants it, as the tail of an `info score ...` field.
    pub fn to_text(self) -> (text: String)
        ensures
            text@ == self.text(),
    {
        match self {
            Score::Centipawns(value) => {
                let mut out = "cp ".to_owned();
                push_signed(&mut out, value as i64);
                out
            },
            Score::Mate(moves) => {
                let mut out = "mate ".to_owned();
                push_signed(&mut out, moves as i64);
                out
            },
        }
    }
}

/// Whether every move of a line names squares of the board.
pub open spec fn on_board(line: Seq<Move>) -> bool {
    forall|i: int| 0 <= i < line.len() ==> (#[trigger] line[i]).on_board()
}

/// Moves as UCI writes them.
pub open spec fn written(line: Seq<Move>) -> Seq<Seq<char>> {
    Seq::new(line.len(), |i: int| rules::uci_writing(rules::standard(line[i])))
}

/// A line of moves as UCI writes it.
fn line_text(line: &Vec<Move>) -> (text: String)
    requires
        on_board(line@),
    ensures
        text@ == text::joined(written(line@)),
{
    let mut out = String::new();
    let mut index: usize = 0;
    proof {
        assert(out@ =~= seq![]);
    }
    while index < line.len()
        invariant
            index <= line.len(),
            on_board(line@),
            out@ == text::joined(written(line@.take(index as int))),
        decreases line.len() - index,
    {
        let ghost before = written(line@.take(index as int));
        if index > 0 {
            out.push(' ');
        }
        out.append(write_uci(line[index]).as_str());
        index += 1;
        proof {
            let now = written(line@.take(index as int));
            assert(now.drop_last() =~= before);
            assert(now.last() == rules::uci_writing(rules::standard(line@[index - 1])));
            if before.len() == 0 {
                assert(out@ =~= now[0]);
            }
        }
    }
    proof {
        assert(line@.take(index as int) =~= line@);
    }
    out
}

/// The report on an iteration. With `debug`, a second line says how the engine
/// sees it.
pub open spec fn info_text(info: SearchInfo, debug: bool) -> Seq<char> {
    "info depth "@ + text::decimal(info.depth as nat) + " seldepth "@ + text::decimal(
        info.seldepth as nat,
    ) + " score "@ + info.score.text() + " nodes "@ + text::decimal(info.nodes as nat) + " nps "@
        + text::decimal(info.rate()) + " time "@ + text::decimal(
        info.elapsed.total() / (MILLISECOND as nat),
    ) + (if info.pv@.len() == 0 {
        seq![]
    } else {
        " pv "@ + text::joined(written(info.pv@))
    }) + (if debug {
        "\ninfo string sabotage "@ + text::signed(info.sabotage as int)
    } else {
        seq![]
    })
}

/// The report on an iteration.
pub fn format_info(info: &SearchInfo, debug: bool) -> (line: String)
    requires
        on_board(info.pv@),
    ensures
        line@ == info_text(*info, debug),
{
    let mut line = "info depth ".to_owned();
    push_number(&mut line, info.depth as u128);
    line.append(" seldepth ");
    push_number(&mut line, info.seldepth as u128);
    line.append(" score ");
    line.append(info.score.to_text().as_str());
    line.append(" nodes ");
    push_number(&mut line, info.nodes as u128);
    line.append(" nps ");
    push_number(&mut line, info.nps() as u128);
    line.append(" time ");
    push_number(&mut line, info.elapsed.as_millis());
    let ghost head = line@;
    if info.pv.len() > 0 {
        line.append(" pv ");
        line.append(line_text(&info.pv).as_str());
    }
    let ghost with_pv = line@;
    proof {
        if info.pv@.len() == 0 {
            assert(with_pv =~= head + seq![]);
        } else {
            assert(with_pv =~= head + (" pv "@ + text::joined(written(info.pv@))));
        }
    }
    if debug {
        line.append("\ninfo string sabotage ");
        push_signed(&mut line, info.sabotage as i64);
    }
    proof {
        if debug {
            assert(line@ =~= with_pv + ("\ninfo string sabotage "@ + text::signed(
                info.sabotage as int,
            )));
        } else {
            assert(line@ =~= with_pv + seq![]);
        }
    }
    line
}

/// The answer to a `go`: the move to play, or the null move where there is none.
pub open spec fn answer_text(best: Option<Move>) -> Seq<char> {
    match best {
        Some(m) => "bestmove "@ + rules::uci_writing(rules::standard(m)),
        None => "bestmove 0000"@,
    }
}

/// The answer to a `go`.
pub fn format_answer(best: Option<Move>) -> (line: String)
    requires
        best matches Some(m) ==> m.on_board(),
    ensures
        line@ == answer_text(best),
{
    match best {
        Some(m) => "bestmove ".to_owned().concat(write_uci(m).as_str()),
        None => "bestmove 0000".to_owned(),
    }
}

/// A score is written as a kind and a number: `cp` and the centipawns, or `mate` and
/// the moves, with the sign that the score has.
pub proof fn law_a_score_is_two_words(score: Score)
    ensures
        text::words(score.text()) == (match score {
            Score::Centipawns(value) => seq!["cp"@, text::signed(value as int)],
            Score::Mate(moves) => seq!["mate"@, text::signed(moves as int)],
        }),
{
    reveal_strlit("cp");
    reveal_strlit("mate");
    reveal_strlit("cp ");
    reveal_strlit("mate ");
    match score {
        Score::Centipawns(value) => {
            let number = text::signed(value as int);
            text::law_a_number_is_one_word(value as int);
            text::law_a_word_is_one_word(number);
            text::law_a_word_is_one_word("cp"@);
            text::law_words_of_two_texts("cp"@, ' ', number);
            assert(score.text() =~= "cp"@.push(' ') + number);
            assert(seq!["cp"@] + seq![number] =~= seq!["cp"@, number]);
        },
        Score::Mate(moves) => {
            let number = text::signed(moves as int);
            text::law_a_number_is_one_word(moves as int);
            text::law_a_word_is_one_word(number);
            text::law_a_word_is_one_word("mate"@);
            text::law_words_of_two_texts("mate"@, ' ', number);
            assert(score.text() =~= "mate"@.push(' ') + number);
            assert(seq!["mate"@] + seq![number] =~= seq!["mate"@, number]);
        },
    }
}

/// A field at the end of a line is its keyword and its words.
proof fn lemma_field(line: Seq<char>, spaced: Seq<char>, key: Seq<char>, field: Seq<char>)
    requires
        spaced == seq![' '] + key.push(' '),
        text::is_word(key),
    ensures
        text::words(line + spaced + field) == text::words(line) + seq![key] + text::words(field),
{
    text::law_words_of_two_texts(line, ' ', key.push(' ') + field);
    text::law_words_of_two_texts(key, ' ', field);
    text::law_a_word_is_one_word(key);
    assert(line + spaced + field =~= line.push(' ') + (key.push(' ') + field));
    assert(text::words(line) + (seq![key] + text::words(field)) =~= text::words(line) + seq![key]
        + text::words(field));
}

/// A move as UCI writes it is one word.
pub proof fn law_a_written_move_is_one_word(m: Move)
    requires
        m.on_board(),
    ensures
        text::is_word(rules::uci_writing(rules::standard(m))),
{
    let uci = rules::standard(m);
    let written = rules::uci_writing(uci);
    match uci {
        rules::UciMove::Normal { from, to, promotion } => {
            rules::lemma_square_name(from);
            rules::lemma_square_name(to);
            assert forall|i: int| 0 <= i < written.len() implies !text::is_space(
                #[trigger] written[i],
            ) by {
                if i == 0 {
                    assert(written[i] == rules::square_name(from)[0]);
                } else if i == 1 {
                    assert(written[i] == rules::square_name(from)[1]);
                } else if i == 2 {
                    assert(written[i] == rules::square_name(to)[0]);
                } else if i == 3 {
                    assert(written[i] == rules::square_name(to)[1]);
                }
            }
        },
        rules::UciMove::Put { role, to } => {
            rules::lemma_square_name(to);
            assert forall|i: int| 0 <= i < written.len() implies !text::is_space(
                #[trigger] written[i],
            ) by {
                if i == 2 {
                    assert(written[i] == rules::square_name(to)[0]);
                } else if i == 3 {
                    assert(written[i] == rules::square_name(to)[1]);
                }
            }
        },
        rules::UciMove::Null => {},
    }
}

/// What a client reads off a report, word by word: each keyword, and after it what it
/// stands for.
pub proof fn law_a_report_is_read_word_by_word(info: SearchInfo)
    requires
        on_board(info.pv@),
    ensures
        text::words(info_text(info, false)) == seq!["info"@, "depth"@, text::decimal(
            info.depth as nat,
        )] + seq!["seldepth"@, text::decimal(info.seldepth as nat)] + seq!["score"@] + text::words(
            info.score.text(),
        ) + seq!["nodes"@, text::decimal(info.nodes as nat)] + seq!["nps"@, text::decimal(
            info.rate(),
        )] + seq!["time"@, text::decimal(info.elapsed.total() / 1_000_000)] + (if info.pv@.len()
            == 0 {
            seq![]
        } else {
            seq!["pv"@] + written(info.pv@)
        }),
        info_text(info, true) == info_text(info, false) + "\ninfo string sabotage "@ + text::signed(
            info.sabotage as int,
        ),
{
    reveal_strlit("info depth ");
    reveal_strlit("info");
    reveal_strlit("depth");
    reveal_strlit(" seldepth ");
    reveal_strlit("seldepth");
    reveal_strlit(" score ");
    reveal_strlit("score");
    reveal_strlit(" nodes ");
    reveal_strlit("nodes");
    reveal_strlit(" nps ");
    reveal_strlit("nps");
    reveal_strlit(" time ");
    reveal_strlit("time");
    reveal_strlit(" pv ");
    reveal_strlit("pv");
    let depth = text::decimal(info.depth as nat);
    let seldepth = text::decimal(info.seldepth as nat);
    let nodes = text::decimal(info.nodes as nat);
    let nps = text::decimal(info.rate());
    let time = text::decimal(info.elapsed.total() / 1_000_000);
    text::law_a_number_is_one_word(info.depth as int);
    text::law_a_number_is_one_word(info.seldepth as int);
    text::law_a_number_is_one_word(info.nodes as int);
    text::law_a_number_is_one_word(info.rate() as int);
    text::law_a_number_is_one_word((info.elapsed.total() / 1_000_000) as int);
    text::law_a_word_is_one_word(depth);
    text::law_a_word_is_one_word(seldepth);
    text::law_a_word_is_one_word(nodes);
    text::law_a_word_is_one_word(nps);
    text::law_a_word_is_one_word(time);
    text::law_a_word_is_one_word("info"@);
    assert("info depth "@ =~= "info"@ + (seq![' '] + "depth"@.push(' ')));
    let a = "info depth "@ + depth;
    assert(a =~= "info"@ + (seq![' '] + "depth"@.push(' ')) + depth);
    lemma_field("info"@, seq![' '] + "depth"@.push(' '), "depth"@, depth);
    assert(seq!["info"@] + seq!["depth"@] + seq![depth] =~= seq!["info"@, "depth"@, depth]);
    assert(" seldepth "@ =~= seq![' '] + "seldepth"@.push(' '));
    let b = a + " seldepth "@ + seldepth;
    lemma_field(a, " seldepth "@, "seldepth"@, seldepth);
    assert(text::words(a) + seq!["seldepth"@] + seq![seldepth] =~= text::words(a) + seq![
        "seldepth"@,
        seldepth,
    ]);
    assert(" score "@ =~= seq![' '] + "score"@.push(' '));
    let c = b + " score "@ + info.score.text();
    lemma_field(b, " score "@, "score"@, info.score.text());
    assert(" nodes "@ =~= seq![' '] + "nodes"@.push(' '));
    let d = c + " nodes "@ + nodes;
    lemma_field(c, " nodes "@, "nodes"@, nodes);
    assert(text::words(c) + seq!["nodes"@] + seq![nodes] =~= text::words(c) + seq!["nodes"@, nodes]);
    assert(" nps "@ =~= seq![' '] + "nps"@.push(' '));
    let e = d + " nps "@ + nps;
    lemma_field(d, " nps "@, "nps"@, nps);
    assert(text::words(d) + seq!["nps"@] + seq![nps] =~= text::words(d) + seq!["nps"@, nps]);
    assert(" time "@ =~= seq![' '] + "time"@.push(' '));
    let f = e + " time "@ + time;
    lemma_field(e, " time "@, "time"@, time);
    assert(text::words(e) + seq!["time"@] + seq![time] =~= text::words(e) + seq!["time"@, time]);
    let moves = written(info.pv@);
    assert(" pv "@ =~= seq![' '] + "pv"@.push(' '));
    if info.pv@.len() == 0 {
        assert(info_text(info, false) =~= f);
        assert(text::words(f) + Seq::<Seq<char>>::empty() =~= text::words(f));
    } else {
        assert forall|i: int| 0 <= i < moves.len() implies text::is_word(#[trigger] moves[i]) by {
            law_a_written_move_is_one_word(info.pv@[i]);
        }
        text::law_joined_words_are_found_again(moves);
        lemma_field(f, " pv "@, "pv"@, text::joined(moves));
        assert(info_text(info, false) =~= f + " pv "@ + text::joined(moves));
        assert(text::words(f) + seq!["pv"@] + moves =~= text::words(f) + (seq!["pv"@] + moves));
    }
    assert(info_text(info, true) =~= info_text(info, false) + "\ninfo string sabotage "@
        + text::signed(info.sabotage as int));
}

/// The answer to a `go` is `bestmove` and a word that is read as the move that was
/// chosen, or as no move where there is none.
pub proof fn law_an_answer_is_understood(best: Option<Move>)
    requires
        best matches Some(m) ==> m.on_board(),
    ensures
        ({
            let words = text::words(answer_text(best));
            &&& words.len() == 2
            &&& words[0] == "bestmove"@
            &&& best matches Some(m) ==> rules::uci_reading(words[1]) == Some(rules::standard(m))
                && rules::stands_for(rules::standard(m), m)
            &&& best is None ==> rules::uci_reading(words[1]) == Some(rules::UciMove::Null)
        }),
{
    reveal_strlit("bestmove");
    reveal_strlit("bestmove ");
    reveal_strlit("bestmove 0000");
    text::law_a_word_is_one_word("bestmove"@);
    match best {
        Some(m) => {
            let word = rules::uci_writing(rules::standard(m));
            law_a_written_move_is_one_word(m);
            rules::law_a_written_move_is_understood(m);
            text::law_a_word_is_one_word(word);
            text::law_words_of_two_texts("bestmove"@, ' ', word);
            assert(answer_text(best) =~= "bestmove"@.push(' ') + word);
        },
        None => {
            let word = seq!['0', '0', '0', '0'];
            text::law_a_word_is_one_word(word);
            text::law_words_of_two_texts("bestmove"@, ' ', word);
            assert(answer_text(best) =~= "bestmove"@.push(' ') + word);
        },
    }
}

/// The nodes per second are how often the time goes into the nodes, in seconds and
/// rounded down: nothing where no time has passed, and as much as can be counted where
/// it is more.
pub proof fn law_nodes_per_second(info: SearchInfo)
    ensures
        ({
            let nanos = info.elapsed.total();
            &&& nanos == 0 ==> info.rate() == 0
            &&& nanos > 0 ==> info.rate() * nanos <= info.nodes * 1_000_000_000
            &&& nanos > 0 && info.rate() < u64::MAX ==> info.nodes * 1_000_000_000 < (info.rate()
                + 1) * nanos
        }),
{
    let nanos = info.elapsed.total() as int;
    let whole = info.nodes * 1_000_000_000;
    if nanos > 0 {
        let rate = whole / nanos;
        vstd::arithmetic::div_mod::lemma_fundamental_div_mod(whole, nanos);
        vstd::arithmetic::div_mod::lemma_mod_bound(whole, nanos);
        assert(rate * nanos == nanos * rate) by (nonlinear_arith);
        assert((rate + 1) * nanos == nanos * rate + nanos) by (nonlinear_arith);
        vstd::arithmetic::div_mod::lemma_div_pos_is_pos(whole, nanos);
        let shown = info.rate() as int;
        assert(shown * nanos <= rate * nanos) by (nonlinear_arith)
            requires
                shown <= rate,
                nanos > 0,
        ;
    }
}

} // verus!
