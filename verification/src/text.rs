//! Reading and writing text.

use vstd::prelude::*;
use vstd::string::*;

verus! {

/// [`String::push`] appends one character.
pub assume_specification[ String::push ](s: &mut String, ch: char)
    ensures
        final(s)@ == old(s)@.push(ch),
;

/// The characters with Unicode's property `White_Space`.
pub open spec fn is_space(letter: char) -> bool {
    let code = letter as u32;
    ||| 0x9 <= code <= 0xd
    ||| code == 0x20
    ||| code == 0x85
    ||| code == 0xa0
    ||| code == 0x1680
    ||| 0x2000 <= code <= 0x200a
    ||| code == 0x2028
    ||| code == 0x2029
    ||| code == 0x202f
    ||| code == 0x205f
    ||| code == 0x3000
}

/// [`char::is_whitespace`] tells the characters with Unicode's property
/// `White_Space`. The contract says which they are.
#[verifier::external_body]
fn separates(letter: char) -> (space: bool)
    ensures
        space == is_space(letter),
{
    letter.is_whitespace()
}

/// The text that [`str::to_lowercase`] makes of another.
pub uninterp spec fn lowered(text: Seq<char>) -> Seq<char>;

/// A letter of ASCII in lower case; any other character as it is.
pub open spec fn small(letter: char) -> char {
    if 'A' <= letter <= 'Z' {
        (letter as int + 32) as char
    } else {
        letter
    }
}

/// Whether all characters are of ASCII.
pub open spec fn plain(text: Seq<char>) -> bool {
    forall|i: int| 0 <= i < text.len() ==> (#[trigger] text[i] as u32) < 128
}

/// [`str::to_lowercase`] puts a text in lower case. The contract names the
/// result, and says what it is for a text of ASCII characters.
#[verifier::external_body]
pub(crate) fn lowercase(text: &str) -> (small: String)
    ensures
        small@ == lowered(text@),
        plain(text@) ==> small@ == text@.map_values(|letter: char| self::small(letter)),
{
    text.to_lowercase()
}

/// The text that the `Debug` form of a string gives: in quotes, with what is
/// special escaped.
pub uninterp spec fn quoted(text: Seq<char>) -> Seq<char>;

/// The `Debug` form of [`str`]. The contract names it.
#[verifier::external_body]
pub(crate) fn quote(text: &str) -> (quoted: String)
    ensures
        quoted@ == self::quoted(text@),
{
    format!("{text:?}")
}

/// The texts of a list of strings.
pub open spec fn views(list: Seq<String>) -> Seq<Seq<char>> {
    Seq::new(list.len(), |i: int| list[i]@)
}

/// Whether a word is a given text.
pub fn says(word: &String, text: &str) -> (same: bool)
    ensures
        same == (word@ == text@),
{
    *word == text.to_owned()
}

/// The characters of a text.
pub fn letters(text: &str) -> (found: Vec<char>)
    ensures
        found@ == text@,
{
    let mut found: Vec<char> = Vec::new();
    let count: usize = text.unicode_len();
    while found.len() < count
        invariant
            count == text@.len(),
            found.len() <= count,
            found@ == text@.take(found.len() as int),
        decreases count - found.len(),
    {
        let letter = text.get_char(found.len());
        proof {
            assert(text@.take(found.len() as int).push(letter) =~= text@.take(found.len() + 1));
        }
        found.push(letter);
    }
    proof {
        assert(found@ =~= text@);
    }
    found
}

/// The words of the first `n` characters that are complete, and the beginning of
/// the one that is not.
pub open spec fn split(text: Seq<char>, n: nat) -> (Seq<Seq<char>>, Seq<char>)
    decreases n,
{
    if n == 0 {
        (seq![], seq![])
    } else {
        let (done, word) = split(text, (n - 1) as nat);
        let letter = text[n - 1];
        if !is_space(letter) {
            (done, word.push(letter))
        } else if word.len() == 0 {
            (done, word)
        } else {
            (done.push(word), seq![])
        }
    }
}

/// The words of a text, which white space separates.
pub open spec fn words(text: Seq<char>) -> Seq<Seq<char>> {
    let (done, word) = split(text, text.len());
    if word.len() == 0 {
        done
    } else {
        done.push(word)
    }
}

/// The words of a text, which white space separates.
pub fn split_words(text: &str) -> (found: Vec<String>)
    ensures
        views(found@) == words(text@),
{
    let letters = letters(text);
    let mut found: Vec<String> = Vec::new();
    let mut word = String::new();
    let mut empty: bool = true;
    let mut index: usize = 0;
    proof {
        assert(views(found@) =~= seq![]);
        assert(word@ =~= seq![]);
    }
    while index < letters.len()
        invariant
            index <= letters.len(),
            letters@ == text@,
            (views(found@), word@) == split(text@, index as nat),
            empty == (word@.len() == 0),
        decreases letters.len() - index,
    {
        let letter = letters[index];
        let ghost before = found@;
        if !separates(letter) {
            word.push(letter);
            empty = false;
        } else if !empty {
            let ghost done = word@;
            found.push(word);
            word = String::new();
            empty = true;
            proof {
                assert(views(found@) =~= views(before).push(done));
                assert(word@ =~= seq![]);
            }
        }
        index += 1;
    }
    if !empty {
        let ghost before = found@;
        let ghost done = word@;
        found.push(word);
        proof {
            assert(views(found@) =~= views(before).push(done));
        }
    }
    found
}

/// A word has no white space in it, and it is never empty.
pub proof fn law_words_are_words(text: Seq<char>, n: nat)
    requires
        n <= text.len(),
    ensures
        forall|i: int|
            0 <= i < split(text, n).0.len() ==> #[trigger] split(text, n).0[i].len() > 0
                && spaceless(split(text, n).0[i]),
        spaceless(split(text, n).1),
        forall|i: int|
            0 <= i < words(text).len() && n == text.len() ==> #[trigger] words(text)[i].len() > 0
                && spaceless(words(text)[i]),
    decreases n,
{
    if n > 0 {
        law_words_are_words(text, (n - 1) as nat);
    }
}

/// The words of two texts with white space between them are those of the one and
/// then those of the other.
pub proof fn law_words_of_two_texts(one: Seq<char>, space: char, other: Seq<char>)
    requires
        is_space(space),
    ensures
        words(one.push(space) + other) == words(one) + words(other),
{
    let both = one.push(space) + other;
    let start = one.len() + 1;
    lemma_split_prefix(one, both, one.len());
    assert(both[start - 1] == space);
    assert(split(both, start) == (words(one), Seq::<char>::empty()));
    lemma_split_on(one, space, other, other.len());
    let (done, word) = split(other, other.len());
    assert((words(one) + done).push(word) =~= words(one) + done.push(word));
}

/// Splitting the beginning of a text takes no notice of what follows.
proof fn lemma_split_prefix(text: Seq<char>, longer: Seq<char>, n: nat)
    requires
        n <= text.len() <= longer.len(),
        forall|i: int| 0 <= i < text.len() ==> text[i] == longer[i],
    ensures
        split(text, n) == split(longer, n),
    decreases n,
{
    if n > 0 {
        lemma_split_prefix(text, longer, (n - 1) as nat);
        assert(text[n - 1] == longer[n - 1]);
    }
}

/// Splitting goes on after white space as it would begin.
proof fn lemma_split_on(one: Seq<char>, space: char, other: Seq<char>, n: nat)
    requires
        is_space(space),
        n <= other.len(),
        split(one.push(space) + other, one.len() + 1) == (words(one), Seq::<char>::empty()),
    ensures
        split(one.push(space) + other, one.len() + 1 + n) == (
            words(one) + split(other, n).0,
            split(other, n).1,
        ),
    decreases n,
{
    if n == 0 {
        assert(words(one) + split(other, n).0 =~= words(one));
    } else {
        lemma_split_on(one, space, other, (n - 1) as nat);
        let (done, word) = split(other, (n - 1) as nat);
        assert((one.push(space) + other)[(one.len() + n) as int] == other[n - 1]);
        assert((words(one) + done).push(word) =~= words(one) + done.push(word));
    }
}

/// Whether a text has no white space in it.
pub open spec fn spaceless(text: Seq<char>) -> bool {
    forall|i: int| 0 <= i < text.len() ==> !is_space(#[trigger] text[i])
}

/// Words with a blank between each and the next.
pub open spec fn joined(words: Seq<Seq<char>>) -> Seq<char>
    decreases words.len(),
{
    if words.len() == 0 {
        seq![]
    } else if words.len() == 1 {
        words[0]
    } else {
        joined(words.drop_last()).push(' ') + words.last()
    }
}

/// Joins the words from `from` up to `to` with blanks.
pub fn join(words: &Vec<String>, from: usize, to: usize) -> (text: String)
    requires
        from <= to <= words.len(),
    ensures
        text@ == joined(views(words@).subrange(from as int, to as int)),
{
    let mut text = String::new();
    let mut index: usize = from;
    proof {
        assert(text@ =~= seq![]);
    }
    while index < to
        invariant
            from <= index <= to <= words.len(),
            text@ == joined(views(words@).subrange(from as int, index as int)),
        decreases to - index,
    {
        let ghost before = views(words@).subrange(from as int, index as int);
        if index > from {
            text.push(' ');
        }
        text.append(words[index].as_str());
        index += 1;
        proof {
            let now = views(words@).subrange(from as int, index as int);
            assert(now.drop_last() =~= before);
            assert(now.last() == words@[index - 1]@);
            if before.len() == 0 {
                assert(text@ =~= now[0]);
            }
        }
    }
    text
}

/// Where a word first stands in a list, from `from` on.
pub open spec fn first(words: Seq<Seq<char>>, word: Seq<char>, from: nat) -> Option<nat>
    decreases words.len() - from,
{
    if from >= words.len() {
        None
    } else if words[from as int] == word {
        Some(from)
    } else {
        first(words, word, from + 1)
    }
}

/// Where a word first stands in a list.
pub fn find(words: &Vec<String>, word: &str) -> (found: Option<usize>)
    ensures
        (match found {
            Some(index) => Some(index as nat),
            None => None,
        }) == first(views(words@), word@, 0),
        found matches Some(index) ==> index < words.len(),
{
    let mut index: usize = 0;
    while index < words.len()
        invariant
            index <= words.len(),
            first(views(words@), word@, 0) == first(views(words@), word@, index as nat),
        decreases words.len() - index,
    {
        if says(&words[index], word) {
            return Some(index);
        }
        index += 1;
    }
    None
}

/// A text with the letters of ASCII in lower case.
pub open spec fn small_letters(text: Seq<char>) -> Seq<char> {
    Seq::new(text.len(), |i: int| small(text[i]))
}

/// A text with the letters of ASCII in lower case.
pub fn ascii_lowercase(text: &str) -> (small: String)
    ensures
        small@ == small_letters(text@),
{
    let letters = letters(text);
    let mut out = String::new();
    let mut index: usize = 0;
    while index < letters.len()
        invariant
            index <= letters.len(),
            letters@ == text@,
            out@.len() == index,
            forall|i: int| 0 <= i < index ==> #[trigger] out@[i] == small(text@[i]),
        decreases letters.len() - index,
    {
        let letter = letters[index];
        if 'A' <= letter && letter <= 'Z' {
            out.push((letter as u8 + 32) as char);
        } else {
            out.push(letter);
        }
        index += 1;
    }
    proof {
        assert(out@ =~= small_letters(text@));
    }
    out
}

/// The character of a digit.
pub open spec fn digit(d: int) -> char {
    ('0' as int + d) as char
}

/// A number in decimal notation.
pub open spec fn decimal(n: nat) -> Seq<char>
    decreases n,
{
    if n < 10 {
        seq![digit(n as int)]
    } else {
        decimal(n / 10).push(digit(n as int % 10))
    }
}

/// A number in decimal notation, with a sign where it is negative.
pub open spec fn signed(n: int) -> Seq<char> {
    if n < 0 {
        seq!['-'] + decimal((-n) as nat)
    } else {
        decimal(n as nat)
    }
}

/// The character of a hexadecimal digit.
pub open spec fn hex_digit(d: int) -> char {
    if d < 10 {
        digit(d)
    } else {
        ('a' as int + d - 10) as char
    }
}

/// The last `width` hexadecimal digits of a number.
pub open spec fn hex(n: nat, width: nat) -> Seq<char>
    decreases width,
{
    if width == 0 {
        seq![]
    } else {
        hex(n / 16, (width - 1) as nat).push(hex_digit(n as int % 16))
    }
}

/// Appends a number in decimal notation.
pub fn push_number(text: &mut String, n: u128)
    ensures
        final(text)@ == old(text)@ + decimal(n as nat),
    decreases n,
{
    if n >= 10 {
        push_number(text, n / 10);
    }
    text.push((48u8 + (n % 10) as u8) as char);
    proof {
        assert(text@ =~= old(text)@ + decimal(n as nat));
    }
}

/// Appends a number in decimal notation, with a sign where it is negative.
pub fn push_signed(text: &mut String, n: i64)
    ensures
        final(text)@ == old(text)@ + signed(n as int),
{
    if n < 0 {
        text.push('-');
        push_number(text, (-(n as i128)) as u128);
        proof {
            assert(text@ =~= old(text)@ + signed(n as int));
        }
    } else {
        push_number(text, n as u128);
    }
}

/// Appends the last `width` hexadecimal digits of a number.
pub fn push_hex(text: &mut String, n: u64, width: u32)
    ensures
        final(text)@ == old(text)@ + hex(n as nat, width as nat),
    decreases width,
{
    if width > 0 {
        push_hex(text, n / 16, width - 1);
        let d: u8 = (n % 16) as u8;
        if d < 10 {
            text.push((48u8 + d) as char);
        } else {
            text.push((87u8 + d) as char);
        }
    }
    proof {
        assert(text@ =~= old(text)@ + hex(n as nat, width as nat));
    }
}

/// A text with blanks before it, up to a width.
pub open spec fn padded(text: Seq<char>, width: nat) -> Seq<char>
    decreases width - text.len(),
{
    if text.len() >= width {
        text
    } else {
        padded(seq![' '] + text, width)
    }
}

/// Puts blanks before a text, up to a width.
pub fn pad(text: String, width: usize) -> (wide: String)
    ensures
        wide@ == padded(text@, width as nat),
{
    let mut wide = text;
    let mut count: usize = wide.as_str().unicode_len();
    while count < width
        invariant
            count == wide@.len(),
            padded(text@, width as nat) == padded(wide@, width as nat),
        decreases width - count,
    {
        let ghost before = wide@;
        wide = " ".to_owned().concat(wide.as_str());
        count += 1;
        proof {
            reveal_strlit(" ");
            assert(" "@ =~= seq![' ']);
            assert(wide@ =~= seq![' '] + before);
        }
    }
    wide
}

/// A text without the white space at its end.
pub open spec fn trimmed_end(text: Seq<char>) -> Seq<char>
    decreases text.len(),
{
    if text.len() > 0 && is_space(text.last()) {
        trimmed_end(text.drop_last())
    } else {
        text
    }
}

/// A text without the white space at its beginning.
pub open spec fn trimmed_start(text: Seq<char>) -> Seq<char>
    decreases text.len(),
{
    if text.len() > 0 && is_space(text[0]) {
        trimmed_start(text.drop_first())
    } else {
        text
    }
}

/// A text without the white space at its end.
pub fn trim_end(text: &str) -> (short: String)
    ensures
        short@ == trimmed_end(text@),
{
    let letters = letters(text);
    let mut end: usize = letters.len();
    proof {
        assert(text@.take(end as int) =~= text@);
    }
    while end > 0 && separates(letters[end - 1])
        invariant
            end <= letters.len(),
            letters@ == text@,
            trimmed_end(text@) == trimmed_end(text@.take(end as int)),
        decreases end,
    {
        proof {
            assert(text@.take(end as int).drop_last() =~= text@.take(end - 1));
        }
        end -= 1;
    }
    text.substring_char(0, end).to_owned()
}

/// A text without the white space at either end.
pub fn trim(text: &str) -> (short: String)
    ensures
        short@ == trimmed_start(trimmed_end(text@)),
{
    let whole = trim_end(text);
    let letters = letters(whole.as_str());
    let mut start: usize = 0;
    proof {
        assert(whole@.skip(0) =~= whole@);
    }
    while start < letters.len() && separates(letters[start])
        invariant
            start <= letters.len(),
            letters@ == whole@,
            trimmed_start(whole@) == trimmed_start(whole@.skip(start as int)),
        decreases letters.len() - start,
    {
        proof {
            assert(whole@.skip(start as int).drop_first() =~= whole@.skip(start + 1));
        }
        start += 1;
    }
    proof {
        assert(whole@.skip(start as int) =~= whole@.subrange(start as int, letters.len() as int));
    }
    whole.as_str().substring_char(start, letters.len()).to_owned()
}

/// Whether a character is a digit.
pub open spec fn is_digit(letter: char) -> bool {
    '0' <= letter <= '9'
}

/// Whether a text is digits and nothing else.
pub open spec fn all_digits(text: Seq<char>) -> bool {
    text.len() > 0 && forall|i: int| 0 <= i < text.len() ==> is_digit(#[trigger] text[i])
}

/// The value of a row of digits.
pub open spec fn value(text: Seq<char>) -> nat
    decreases text.len(),
{
    if text.len() == 0 {
        0
    } else {
        (value(text.drop_last()) * 10 + (text.last() as int - '0' as int)) as nat
    }
}

/// The number that a text writes in decimal notation, perhaps after a plus.
pub open spec fn natural(text: Seq<char>) -> Option<nat> {
    let digits = if text.len() > 0 && text[0] == '+' {
        text.drop_first()
    } else {
        text
    };
    if all_digits(digits) {
        Some(value(digits))
    } else {
        None
    }
}

/// The number that a text writes in decimal notation, perhaps after a sign.
pub open spec fn integer(text: Seq<char>) -> Option<int> {
    if text.len() > 0 && text[0] == '-' {
        if all_digits(text.drop_first()) {
            Some(-(value(text.drop_first()) as int))
        } else {
            None
        }
    } else {
        match natural(text) {
            Some(n) => Some(n as int),
            None => None,
        }
    }
}

/// A number, unless it is too large.
pub open spec fn at_most(n: Option<nat>, most: nat) -> Option<nat> {
    match n {
        Some(n) if n <= most => Some(n),
        _ => None,
    }
}

/// The value of the digits from `from` on: `None` where something is no digit,
/// and the largest value there is where the value is too large.
fn digits_from(letters: &Vec<char>, from: usize) -> (found: Option<u128>)
    requires
        from <= letters.len(),
    ensures
        found is Some <==> all_digits(letters@.skip(from as int)),
        found matches Some(n) ==> if value(letters@.skip(from as int)) <= u64::MAX {
            n == value(letters@.skip(from as int))
        } else {
            n > u64::MAX
        },
{
    let ghost digits = letters@.skip(from as int);
    if from == letters.len() {
        return None;
    }
    let mut n: u128 = 0;
    let mut index: usize = from;
    while index < letters.len()
        invariant
            from <= index <= letters.len(),
            digits == letters@.skip(from as int),
            forall|i: int| 0 <= i < index - from ==> is_digit(#[trigger] digits[i]),
            value(digits.take(index - from)) <= u64::MAX ==> n == value(
                digits.take(index - from),
            ),
            value(digits.take(index - from)) > u64::MAX ==> n > u64::MAX,
            n <= 0xffff_ffff_ffff_ffff_ffff,
        decreases letters.len() - index,
    {
        let letter = letters[index];
        proof {
            assert(letter == digits[index - from]);
            assert(digits.take(index - from + 1).drop_last() =~= digits.take(index - from));
            assert(digits.take(index - from + 1).last() == letter);
        }
        if letter < '0' || '9' < letter {
            return None;
        }
        if n <= 0xffff_ffff_ffff_ffff {
            n = n * 10 + (letter as u32 - 48) as u128;
        }
        index += 1;
    }
    proof {
        assert(digits.take(index - from) =~= digits);
    }
    Some(n)
}

/// Reads a number in decimal notation, perhaps after a plus.
pub fn parse_natural(text: &str) -> (found: Option<u64>)
    ensures
        (match found {
            Some(n) => Some(n as nat),
            None => None,
        }) == at_most(natural(text@), u64::MAX as nat),
{
    let letters = letters(text);
    let from: usize = if letters.len() > 0 && letters[0] == '+' {
        1
    } else {
        0
    };
    proof {
        assert(text@.skip(0) =~= text@);
        if text@.len() > 0 {
            assert(text@.skip(1) =~= text@.drop_first());
        }
    }
    match digits_from(&letters, from) {
        Some(n) => if n <= 0xffff_ffff_ffff_ffff {
            Some(n as u64)
        } else {
            None
        },
        None => None,
    }
}

/// Reads a number that fits in 32 bits, perhaps after a plus.
pub fn parse_u32(text: &str) -> (found: Option<u32>)
    ensures
        (match found {
            Some(n) => Some(n as nat),
            None => None,
        }) == at_most(natural(text@), u32::MAX as nat),
{
    match parse_natural(text) {
        Some(n) => if n <= 0xffff_ffff {
            Some(n as u32)
        } else {
            None
        },
        None => None,
    }
}

/// Reads a number that fits in the machine's size of addresses, perhaps after a
/// plus.
pub fn parse_usize(text: &str) -> (found: Option<usize>)
    ensures
        (match found {
            Some(n) => Some(n as nat),
            None => None,
        }) == at_most(natural(text@), usize::MAX as nat),
{
    match parse_natural(text) {
        Some(n) => if n <= usize::MAX as u64 {
            Some(n as usize)
        } else {
            None
        },
        None => None,
    }
}

/// Reads a signed number that fits in 32 bits.
pub fn parse_i32(text: &str) -> (found: Option<i32>)
    ensures
        (match found {
            Some(n) => Some(n as int),
            None => None,
        }) == (match integer(text@) {
            Some(n) if i32::MIN <= n <= i32::MAX => Some(n),
            _ => None,
        }),
{
    let letters = letters(text);
    if letters.len() > 0 && letters[0] == '-' {
        proof {
            assert(text@.skip(1) =~= text@.drop_first());
        }
        return match digits_from(&letters, 1) {
            Some(n) => if n <= 0x8000_0000 {
                Some((-(n as i64)) as i32)
            } else {
                None
            },
            None => None,
        };
    }
    match parse_natural(text) {
        Some(n) => if n <= 0x7fff_ffff {
            Some(n as i32)
        } else {
            None
        },
        None => None,
    }
}

/// A number that is written is read back.
pub proof fn law_what_is_written_is_read(n: nat)
    ensures
        natural(decimal(n)) == Some(n),
        integer(signed(n as int)) == Some(n as int),
        n > 0 ==> integer(signed(-(n as int))) == Some(-(n as int)),
{
    lemma_decimal(n);
    let digits = decimal(n);
    assert(is_digit(digits[0]));
    if n > 0 {
        assert((seq!['-'] + digits).drop_first() =~= digits);
        assert((seq!['-'] + digits)[0] == '-');
    }
}

pub(crate) proof fn lemma_decimal(n: nat)
    ensures
        all_digits(decimal(n)),
        value(decimal(n)) == n,
    decreases n,
{
    if n < 10 {
        assert(seq![digit(n as int)].drop_last() =~= seq![]);
        assert(value(seq![]) == 0);
    } else {
        lemma_decimal(n / 10);
        assert(decimal(n).drop_last() =~= decimal(n / 10));
        assert(decimal(n).last() == digit(n as int % 10));
    }
}

/// Decimal notation: a digit is the character that many after `0`, and another digit
/// at the end makes a number ten times as large and the digit more.
pub proof fn law_decimal_notation_has_ten_digits(n: nat, d: int, text: Seq<char>)
    requires
        0 <= d < 10,
    ensures
        digit(d) as int == 48 + d,
        decimal(d as nat) == seq![digit(d)],
        n > 0 ==> decimal((10 * n + d) as nat) == decimal(n).push(digit(d)),
        value(text.push(digit(d))) == 10 * value(text) + d,
        signed(n as int) == decimal(n),
        n > 0 ==> signed(-n) == seq!['-'] + decimal(n),
{
    assert(text.push(digit(d)).drop_last() =~= text);
    if n > 0 {
        assert((10 * n + d) / 10 == n as int);
        assert((10 * n + d) % 10 == d);
    }
}

/// What a row of hexadecimal digits comes to.
pub open spec fn hex_value(text: Seq<char>) -> int
    decreases text.len(),
{
    if text.len() == 0 {
        0
    } else {
        16 * hex_value(text.drop_last()) + if '0' <= text.last() <= '9' {
            text.last() as int - '0' as int
        } else {
            text.last() as int - 'a' as int + 10
        }
    }
}

/// A key is written in as many hexadecimal digits as are asked for, and read back from
/// them.
pub proof fn law_a_key_is_read_back(n: nat, width: nat)
    ensures
        hex(n, width).len() == width,
        width == 16 && n <= u64::MAX ==> hex_value(hex(n, width)) == n,
        forall|i: int|
            0 <= i < width ==> is_digit(#[trigger] hex(n, width)[i]) || 'a' <= hex(n, width)[i]
                <= 'f',
{
    lemma_hex(n, width);
    if width == 16 && n <= u64::MAX {
        assert(vstd::arithmetic::power::pow(16, 16) == 0x1_0000_0000_0000_0000) by {
            reveal_with_fuel(vstd::arithmetic::power::pow, 17);
        }
    }
}

proof fn lemma_hex(n: nat, width: nat)
    ensures
        hex(n, width).len() == width,
        n < vstd::arithmetic::power::pow(16, width) ==> hex_value(hex(n, width)) == n,
        forall|i: int|
            0 <= i < width ==> is_digit(#[trigger] hex(n, width)[i]) || 'a' <= hex(n, width)[i]
                <= 'f',
    decreases width,
{
    reveal(vstd::arithmetic::power::pow);
    if width > 0 {
        lemma_hex(n / 16, (width - 1) as nat);
        assert(hex(n, width).drop_last() =~= hex(n / 16, (width - 1) as nat));
    }
}

/// A text is padded with blanks in front of it, up to a width, and is never cut.
pub proof fn law_padding_goes_in_front(text: Seq<char>, width: nat)
    ensures
        padded(text, width).len() == if text.len() < width {
            width
        } else {
            text.len()
        },
        padded(text, width).skip(padded(text, width).len() - text.len()) == text,
        forall|i: int|
            0 <= i < padded(text, width).len() - text.len() ==> #[trigger] padded(text, width)[i]
                == ' ',
    decreases width - text.len(),
{
    if text.len() < width {
        let longer = seq![' '] + text;
        law_padding_goes_in_front(longer, width);
        let whole = padded(text, width);
        let at = whole.len() - text.len();
        assert(whole.skip(at - 1) == longer);
        assert(whole.skip(at) =~= longer.skip(1));
        assert(longer.skip(1) =~= text);
        assert(whole[at - 1] == whole.skip(at - 1)[0]);
    } else {
        assert(text.skip(0) =~= text);
    }
}

/// Trimming takes white space off the ends of a text and nothing else, and leaves none
/// there.
pub proof fn law_trimming_takes_off_white_space(text: Seq<char>)
    ensures
        trimmed_end(text).len() <= text.len(),
        trimmed_end(text) == text.take(trimmed_end(text).len() as int),
        forall|i: int| trimmed_end(text).len() <= i < text.len() ==> is_space(#[trigger] text[i]),
        trimmed_end(text).len() > 0 ==> !is_space(trimmed_end(text).last()),
        trimmed_start(text).len() <= text.len(),
        trimmed_start(text) == text.skip(text.len() - trimmed_start(text).len()),
        forall|i: int|
            0 <= i < text.len() - trimmed_start(text).len() ==> is_space(#[trigger] text[i]),
        trimmed_start(text).len() > 0 ==> !is_space(trimmed_start(text)[0]),
    decreases text.len(),
{
    if text.len() > 0 && is_space(text.last()) {
        law_trimming_takes_off_white_space(text.drop_last());
        let n = trimmed_end(text).len() as int;
        assert(text.drop_last().take(n) =~= text.take(n));
        assert forall|i: int| n <= i < text.len() implies is_space(#[trigger] text[i]) by {
            if i < text.len() - 1 {
                assert(text.drop_last()[i] == text[i]);
            }
        }
    } else {
        assert(text.take(text.len() as int) =~= text);
    }
    if text.len() > 0 && is_space(text[0]) {
        let rest = text.drop_first();
        law_trimming_takes_off_white_space(rest);
        let n = trimmed_start(text).len();
        assert(rest.skip(rest.len() - n) =~= text.skip(text.len() - n));
        assert forall|i: int| 0 <= i < text.len() - n implies is_space(#[trigger] text[i]) by {
            if i > 0 {
                assert(rest[i - 1] == text[i]);
            }
        }
    } else {
        assert(text.skip(0) =~= text);
    }
}

/// Whether a text is one word: something, and no white space in it.
pub open spec fn is_word(text: Seq<char>) -> bool {
    text.len() > 0 && spaceless(text)
}

/// A word is the only one in it.
pub proof fn law_a_word_is_one_word(word: Seq<char>)
    requires
        is_word(word),
    ensures
        words(word) == seq![word],
{
    lemma_split_word(word, word.len());
    assert(word.take(word.len() as int) =~= word);
    assert(words(word) =~= seq![word]);
}

proof fn lemma_split_word(word: Seq<char>, n: nat)
    requires
        spaceless(word),
        n <= word.len(),
    ensures
        split(word, n) == (Seq::<Seq<char>>::empty(), word.take(n as int)),
    decreases n,
{
    if n == 0 {
        assert(word.take(0) =~= seq![]);
    } else {
        lemma_split_word(word, (n - 1) as nat);
        assert(!is_space(word[n - 1]));
        assert(word.take(n - 1).push(word[n - 1]) =~= word.take(n as int));
    }
}

/// Words that are joined are found again.
pub proof fn law_joined_words_are_found_again(list: Seq<Seq<char>>)
    requires
        forall|i: int| 0 <= i < list.len() ==> is_word(#[trigger] list[i]),
    ensures
        words(joined(list)) == list,
    decreases list.len(),
{
    if list.len() == 0 {
        assert(words(joined(list)) =~= list);
    } else if list.len() == 1 {
        law_a_word_is_one_word(list[0]);
        assert(seq![list[0]] =~= list);
    } else {
        let before = list.drop_last();
        assert forall|i: int| 0 <= i < before.len() implies is_word(#[trigger] before[i]) by {
            assert(before[i] == list[i]);
        }
        law_joined_words_are_found_again(before);
        law_a_word_is_one_word(list.last());
        law_words_of_two_texts(joined(before), ' ', list.last());
        assert(before + seq![list.last()] =~= list);
    }
}

/// A number is one word.
pub proof fn law_a_number_is_one_word(n: int)
    ensures
        is_word(signed(n)),
        n >= 0 ==> is_word(decimal(n as nat)),
{
    if n >= 0 {
        lemma_decimal(n as nat);
        assert forall|i: int| 0 <= i < decimal(n as nat).len() implies !is_space(
            #[trigger] decimal(n as nat)[i],
        ) by {
            assert(is_digit(decimal(n as nat)[i]));
        }
    } else {
        let m = (-n) as nat;
        lemma_decimal(m);
        assert forall|i: int| 0 <= i < signed(n).len() implies !is_space(#[trigger] signed(n)[i]) by {
            if i > 0 {
                assert(is_digit(decimal(m)[i - 1]));
                assert(signed(n)[i] == decimal(m)[i - 1]);
            }
        }
    }
}

/// A word is looked for from the front: it is found where it first stands, and not
/// found just where it does not stand at all.
pub proof fn law_a_word_is_found_where_it_first_stands(
    words: Seq<Seq<char>>,
    word: Seq<char>,
    from: nat,
)
    ensures
        first(words, word, from) matches Some(at) ==> {
            &&& from <= at < words.len()
            &&& words[at as int] == word
            &&& forall|i: int| from <= i < at ==> #[trigger] words[i] != word
        },
        first(words, word, from) is None ==> forall|i: int|
            from <= i < words.len() ==> #[trigger] words[i] != word,
    decreases words.len() - from,
{
    if from < words.len() {
        law_a_word_is_found_where_it_first_stands(words, word, from + 1);
    }
}

/// Small letters are the letters of ASCII, 32 characters on; nothing else changes, and
/// what is small stays so.
pub proof fn law_small_letters(text: Seq<char>, i: int)
    requires
        0 <= i < text.len(),
    ensures
        small_letters(text).len() == text.len(),
        'A' <= text[i] <= 'Z' ==> small_letters(text)[i] as int == text[i] as int + 32,
        !('A' <= text[i] <= 'Z') ==> small_letters(text)[i] == text[i],
{
}

} // verus!
