use zero_elo::text::{
    ascii_lowercase, find, join, letters, pad, parse_i32, parse_natural, parse_u32, parse_usize,
    push_hex, push_number, push_signed, says, split_words, trim, trim_end,
};
use zero_elo::OpponentModel;

fn list(words: &[&str]) -> Vec<String> {
    words.iter().map(|word| word.to_string()).collect()
}

#[test]
fn white_space_separates_words() {
    assert_eq!(split_words(""), list(&[]));
    assert_eq!(split_words(" \t "), list(&[]));
    assert_eq!(split_words("go"), list(&["go"]));
    assert_eq!(
        split_words("  joho  debug\ton\r\n"),
        list(&["joho", "debug", "on"])
    );
    assert_eq!(
        split_words("a\u{a0}b\u{3000}\u{e9}"),
        list(&["a", "b", "\u{e9}"]),
        "blanks beyond ASCII count too"
    );
}

#[test]
fn white_space_is_what_unicode_says() {
    let mut found = Vec::new();
    for code in 0..=0x10_ffff {
        if let Some(letter) = char::from_u32(code) {
            let words = split_words(&format!("a{letter}b"));
            assert_eq!(words.len() == 2, letter.is_whitespace(), "{code:x}");
            if words.len() == 2 {
                found.push(code);
            }
        }
    }
    assert_eq!(found.len(), 25);
    assert!(found.contains(&0x85) && found.contains(&0x200a) && !found.contains(&0x200b));
}

#[test]
fn words_are_found_and_joined() {
    let words = list(&["name", "Own", "Moves", "value", "7", "value"]);
    assert_eq!(find(&words, "value"), Some(3));
    assert_eq!(find(&words, "Name"), None);
    assert_eq!(join(&words, 1, 3), "Own Moves");
    assert_eq!(join(&words, 2, 2), "");
    assert!(says(&words[0], "name"));
    assert!(!says(&words[0], "nam"));
    assert_eq!(letters("a\u{e9}b"), ['a', '\u{e9}', 'b']);
}

#[test]
fn blanks_are_trimmed() {
    assert_eq!(trim_end(" a b \n"), " a b");
    assert_eq!(trim(" a b \n"), "a b");
    assert_eq!(trim(" \t"), "");
    assert_eq!(pad("12".to_string(), 5), "   12");
    assert_eq!(pad("123456".to_string(), 5), "123456");
}

#[test]
fn numbers_are_written() {
    let mut text = String::from("n=");
    push_number(&mut text, 0);
    push_number(&mut text, 1_234_567_890_123);
    assert_eq!(text, "n=01234567890123");
    let mut text = String::new();
    push_signed(&mut text, -42);
    push_signed(&mut text, 7);
    push_signed(&mut text, i64::MIN);
    assert_eq!(text, "-427-9223372036854775808");
    let mut text = String::new();
    push_hex(&mut text, 0xdead_beef, 16);
    assert_eq!(text, "00000000deadbeef");
}

#[test]
fn numbers_are_read() {
    assert_eq!(parse_natural("42"), Some(42));
    assert_eq!(parse_natural("+42"), Some(42));
    assert_eq!(parse_natural("007"), Some(7));
    assert_eq!(parse_natural("18446744073709551615"), Some(u64::MAX));
    for text in ["", "+", "-1", "4 2", "4x", "++4", "18446744073709551616"] {
        assert_eq!(parse_natural(text), None, "{text}");
    }
    let long = "9".repeat(60);
    assert_eq!(parse_natural(&long), None);
    assert_eq!(parse_natural(&format!("{}1", "0".repeat(60))), Some(1));
    assert_eq!(parse_u32("4294967295"), Some(u32::MAX));
    assert_eq!(parse_u32("4294967296"), None);
    assert_eq!(parse_usize("64"), Some(64));
    assert_eq!(parse_i32("-2147483648"), Some(i32::MIN));
    assert_eq!(parse_i32("-2147483649"), None);
    assert_eq!(parse_i32("2147483647"), Some(i32::MAX));
    assert_eq!(parse_i32("2147483648"), None);
    assert_eq!(parse_i32("-"), None);
    assert_eq!(parse_i32("-+3"), None);
    assert_eq!(parse_i32("+3"), Some(3));
}

#[test]
fn what_is_written_is_read() {
    for n in [0u64, 9, 10, 99, 1_000_000, u64::MAX] {
        let mut text = String::new();
        push_number(&mut text, n as u128);
        assert_eq!(parse_natural(&text), Some(n));
    }
}

#[test]
fn models_have_names() {
    assert_eq!(ascii_lowercase("PaRaNoid \u{c9}"), "paranoid \u{c9}");
    for name in ["optimistic", "Cooperative", "GREEDY"] {
        assert_eq!(name.parse(), Ok(OpponentModel::Optimistic));
    }
    for name in ["Paranoid", "adversarial", "hostile"] {
        assert_eq!(name.parse(), Ok(OpponentModel::Paranoid));
    }
    assert_eq!(
        OpponentModel::parse("Side\"ways"),
        Err("unknown opponent model \"side\\\"ways\"".to_string())
    );
    assert_eq!(OpponentModel::Optimistic.name(), "Optimistic");
    assert_eq!(OpponentModel::Paranoid.name(), "Paranoid");
}
