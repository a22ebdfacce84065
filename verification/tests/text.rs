use cch::cli::{is_known_word, is_shorthand_save};
use cch::position::{parse_position, position_text, Position};
use cch::render::{display_time, entry, listing, short_id};
use cch::resolve::{resolve, Resolution};
use cch::session::Session;
use cch::text::{chars_contain, chars_equal, chars_occur_at, chars_ordered, contains, to_chars};

#[test]
fn to_chars_gives_each_character() {
    assert_eq!(to_chars("héllo"), vec!['h', 'é', 'l', 'l', 'o']);
    assert_eq!(to_chars(""), Vec::<char>::new());
}

#[test]
fn contains_finds_parts() {
    assert!(contains("abc123", "abc"));
    assert!(contains("abc123", "123"));
    assert!(contains("abc123", "c1"));
    assert!(contains("abc123", "abc123"));
    assert!(contains("abc123", ""));
    assert!(contains("", ""));
    assert!(!contains("abc123", "abd"));
    assert!(!contains("abc", "abcd"));
    assert!(!contains("", "a"));
    assert!(!contains("aab", "aba"));
    assert!(contains("aaab", "aab"));
}

#[test]
fn contains_tells_case_apart() {
    assert!(!contains("Fix Bug", "fix"));
    assert!(contains("Fix Bug", "Fix"));
}

#[test]
fn contains_takes_wildcard_characters_literally() {
    assert!(!contains("abc", "a%c"));
    assert!(!contains("abc", "a_c"));
    assert!(contains("a%c", "%"));
}

#[test]
fn chars_helpers_agree_with_std() {
    let hay = to_chars("session");
    let needle = to_chars("ssi");
    assert!(chars_contain(&hay, &needle));
    assert!(chars_occur_at(&hay, &needle, 2));
    assert!(!chars_occur_at(&hay, &needle, 0));
    assert!(chars_equal(&hay, &to_chars("session")));
    assert!(!chars_equal(&hay, &to_chars("sessiom")));
    assert!(!chars_equal(&hay, &to_chars("sessio")));
}

#[test]
fn order_is_lexicographic() {
    let le = |a: &str, b: &str| chars_ordered(&to_chars(a), &to_chars(b));
    assert!(le("", ""));
    assert!(le("", "a"));
    assert!(!le("a", ""));
    assert!(le("abc", "abc"));
    assert!(le("abc", "abd"));
    assert!(!le("abd", "abc"));
    assert!(le("ab", "abc"));
    assert!(!le("abc", "ab"));
    assert!(le("2024-01-01T10:00:00.000000", "2024-01-01T10:00:00.000001"));
    assert!(!le("2024-01-02", "2024-01-01T23"));
    assert!(le("Z", "a"));
    assert!(le("z", "é"));
}

#[test]
fn position_reads_decimal_numbers() {
    assert_eq!(parse_position("1"), Position::At(1));
    assert_eq!(parse_position("2"), Position::At(2));
    assert_eq!(parse_position("42"), Position::At(42));
    assert_eq!(parse_position("007"), Position::At(7));
    assert_eq!(parse_position("+5"), Position::At(5));
    assert_eq!(parse_position("1234567890"), Position::At(1234567890));
}

#[test]
fn zero_is_no_position() {
    assert_eq!(parse_position("0"), Position::Absent);
    assert_eq!(parse_position("00"), Position::Absent);
    assert_eq!(parse_position("+0"), Position::Absent);
    assert_eq!(parse_position("0000000000000000000000000000000000000000"), Position::Absent);
}

#[test]
fn position_refuses_other_text() {
    assert_eq!(parse_position(""), Position::Absent);
    assert_eq!(parse_position("+"), Position::Absent);
    assert_eq!(parse_position("-1"), Position::Absent);
    assert_eq!(parse_position("++1"), Position::Absent);
    assert_eq!(parse_position("id1"), Position::Absent);
    assert_eq!(parse_position("12a"), Position::Absent);
    assert_eq!(parse_position(" 1"), Position::Absent);
    assert_eq!(parse_position("1 "), Position::Absent);
    assert_eq!(parse_position("1.0"), Position::Absent);
    assert_eq!(parse_position("١"), Position::Absent);
}

#[test]
fn position_beyond_the_machine_word() {
    let max = usize::MAX.to_string();
    assert_eq!(parse_position(&max), Position::At(usize::MAX));
    assert_eq!(parse_position(&format!("000{}", max)), Position::At(usize::MAX));
    assert_eq!(parse_position(&format!("{}0", max)), Position::Beyond);
    assert_eq!(parse_position("99999999999999999999999999999999999999999"), Position::Beyond);
    assert_eq!(parse_position("+99999999999999999999999999999999999999999"), Position::Beyond);
    let mut above = max.clone().into_bytes();
    let last = above.len() - 1;
    above[last] += 1;
    assert_eq!(parse_position(&String::from_utf8(above).unwrap()), Position::Beyond);
}

#[test]
fn digits_too_many_with_another_character_are_no_position() {
    assert_eq!(parse_position("99999999999999999999999999999999999999999x"), Position::Absent);
    assert_eq!(parse_position("x99999999999999999999999999999999999999999"), Position::Absent);
    assert_eq!(parse_position("9999999999999999999999-999999999999999999"), Position::Absent);
}

#[test]
fn position_agrees_with_std_where_it_fits_and_is_positive() {
    for text in ["1", "10", "+3", "-3", "", "+", "a", "1a", "01", "18446744073709551615"] {
        let expected = match text.parse::<usize>() {
            Ok(n) => Position::At(n),
            Err(_) => Position::Absent,
        };
        assert_eq!(parse_position(text), expected);
    }
}

#[test]
fn time_is_shown_to_the_minute() {
    assert_eq!(display_time("2024-05-01T09:30:00.123456"), "2024-05-01 09:30");
    assert_eq!(display_time("2024-05-01T09:30"), "2024-05-01 09:30");
    assert_eq!(display_time("2024-05-01 09:30:00"), "2024-05-01 09:30");
    assert_eq!(display_time("2024T"), "2024 ");
    assert_eq!(display_time(""), "");
    assert_eq!(display_time("TTTTTTTTTTTTTTTTTT"), "                ");
}

#[test]
fn id_is_abridged_to_eight_characters() {
    assert_eq!(short_id("abcdefghij"), "abcdefgh");
    assert_eq!(short_id("abcdefgh"), "abcdefgh");
    assert_eq!(short_id("abc"), "abc");
    assert_eq!(short_id(""), "");
}

#[test]
fn known_words_of_the_command_line() {
    for word in ["save", "s", "ls", "list", "find", "f", "resume", "r", "rm", "del", "web", "w", "-h", "--help", "help"] {
        assert!(is_known_word(word));
    }
    for word in ["", "Save", "saves", "abc123", "-n", "--port", "delete"] {
        assert!(!is_known_word(word));
    }
}

#[test]
fn short_form_of_a_save() {
    let args = |words: &[&str]| words.iter().map(|w| w.to_string()).collect::<Vec<String>>();
    assert!(is_shorthand_save(&args(&["cch", "abc123", "Fix bug"])));
    assert!(is_shorthand_save(&args(&["cch", "abc123", "Fix bug", "more"])));
    assert!(!is_shorthand_save(&args(&["cch", "save", "abc123", "Fix bug"])));
    assert!(!is_shorthand_save(&args(&["cch", "ls", "-n"])));
    assert!(!is_shorthand_save(&args(&["cch", "abc123"])));
    assert!(!is_shorthand_save(&args(&["cch"])));
    assert!(!is_shorthand_save(&args(&[])));
}

#[test]
fn position_is_written_in_decimal() {
    assert_eq!(position_text(0), "0");
    assert_eq!(position_text(7), "7");
    assert_eq!(position_text(10), "10");
    assert_eq!(position_text(1234567890), "1234567890");
    assert_eq!(position_text(usize::MAX), usize::MAX.to_string());
}

#[test]
fn written_position_reads_back() {
    for n in [1usize, 9, 10, 99, 100, 4096, usize::MAX] {
        assert_eq!(parse_position(&position_text(n)), Position::At(n));
    }
    assert_eq!(parse_position(&position_text(0)), Position::Absent);
}

#[test]
fn entry_of_a_listing() {
    let s = Session::new("abc123", "Fix bug", "/work", "2024-05-01T09:30:00.123456");
    assert_eq!(
        entry(1, &s, "resume-tool"),
        "[1] Fix bug\n    ID:  abc123\n    Cmd: resume-tool --resume abc123 --dangerously-skip-permissions\n    Dir: /work  (2024-05-01 09:30)\n"
    );
}

#[test]
fn listing_numbers_entries_and_parts_them() {
    let rows = vec![
        Session::new("b", "B", "/b", "2024-01-02T00:00:00.000000"),
        Session::new("a", "A", "/a", "2024-01-01T00:00:00.000000"),
    ];
    assert_eq!(
        listing(&rows, "go"),
        "[1] B\n    ID:  b\n    Cmd: go --resume b --dangerously-skip-permissions\n    Dir: /b  (2024-01-02 00:00)\n\n[2] A\n    ID:  a\n    Cmd: go --resume a --dangerously-skip-permissions\n    Dir: /a  (2024-01-01 00:00)\n"
    );
    assert_eq!(listing(&Vec::new(), "go"), "");
    assert_eq!(listing(&rows[..1].to_vec(), "go"), entry(1, &rows[0], "go"));
}

#[test]
fn listed_number_resolves_to_the_listed_record() {
    let rows = vec![
        Session::new("3", "C", "/", "2024-01-03"),
        Session::new("1", "A", "/", "2024-01-02"),
        Session::new("2", "B", "/", "2024-01-01"),
    ];
    for (k, row) in rows.iter().enumerate() {
        match resolve(&rows, &position_text(k + 1)) {
            Resolution::Found(s) => assert_eq!(s.id, row.id),
            other => panic!("no record: {:?}", other),
        }
    }
}
