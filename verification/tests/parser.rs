use fan_bd::loot::LootDetectionMode;
use fan_bd::parser::{
    amount_after, find_char, find_separator, read_digits, read_time_part, scan_chat, separates,
    ChatFields,
};
use fan_bd::text::{
    chars_of, decimal_chars, digit_of, ends_with, extract_number, is_ocr_misread,
    normalize_spaces, same_text, starts_with, text_of, to_title_case,
};
use fan_bd::tracker::BlackDesertLootTracker;

fn chat(line: &str) -> Option<(String, u64, u8, u8)> {
    BlackDesertLootTracker::parse_loot(LootDetectionMode::OCRChatLootViaStream, &line.to_string())
        .map(|d| (d.name, d.amount, d.hour, d.minute))
}

fn drop_log(line: &str) -> Option<(String, u64, u8, u8)> {
    BlackDesertLootTracker::parse_loot(LootDetectionMode::OCRDropLogViaStream, &line.to_string())
        .map(|d| (d.name, d.amount, d.hour, d.minute))
}

#[test]
fn chat_line_with_amount_and_time() {
    assert_eq!(
        chat("You have obtained [Black Stone]x7. (16:08)"),
        Some(("Black Stone".to_string(), 7, 16, 8))
    );
}

#[test]
fn chat_line_without_amount() {
    assert_eq!(
        chat("You have obtained  [Black Stone].(16:08)"),
        Some(("Black Stone".to_string(), 1, 16, 8))
    );
}

#[test]
fn chat_line_with_many_spaces() {
    assert_eq!(
        chat("  You   have obtained  [Black Stone]x7. (16:08) "),
        Some(("Black Stone".to_string(), 7, 16, 8))
    );
}

#[test]
fn chat_line_without_time() {
    assert_eq!(
        chat("You have obtained  [Black Stone]x7."),
        Some(("Black Stone".to_string(), 7, 0, 0))
    );
}

#[test]
fn chat_line_name_in_title_case() {
    assert_eq!(
        chat("You have obtained [black STONE]x12 (01:59)"),
        Some(("Black Stone".to_string(), 12, 1, 59))
    );
}

#[test]
fn chat_line_amount_of_nought_counts_as_one() {
    assert_eq!(
        chat("You have obtained [Black Stone]x0. (16:08)"),
        Some(("Black Stone".to_string(), 1, 16, 8))
    );
}

#[test]
fn chat_line_amount_digits_are_no_time() {
    // the digit that stands right before the parenthesis is the amount's
    assert_eq!(
        chat("You have obtained [Black Stone]x7(16:08)"),
        Some(("Black Stone".to_string(), 7, 16, 8))
    );
}

#[test]
fn chat_line_hour_without_minute() {
    assert_eq!(
        chat("You have obtained [Black Stone]x7. (16)"),
        Some(("Black Stone".to_string(), 7, 16, 0))
    );
}

#[test]
fn chat_line_seconds_are_passed_over() {
    assert_eq!(
        chat("You have obtained [Black Stone]x7. (16:08:55)"),
        Some(("Black Stone".to_string(), 7, 16, 8))
    );
}

#[test]
fn chat_line_that_is_none() {
    assert_eq!(chat(""), None);
    assert_eq!(chat("CRITICAL"), None);
    assert_eq!(chat("You have obtained Black Stone x7. (16:08)"), None);
    assert_eq!(chat("You have obtained []x7. (16:08)"), None);
    assert_eq!(chat("You have obtained [Black Stone x7. (16:08)"), None);
    assert_eq!(chat("You have obtained Black Stone]x7. (16:08)"), None);
    assert_eq!(chat("you have obtained [Black Stone]x7. (16:08)"), None);
    assert_eq!(chat("He said: You have obtained [Black Stone]x7. (16:08)"), None);
}

#[test]
fn chat_line_amount_wraps() {
    // 2^64 + 5 read in 64 bits is 5
    assert_eq!(
        chat("You have obtained [Black Stone]x18446744073709551621 (16:08)"),
        Some(("Black Stone".to_string(), 5, 16, 8))
    );
}

#[test]
fn chat_line_time_of_day_is_in_range() {
    let line = |time: &str| format!("You have obtained [Black Stone]x7 {}", time);
    let time = |t: &str| chat(&line(t)).map(|e| (e.2, e.3));
    assert_eq!(time("(00:00)"), Some((0, 0)));
    assert_eq!(time("(23:59)"), Some((23, 59)));
    assert_eq!(time("(007:005)"), Some((7, 5)));
    // numbers that are no time of day give the event without a time
    assert_eq!(time("(24:00)"), Some((0, 0)));
    assert_eq!(time("(23:60)"), Some((0, 0)));
    assert_eq!(time("(99:99)"), Some((0, 0)));
    assert_eq!(time("(300:257)"), Some((0, 0)));
    assert_eq!(time("(256:00)"), Some((0, 0)));
    assert_eq!(time("(12:18446744073709551616)"), Some((0, 0)));
    assert_eq!(time("(25)"), Some((0, 0)));
    assert_eq!(
        chat("You have obtained[A](99:99)"),
        Some(("A".to_string(), 1, 0, 0))
    );
}

#[test]
fn chat_line_beyond_ascii() {
    assert_eq!(
        chat("You have obtained [\u{e9}toile noire]x3 (07:05)"),
        Some(("\u{c9}toile Noire".to_string(), 3, 7, 5))
    );
    assert_eq!(chat("You have obtained \u{e9}\u{e9}\u{e9}\u{e9}"), None);
}

#[test]
fn drop_log_lines() {
    assert_eq!(drop_log("Silverx100"), Some(("Silver".to_string(), 100, 0, 0)));
    assert_eq!(drop_log("silver x100"), Some(("Silver".to_string(), 100, 0, 0)));
    assert_eq!(
        drop_log(" Swamp Leaves x 1"),
        Some(("Swamp Leaves".to_string(), 1, 0, 0))
    );
    assert_eq!(
        drop_log("SWAMP   leaves X 25 pcs 7"),
        Some(("Swamp Leaves".to_string(), 25, 0, 0))
    );
}

#[test]
fn drop_log_takes_the_last_separator() {
    assert_eq!(drop_log("Max Box x 3"), Some(("Max Box".to_string(), 3, 0, 0)));
    assert_eq!(drop_log("Onyx x2"), Some(("Onyx".to_string(), 2, 0, 0)));
}

#[test]
fn drop_log_lines_that_are_none() {
    assert_eq!(drop_log(""), None);
    assert_eq!(drop_log("x"), None);
    assert_eq!(drop_log("CRITICAL"), None);
    assert_eq!(drop_log("Silver 100"), None);
    assert_eq!(drop_log("Silver x"), None);
    assert_eq!(drop_log("Silver x none"), None);
    assert_eq!(drop_log("Silver x 0"), None);
    // a separator in the first place parts nothing
    assert_eq!(drop_log("x100"), None);
}

#[test]
fn drop_log_beyond_ascii() {
    assert_eq!(
        drop_log("\u{e9}toile x 4"),
        Some(("\u{c9}toile".to_string(), 4, 0, 0))
    );
}

#[test]
fn multiple_parse_keeps_order_and_drops_the_rest() {
    let lines = vec![
        "You have obtained [Black Stone]x7. (16:08)".to_string(),
        "CRITICAL".to_string(),
        "You have obtained [Old Moon Ore]x2. (16:09)".to_string(),
        "".to_string(),
    ];
    let got = BlackDesertLootTracker::multiple_parse_loot(
        LootDetectionMode::OCRChatLootViaStream,
        &lines,
    );
    let got: Vec<(String, u64)> = got.into_iter().map(|d| (d.name, d.amount)).collect();
    assert_eq!(
        got,
        vec![("Black Stone".to_string(), 7), ("Old Moon Ore".to_string(), 2)]
    );
    let none = BlackDesertLootTracker::multiple_parse_loot(
        LootDetectionMode::OCRDropLogViaStream,
        &Vec::new(),
    );
    assert!(none.is_empty());
}

#[test]
fn parse_loot_drop_logs_directly() {
    let d = BlackDesertLootTracker::parse_loot_drop_logs("Silverx100").unwrap();
    assert_eq!(d.name, "Silver");
    assert_eq!(d.amount, 100);
    let d = BlackDesertLootTracker::parse_loot_chat("You have obtained [Black Stone]").unwrap();
    assert_eq!(d.name, "Black Stone");
    assert_eq!(d.amount, 1);
}

#[test]
fn title_case() {
    assert_eq!(to_title_case("title"), "Title");
    assert_eq!(to_title_case("title Title title"), "Title Title Title");
    assert_eq!(to_title_case("  tITLE \t cASE  "), "Title Case");
    assert_eq!(to_title_case("TITLE"), "Title");
    assert_eq!(to_title_case(""), "");
    assert_eq!(to_title_case("   "), "");
    // one character may become several
    assert_eq!(to_title_case("\u{df}a"), "SSa");
}

fn in_whitespace_table(c: char) -> bool {
    matches!(
        c,
        ' ' | '\u{9}'..='\u{D}'
            | '\u{85}'
            | '\u{A0}'
            | '\u{1680}'
            | '\u{2000}'..='\u{200A}'
            | '\u{2028}'..='\u{2029}'
            | '\u{202F}'
            | '\u{205F}'
            | '\u{3000}'
    )
}

#[test]
fn whitespace_is_the_ten_ranges() {
    let mut buffer = String::new();
    for code in 0..=0x10FFFFu32 {
        if let Some(c) = char::from_u32(code) {
            buffer.clear();
            buffer.push('a');
            buffer.push(c);
            buffer.push('b');
            let parted = normalize_spaces(&buffer) == "a b";
            assert_eq!(parted, in_whitespace_table(c), "U+{:04X}", code);
        }
    }
}

#[test]
fn spaces_normalised() {
    assert_eq!(normalize_spaces("  a   b \t\n c  "), "a b c");
    assert_eq!(normalize_spaces("a"), "a");
    assert_eq!(normalize_spaces(""), "");
    assert_eq!(normalize_spaces(" \t "), "");
    assert_eq!(normalize_spaces("a\u{a0}b\u{3000}c"), "a b c");
}

#[test]
fn numbers_extracted() {
    assert_eq!(extract_number(" 100"), Some(100));
    assert_eq!(extract_number("abc 12 34"), Some(12));
    assert_eq!(extract_number("007"), Some(7));
    assert_eq!(extract_number("0"), Some(0));
    assert_eq!(extract_number(""), None);
    assert_eq!(extract_number("none"), None);
    assert_eq!(extract_number("18446744073709551615"), Some(u64::MAX));
    assert_eq!(extract_number("18446744073709551616"), Some(0));
    assert_eq!(extract_number("\u{e9}9"), Some(9));
}

#[test]
fn misread_rule() {
    assert!(is_ocr_misread("191", "1"));
    assert!(is_ocr_misread("191", "19"));
    assert!(!is_ocr_misread("191", "191"));
    assert!(!is_ocr_misread("191", "91"));
    assert!(!is_ocr_misread("19", "191"));
    assert!(is_ocr_misread("191", ""));
    assert!(!is_ocr_misread("", ""));
}

#[test]
fn decimal_digits() {
    let s: String = decimal_chars(0).into_iter().collect();
    assert_eq!(s, "0");
    let s: String = decimal_chars(1905).into_iter().collect();
    assert_eq!(s, "1905");
    let s: String = decimal_chars(u64::MAX).into_iter().collect();
    assert_eq!(s, "18446744073709551615");
    assert_eq!(digit_of('7'), Some(7));
    assert_eq!(digit_of('0'), Some(0));
    assert_eq!(digit_of('a'), None);
    assert_eq!(digit_of('\u{663}'), None);
}

#[test]
fn text_helpers() {
    let v = chars_of("h\u{e9}llo");
    assert_eq!(v, vec!['h', '\u{e9}', 'l', 'l', 'o']);
    assert_eq!(text_of(&v, 1, 3), "\u{e9}l");
    assert_eq!(text_of(&v, 2, 2), "");
    assert!(starts_with(&v, &chars_of("h\u{e9}")));
    assert!(starts_with(&v, &chars_of("")));
    assert!(!starts_with(&v, &chars_of("he")));
    assert!(!starts_with(&chars_of("h"), &v));
    assert!(ends_with(&v, &chars_of("llo")));
    assert!(ends_with(&v, &chars_of("")));
    assert!(!ends_with(&v, &chars_of("lo!")));
    assert!(!ends_with(&chars_of("o"), &v));
    assert!(same_text("item", "item"));
    assert!(!same_text("item", "Item"));
    assert!(!same_text("item", "items"));
}

#[test]
fn scanning_helpers() {
    let v = chars_of("a[b]c[d]");
    assert_eq!(find_char(&v, '[', 0), 1);
    assert_eq!(find_char(&v, '[', 2), 5);
    assert_eq!(find_char(&v, '(', 0), 8);
    assert_eq!(find_char(&v, '[', 100), 8);
    let v = chars_of("x7a1 (16:08)");
    assert_eq!(read_digits(&v, 0, 5), 71);
    assert_eq!(read_digits(&v, 2, 2), 0);
    assert_eq!(read_time_part(&v, 5, 8, 23), Some(16));
    assert_eq!(read_time_part(&v, 5, 8, 15), None);
    assert_eq!(read_time_part(&v, 8, 11, 59), Some(8));
    assert_eq!(read_time_part(&v, 2, 2, 0), Some(0));
    assert_eq!(read_time_part(&chars_of("300"), 0, 3, 255), None);
    assert_eq!(read_time_part(&chars_of("255"), 0, 3, 255), Some(255));
    assert_eq!(read_time_part(&chars_of("0059"), 0, 4, 59), Some(59));
    assert_eq!(read_time_part(&chars_of("60"), 0, 2, 59), None);
    assert_eq!(read_time_part(&chars_of("99999999999999999999999"), 0, 23, 59), None);
    assert!(separates('x'));
    assert!(separates('X'));
    assert!(!separates('y'));
    assert!(!separates('\u{d7}'));
    assert_eq!(find_separator(&chars_of("Max Box x 3")), 8);
    assert_eq!(find_separator(&chars_of("xylophone")), 0);
    assert_eq!(find_separator(&chars_of("")), 0);
}

#[test]
fn chat_fields_of_a_normalised_line() {
    let v = chars_of("You have obtained [Black Stone]x7. (16:08)");
    assert_eq!(
        scan_chat(&v),
        Some(ChatFields {
            name_start: 19,
            name_end: 30,
            amount: 7,
            hour: 16,
            minute: 8
        })
    );
    let v = chars_of("You have obtained [B]x7(1:08");
    assert_eq!(
        scan_chat(&v),
        Some(ChatFields {
            name_start: 19,
            name_end: 20,
            amount: 7,
            hour: 1,
            minute: 8
        })
    );
    // the line is taken as it stands: spaces before the marker are not passed over
    assert_eq!(scan_chat(&chars_of(" You have obtained [B]")), None);
    assert_eq!(scan_chat(&chars_of("You have obtained [B")), None);
    assert_eq!(scan_chat(&chars_of("You have obtained []")), None);
    assert_eq!(scan_chat(&chars_of("")), None);
    // a bracket that closes before the first that opens does not count
    assert_eq!(
        scan_chat(&chars_of("You have obtained ]x[B]")),
        Some(ChatFields {
            name_start: 21,
            name_end: 22,
            amount: 1,
            hour: 0,
            minute: 0
        })
    );
}

#[test]
fn amount_after_the_separator() {
    let v = chars_of("Silver x 100 x 3");
    assert_eq!(amount_after(&v, 7), Some(100));
    assert_eq!(amount_after(&v, 13), Some(3));
    assert_eq!(amount_after(&v, 0), None);
    assert_eq!(amount_after(&v, 15), None);
    assert_eq!(amount_after(&v, 16), None);
    assert_eq!(amount_after(&v, 99), None);
    assert_eq!(amount_after(&chars_of("a x 0"), 2), None);
}
