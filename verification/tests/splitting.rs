use podgpt::utils::{
    byte_prefix, decimal_string, parse_u64, split_message, truncate, try_split_message, MAX_MESSAGE_LENGTH,
};

#[test]
fn short_message_is_one_piece() {
    let parts = split_message("hello");
    assert_eq!(parts, vec!["hello".to_string()]);
}

#[test]
fn empty_message_is_one_empty_piece() {
    let parts = split_message("");
    assert_eq!(parts, vec![String::new()]);
}

#[test]
fn message_of_exactly_the_limit_is_one_piece() {
    let m = "a".repeat(MAX_MESSAGE_LENGTH);
    let parts = split_message(&m);
    assert_eq!(parts.len(), 1);
    assert_eq!(parts[0], m);
}

#[test]
fn long_message_without_newline_is_cut_at_the_limit() {
    let m = "a".repeat(2000);
    let parts = split_message(&m);
    assert_eq!(parts, vec!["a".repeat(1900), "a".repeat(100)]);
}

#[test]
fn long_message_is_cut_after_the_last_newline() {
    let m = format!("{}\n{}", "a".repeat(1000), "b".repeat(1500));
    let parts = split_message(&m);
    assert_eq!(parts, vec![format!("{}\n", "a".repeat(1000)), "b".repeat(1500)]);
}

#[test]
fn cut_uses_the_last_newline_of_the_window() {
    let m = format!("{}\n{}\n{}", "a".repeat(500), "b".repeat(500), "c".repeat(1500));
    let parts = split_message(&m);
    assert_eq!(parts.len(), 2);
    assert_eq!(parts[0], format!("{}\n{}\n", "a".repeat(500), "b".repeat(500)));
    assert_eq!(parts[1], "c".repeat(1500));
}

#[test]
fn split_keeps_text_and_pieces_fit() {
    let m = format!("{}\n{}\n{}", "x".repeat(3000), "y".repeat(10), "z".repeat(4000));
    let parts = split_message(&m);
    assert_eq!(parts.concat(), m);
    for p in &parts {
        assert!(!p.is_empty());
        assert!(p.len() <= MAX_MESSAGE_LENGTH);
    }
}

#[test]
fn multibyte_text_split_on_boundaries() {
    let m = "é".repeat(1000);
    let parts = try_split_message(&m).expect("the window ends on a character boundary");
    assert_eq!(parts.len(), 2);
    assert_eq!(parts[0], "é".repeat(950));
    assert_eq!(parts[1], "é".repeat(50));
}

#[test]
fn window_inside_a_character_is_refused() {
    let m = format!("a{}", "é".repeat(1000));
    assert!(try_split_message(&m).is_none());
}

#[test]
fn truncate_keeps_short_text() {
    assert_eq!(truncate("abc", 3), "abc");
    assert_eq!(truncate("", 0), "");
}

#[test]
fn truncate_cuts_and_marks() {
    assert_eq!(truncate("hello world", 5), "hello...");
    assert_eq!(truncate("hello", 0), "...");
}

#[test]
fn truncate_backs_off_to_a_character_boundary() {
    assert_eq!(truncate("héllo", 2), "h...");
    assert_eq!(truncate("héllo", 3), "hé...");
}

#[test]
fn truncated_text_fits_in_max_plus_three() {
    let s = "ü".repeat(40);
    let t = truncate(&s, 51);
    assert!(t.len() <= 51 + 3);
    assert_eq!(t, format!("{}...", "ü".repeat(25)));
}

#[test]
fn byte_prefix_on_boundary() {
    assert_eq!(byte_prefix("héllo", 3), "hé");
    assert_eq!(byte_prefix("abc", 0), "");
}

#[test]
fn decimal_strings() {
    assert_eq!(decimal_string(0), "0");
    assert_eq!(decimal_string(7), "7");
    assert_eq!(decimal_string(1234567890), "1234567890");
    assert_eq!(decimal_string(u64::MAX), "18446744073709551615");
}

#[test]
fn parse_accepts_what_std_accepts() {
    assert_eq!(parse_u64("42"), Some(42));
    assert_eq!(parse_u64("+7"), Some(7));
    assert_eq!(parse_u64("007"), Some(7));
    assert_eq!(parse_u64("18446744073709551615"), Some(u64::MAX));
}

#[test]
fn parse_refuses_what_std_refuses() {
    assert_eq!(parse_u64(""), None);
    assert_eq!(parse_u64("+"), None);
    assert_eq!(parse_u64("-1"), None);
    assert_eq!(parse_u64("12a"), None);
    assert_eq!(parse_u64(" 1"), None);
    assert_eq!(parse_u64("18446744073709551616"), None);
}

#[test]
fn parse_agrees_with_std() {
    for s in ["0", "99", "+5", "abc", "", "-0", "4294967296", "99999999999999999999"] {
        assert_eq!(parse_u64(s), s.parse::<u64>().ok());
    }
}

#[test]
fn decimal_notation_reads_back() {
    for n in [0u64, 1, 9, 10, 255, 65536, u64::MAX] {
        assert_eq!(parse_u64(&decimal_string(n)), Some(n));
    }
}

#[test]
fn ascii_messages_always_split() {
    let m = "line of text\n".repeat(300);
    let parts = try_split_message(&m).expect("ASCII never splits a character");
    assert!(parts.len() >= 2);
    assert_eq!(parts.concat(), m);
    assert!(parts.iter().all(|p| !p.is_empty() && p.len() <= MAX_MESSAGE_LENGTH));
}
