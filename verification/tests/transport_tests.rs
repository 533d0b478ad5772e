use chat_bridge::transport::{parse_input_line, split_message};

#[test]
fn test_split_message_short() {
    let msg = "Hello world";
    let chunks = split_message(msg, 2000);
    assert_eq!(chunks.len(), 1);
    assert_eq!(chunks[0], "Hello world");
}

#[test]
fn test_split_message_at_newline() {
    let line_a = "a".repeat(1200);
    let line_b = "b".repeat(1200);
    let msg = format!("{}\n{}", line_a, line_b);
    let chunks = split_message(&msg, 2000);
    assert_eq!(chunks.len(), 2);
    assert_eq!(chunks[0], line_a);
    assert_eq!(chunks[1], line_b);
}

#[test]
fn test_split_message_hard_cut() {
    let msg = "x".repeat(5000);
    let chunks = split_message(&msg, 2000);
    assert!(chunks.len() >= 3);
    assert_eq!(chunks[0].len(), 2000);
}

#[test]
fn test_split_message_empty() {
    let chunks = split_message("", 2000);
    assert_eq!(chunks.len(), 1);
    assert_eq!(chunks[0], "");
}

#[test]
fn test_split_message_exact_limit() {
    let msg = "x".repeat(2000);
    let chunks = split_message(&msg, 2000);
    assert_eq!(chunks.len(), 1);
    assert_eq!(chunks[0].len(), 2000);
}

#[test]
fn test_split_message_one_over_limit() {
    let msg = "x".repeat(2001);
    let chunks = split_message(&msg, 2000);
    assert_eq!(chunks.len(), 2);
    assert_eq!(chunks[0].len(), 2000);
    assert_eq!(chunks[1].len(), 1);
}

#[test]
fn test_split_message_all_newlines() {
    let msg = "\n".repeat(5000);
    let chunks = split_message(&msg, 2000);
    // chunks may collapse through trimming, but nothing panics
    assert!(!chunks.is_empty());
}

#[test]
fn test_split_message_no_newlines_long() {
    // Long message without any newlines, must hard-cut
    let msg = "a".repeat(6001);
    let chunks = split_message(&msg, 2000);
    assert_eq!(chunks.len(), 4); // 2000 + 2000 + 2000 + 1
    assert_eq!(chunks[0].len(), 2000);
    assert_eq!(chunks[1].len(), 2000);
    assert_eq!(chunks[2].len(), 2000);
    assert_eq!(chunks[3].len(), 1);
}

#[test]
fn test_split_message_unicode_chinese() {
    // Chinese characters are 3 bytes each in UTF-8: 700 of them exceed a
    // 2000-byte limit and the cut must land on a character boundary.
    let msg: String = std::iter::repeat('中').take(700).collect();
    let chunks = split_message(&msg, 2000);
    assert!(!chunks.is_empty());
    let total: usize = chunks.iter().map(|c| c.chars().count()).sum();
    assert_eq!(total, 700);
}

#[test]
fn test_split_message_emoji_content() {
    // Emoji are 4 bytes in UTF-8
    let msg: String = std::iter::repeat("🎉").take(600).collect();
    let chunks = split_message(&msg, 2000);
    assert!(!chunks.is_empty());
    let total: usize = chunks.iter().map(|c| c.chars().count()).sum();
    assert_eq!(total, 600);
}

#[test]
fn test_split_message_newline_in_first_half_ignored() {
    // A newline in the first half of the limit is ignored (< max_len/2)
    let mut msg = String::new();
    msg.push_str("short\n"); // newline at position 5
    msg.push_str(&"x".repeat(2500)); // rest is continuous
    let chunks = split_message(&msg, 2000);
    // The newline at position 5 is < 2000/2 = 1000, so it's ignored
    // Hard cut at 2000
    assert_eq!(chunks[0].len(), 2000);
}

#[test]
fn test_split_message_max_len_one() {
    // Edge case: max_len = 1
    let msg = "abc";
    let chunks = split_message(msg, 1);
    assert_eq!(chunks.len(), 3);
    assert_eq!(chunks[0], "a");
    assert_eq!(chunks[1], "b");
    assert_eq!(chunks[2], "c");
}

#[test]
fn split_message_oversized_single_char_passes_whole() {
    // a character wider than the limit is passed through whole
    let chunks = split_message("🎉", 1);
    assert_eq!(chunks.len(), 1);
    assert_eq!(chunks[0], "🎉");
}

#[test]
fn input_line_parsing() {
    let (c, msg) = parse_input_line("wx1|Alice|hello there\n").unwrap();
    assert_eq!(c.wxid, "wx1");
    assert_eq!(c.nickname, "Alice");
    assert_eq!(c.remark_name, "");
    assert_eq!(msg, "hello there");
    // two fields: the identity doubles as the display name
    let (c, msg) = parse_input_line("wx2|hi").unwrap();
    assert_eq!(c.wxid, "wx2");
    assert_eq!(c.nickname, "wx2");
    assert_eq!(msg, "hi");
    // the message may itself contain separators
    let (_, msg) = parse_input_line("wx3|Bob|a|b|c").unwrap();
    assert_eq!(msg, "a|b|c");
    // no separator or an empty line is no message
    assert!(parse_input_line("just text").is_none());
    assert!(parse_input_line("   \n").is_none());
}
