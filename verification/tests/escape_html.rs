use browser_escape::entity::entity_for;
use browser_escape::escape::{capacity_hint, escape_html, needs_escape};

fn escape(text: &str) -> String {
    escape_html(text.to_string())
}

#[test]
fn empty_string_stays_empty() {
    assert_eq!(escape(""), "");
}

#[test]
fn text_without_reserved_characters_is_unchanged() {
    assert_eq!(escape("hello world"), "hello world");
}

#[test]
fn safe_string_is_handed_back_without_a_copy() {
    let mut input = String::with_capacity(64);
    input.push_str("hello world");
    let capacity = input.capacity();
    let out = escape_html(input);
    assert_eq!(out, "hello world");
    assert_eq!(out.capacity(), capacity);
}

#[test]
fn script_tag_is_neutralised() {
    assert_eq!(
        escape("<script>alert('x')</script>"),
        "&lt;script&gt;alert(&#x27;x&#x27;)&lt;/script&gt;"
    );
}

#[test]
fn ampersand_between_words() {
    assert_eq!(escape("a & b"), "a &amp; b");
}

#[test]
fn quotes_ampersand_and_tag() {
    assert_eq!(
        escape("\"quoted\" & <tag>"),
        "&quot;quoted&quot; &amp; &lt;tag&gt;"
    );
}

#[test]
fn non_ascii_text_passes_through() {
    let out = escape("日本語<br>");
    assert_eq!(out, "日本語&lt;br&gt;");
    assert_eq!(&out.as_bytes()[..9], "日本語".as_bytes());
}

#[test]
fn each_reserved_character_has_its_entity() {
    assert_eq!(escape("\""), "&quot;");
    assert_eq!(escape("&"), "&amp;");
    assert_eq!(escape("'"), "&#x27;");
    assert_eq!(escape("<"), "&lt;");
    assert_eq!(escape(">"), "&gt;");
}

#[test]
fn apostrophe_is_written_in_hexadecimal() {
    assert_eq!(escape("it's"), "it&#x27;s");
    assert_ne!(escape("it's"), "it&#39;s");
}

#[test]
fn only_reserved_characters() {
    assert_eq!(escape("\"&'<>"), "&quot;&amp;&#x27;&lt;&gt;");
    assert_eq!(escape("<<<<"), "&lt;&lt;&lt;&lt;");
}

#[test]
fn reserved_character_first_and_last() {
    assert_eq!(escape("<middle>"), "&lt;middle&gt;");
    assert_eq!(escape("&tail"), "&amp;tail");
    assert_eq!(escape("head&"), "head&amp;");
}

#[test]
fn characters_of_every_width_around_reserved_ones() {
    assert_eq!(escape("é<é"), "é&lt;é");
    assert_eq!(escape("ß&日>😀'ж\"z"), "ß&amp;日&gt;😀&#x27;ж&quot;z");
    assert_eq!(escape("😀😀<"), "😀😀&lt;");
    assert_eq!(escape("<\u{10FFFF}\u{7f}\u{80}\u{7ff}\u{800}\u{ffff}\u{10000}>"),
        "&lt;\u{10FFFF}\u{7f}\u{80}\u{7ff}\u{800}\u{ffff}\u{10000}&gt;");
}

#[test]
fn long_runs_between_reserved_characters() {
    let run = "x".repeat(1000);
    let input = format!("{}<{}>{}", run, run, run);
    let expected = format!("{}&lt;{}&gt;{}", run, run, run);
    assert_eq!(escape(&input), expected);
}

#[test]
fn control_and_neighbouring_characters_are_not_touched() {
    let input = "\0\t\n\r !#$%()*+,-./:;=?@[\\]^_`{|}~";
    assert_eq!(escape(input), input);
}

#[test]
fn entity_text_is_escaped_again() {
    assert_eq!(escape("&amp;"), "&amp;amp;");
    assert_eq!(escape("&lt;b&gt;"), "&amp;lt;b&amp;gt;");
}

#[test]
fn detection_finds_each_reserved_character() {
    assert!(needs_escape("\""));
    assert!(needs_escape("&"));
    assert!(needs_escape("'"));
    assert!(needs_escape("<"));
    assert!(needs_escape(">"));
    assert!(needs_escape("plain text, then <"));
    assert!(needs_escape("日本語'"));
}

#[test]
fn detection_passes_safe_text() {
    assert!(!needs_escape(""));
    assert!(!needs_escape("hello world"));
    assert!(!needs_escape("日本語 ß é 😀 ж"));
    assert!(!needs_escape("!#$%()*+,-./:;=?@[\\]^_`{|}~"));
}

#[test]
fn detection_agrees_with_a_scan_by_character() {
    let samples = ["", "a", "<", "a<", "日本語", "日本語>", "'😀", "😀", "x&y", "x y"];
    for s in samples.iter() {
        let expected = s.chars().any(|c| matches!(c, '"' | '&' | '\'' | '<' | '>'));
        assert_eq!(needs_escape(s), expected);
    }
}

#[test]
fn entity_table() {
    assert_eq!(entity_for('"'), Some("&quot;"));
    assert_eq!(entity_for('&'), Some("&amp;"));
    assert_eq!(entity_for('\''), Some("&#x27;"));
    assert_eq!(entity_for('<'), Some("&lt;"));
    assert_eq!(entity_for('>'), Some("&gt;"));
    assert_eq!(entity_for('a'), None);
    assert_eq!(entity_for(';'), None);
    assert_eq!(entity_for('#'), None);
    assert_eq!(entity_for('日'), None);
}

#[test]
fn capacity_is_length_and_a_tenth() {
    assert_eq!(capacity_hint(0), 0);
    assert_eq!(capacity_hint(9), 9);
    assert_eq!(capacity_hint(10), 11);
    assert_eq!(capacity_hint(100), 110);
    assert_eq!(capacity_hint(1234), 1357);
}

#[test]
fn capacity_stops_at_the_largest_buffer() {
    let limit = isize::MAX as usize;
    assert_eq!(capacity_hint(limit), limit);
    assert_eq!(capacity_hint(usize::MAX), limit);
    assert_eq!(capacity_hint(limit - 1), limit);
    assert_eq!(capacity_hint(limit / 11 * 10), limit / 11 * 10 + limit / 11);
}
