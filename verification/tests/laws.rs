use browser_escape::escape::escape_html;

const SAMPLES: [&str; 16] = [
    "",
    "hello world",
    "a & b",
    "<script>alert('x')</script>",
    "\"quoted\" & <tag>",
    "日本語<br>",
    "&amp;",
    "&lt;&gt;&quot;&#x27;",
    "&&&&",
    "'",
    "no markup at all; just #text",
    "😀<😀>😀",
    "a&b&c<d>e\"f'g",
    "&#x27",
    "&l t;",
    ";tl&",
];

fn escape(text: &str) -> String {
    escape_html(text.to_string())
}

fn is_reserved(c: char) -> bool {
    matches!(c, '"' | '&' | '\'' | '<' | '>')
}

fn decode(text: &str) -> String {
    text.replace("&quot;", "\"")
        .replace("&#x27;", "'")
        .replace("&lt;", "<")
        .replace("&gt;", ">")
        .replace("&amp;", "&")
}

fn strip_entities(text: &str) -> String {
    text.replace("&quot;", "")
        .replace("&#x27;", "")
        .replace("&lt;", "")
        .replace("&gt;", "")
        .replace("&amp;", "")
}

#[test]
fn safe_text_comes_back_as_it_went_in() {
    for s in SAMPLES.iter() {
        if !s.chars().any(is_reserved) {
            assert_eq!(escape(s), *s);
        }
    }
    assert_eq!(escape("plain"), "plain");
}

#[test]
fn escaping_twice_differs_where_something_was_escaped() {
    for s in SAMPLES.iter() {
        let once = escape(s);
        let twice = escape(&once);
        assert_eq!(once == twice, !s.chars().any(is_reserved));
    }
    assert_eq!(escape(&escape("a & b")), "a &amp;amp; b");
    assert_eq!(escape(&escape("a b")), "a b");
}

#[test]
fn output_is_never_shorter() {
    for s in SAMPLES.iter() {
        let out = escape(s);
        assert!(out.len() >= s.len());
        assert!(out.chars().count() >= s.chars().count());
        assert_eq!(out.len() == s.len(), !s.chars().any(is_reserved));
    }
    assert_eq!(escape("<").len(), 4);
    assert_eq!(escape("a & b").len(), 9);
}

#[test]
fn decoding_the_entities_gives_the_input_back() {
    for s in SAMPLES.iter() {
        assert_eq!(decode(&escape(s)), *s);
    }
}

#[test]
fn other_characters_keep_their_order() {
    for s in SAMPLES.iter() {
        let kept: String = s.chars().filter(|c| !is_reserved(*c)).collect();
        assert_eq!(strip_entities(&escape(s)), kept);
    }
    assert_eq!(strip_entities(&escape("a<b>c")), "abc");
}

#[test]
fn every_ampersand_starts_an_entity() {
    let entities = ["&quot;", "&amp;", "&#x27;", "&lt;", "&gt;"];
    for s in SAMPLES.iter() {
        let out = escape(s);
        for (at, c) in out.char_indices() {
            if c == '&' {
                assert!(entities.iter().any(|e| out[at..].starts_with(e)));
            }
        }
    }
}

#[test]
fn no_quote_or_angle_bracket_is_left() {
    for s in SAMPLES.iter() {
        let out = escape(s);
        assert!(!out.contains('"'));
        assert!(!out.contains('\''));
        assert!(!out.contains('<'));
        assert!(!out.contains('>'));
    }
}

#[test]
fn escaping_goes_piece_by_piece() {
    for a in SAMPLES.iter() {
        for b in SAMPLES.iter() {
            let joined = format!("{}{}", a, b);
            assert_eq!(escape(&joined), format!("{}{}", escape(a), escape(b)));
        }
    }
}
