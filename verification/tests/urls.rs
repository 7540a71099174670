use dl_res::text::{to_chars, trimmed};
use dl_res::urls::parse_urls;

fn std_lines(content: &str) -> Vec<String> {
    content.split('\n').map(|url| url.trim().to_string()).collect()
}

#[test]
fn three_lines_give_three_urls() {
    let urls = parse_urls("http://h/a\nhttp://h/b\nhttp://h/c");
    assert_eq!(urls, vec!["http://h/a", "http://h/b", "http://h/c"]);
}

#[test]
fn a_final_line_feed_leaves_an_empty_url() {
    assert_eq!(parse_urls("a\nb\n"), vec!["a", "b", ""]);
}

#[test]
fn empty_text_is_one_empty_url() {
    assert_eq!(parse_urls(""), vec![""]);
}

#[test]
fn blank_lines_are_kept() {
    assert_eq!(parse_urls("a\n\n\nb"), vec!["a", "", "", "b"]);
    assert_eq!(parse_urls("\n"), vec!["", ""]);
}

#[test]
fn lines_are_trimmed_on_both_sides() {
    assert_eq!(parse_urls("  a \r\n\tb\u{3000}\n\u{a0}c"), vec!["a", "b", "c"]);
}

#[test]
fn white_space_inside_a_line_stays() {
    assert_eq!(parse_urls(" a b \n"), vec!["a b", ""]);
}

#[test]
fn a_line_of_white_space_becomes_empty() {
    assert_eq!(parse_urls(" \t \r\nx\n \u{2003} "), vec!["", "x", ""]);
}

#[test]
fn order_is_that_of_the_file() {
    let content = "z\ny\nx\nw";
    assert_eq!(parse_urls(content), vec!["z", "y", "x", "w"]);
}

#[test]
fn characters_outside_ascii_pass_through() {
    assert_eq!(parse_urls("http://h/ü\nhttp://h/日本"), vec!["http://h/ü", "http://h/日本"]);
}

#[test]
fn every_character_is_trimmed_as_std_trims_it() {
    let mut c = 0u32;
    while c <= 0x10FFFF {
        if let Some(ch) = char::from_u32(c) {
            let alone = ch.to_string();
            assert_eq!(parse_urls(&alone), std_lines(&alone), "U+{:04X}", c);
        }
        c += 1;
    }
}

#[test]
fn no_character_is_trimmed_inside_a_line() {
    let mut c = 0u32;
    while c <= 0xFFFF {
        if let Some(ch) = char::from_u32(c) {
            let inside = format!("a{}b", ch);
            assert_eq!(parse_urls(&inside), std_lines(&inside), "U+{:04X}", c);
        }
        c += 1;
    }
}

#[test]
fn white_space_is_what_std_calls_white_space() {
    let mut count = 0;
    let mut c = 0u32;
    while c <= 0x10FFFF {
        if let Some(ch) = char::from_u32(c) {
            let padded = format!("{}x{}", ch, ch);
            let trimmed_away = parse_urls(&padded) == vec!["x"];
            if ch != '\n' {
                assert_eq!(trimmed_away, ch.is_whitespace(), "U+{:04X}", c);
            }
            if trimmed_away {
                count += 1;
            }
        }
        c += 1;
    }
    assert_eq!(count, 24);
}

#[test]
fn mixed_texts_split_as_std_splits_them() {
    let alphabet = ['a', '/', ' ', '\n', '\t', '\r', '\u{85}', 'é', '\u{2028}', ':'];
    let mut seed: u64 = 0x2545F4914F6CDD1D;
    let mut round = 0;
    while round < 2000 {
        let mut text = String::new();
        seed ^= seed << 13;
        seed ^= seed >> 7;
        seed ^= seed << 17;
        let len = (seed % 12) as usize;
        let mut i = 0;
        while i < len {
            seed ^= seed << 13;
            seed ^= seed >> 7;
            seed ^= seed << 17;
            text.push(alphabet[(seed % alphabet.len() as u64) as usize]);
            i += 1;
        }
        assert_eq!(parse_urls(&text), std_lines(&text), "{:?}", text);
        round += 1;
    }
}

#[test]
fn to_chars_keeps_every_character() {
    assert_eq!(to_chars("a/é\n"), vec!['a', '/', 'é', '\n']);
    assert_eq!(to_chars(""), Vec::<char>::new());
}

#[test]
fn trimmed_takes_a_stretch_without_its_white_space() {
    let chars = to_chars("xx  ab c \tyy");
    assert_eq!(trimmed(&chars, 2, 10), "ab c");
    assert_eq!(trimmed(&chars, 0, 12), "xx  ab c \tyy");
    assert_eq!(trimmed(&chars, 2, 4), "");
    assert_eq!(trimmed(&chars, 5, 5), "");
}
