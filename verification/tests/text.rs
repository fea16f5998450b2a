use parse_js::text::{
    append_chars, append_str, chars_of, equal, find, index_of, matches_at, split, string_of, trim,
    whitespace,
};
use parse_js::utility::close_index;

fn chars(s: &str) -> Vec<char> {
    s.chars().collect()
}

#[test]
fn characters_and_back() {
    for sample in ["", "a", "héllo wörld", "{ }\n\t", "日本語"] {
        assert_eq!(chars_of(sample), chars(sample));
        assert_eq!(string_of(&chars_of(sample)), sample);
    }
}

#[test]
fn white_space_is_what_unicode_says() {
    let mut c = '\0';
    loop {
        assert_eq!(whitespace(c), c.is_whitespace());
        if c == char::MAX {
            break;
        }
        c = match char::from_u32(c as u32 + 1) {
            Some(next) => next,
            None => '\u{e000}',
        };
    }
}

#[test]
fn trim_takes_white_space_off_both_ends() {
    for sample in
        ["", " ", "a", "  a b  ", "\t\n x \r\n", "\u{a0}x\u{3000}", "x\u{200b}", " \u{2003}é \u{85}"]
    {
        assert_eq!(string_of(&trim(&chars(sample))), sample.trim());
    }
}

#[test]
fn split_cuts_at_every_separator() {
    for sample in ["", "a", "a,b", ",", "a,,b", ",a,", "a\nb\n", "é,ü"] {
        let pieces: Vec<String> = split(&chars(sample), ',').iter().map(string_of).collect();
        let expected: Vec<String> = sample.split(',').map(|p| p.to_string()).collect();
        assert_eq!(pieces, expected);
    }
    let lines: Vec<String> = split(&chars("a\nb\n"), '\n').iter().map(string_of).collect();
    assert_eq!(lines, vec!["a".to_string(), "b".to_string(), "".to_string()]);
}

#[test]
fn find_gives_the_first_occurrence() {
    let hay = chars("abcabcab");
    assert_eq!(find(&hay, &chars("abc"), 0), Some(0));
    assert_eq!(find(&hay, &chars("abc"), 1), Some(3));
    assert_eq!(find(&hay, &chars("abc"), 4), None);
    assert_eq!(find(&hay, &chars("ab"), 4), Some(6));
    assert_eq!(find(&hay, &chars("ab"), 7), None);
    assert_eq!(find(&hay, &chars("x"), 0), None);
    assert_eq!(find(&hay, &chars(""), 0), Some(0));
    assert_eq!(find(&hay, &chars(""), 8), Some(8));
    assert_eq!(find(&hay, &chars(""), 9), None);
    assert_eq!(find(&hay, &chars("abcabcabc"), 0), None);
    assert_eq!(find(&chars(""), &chars(""), 0), Some(0));
    assert_eq!(find(&chars(""), &chars("a"), 0), None);
}

#[test]
fn matches_at_an_index() {
    let hay = chars("abcab");
    assert!(matches_at(&hay, &chars("ab"), 0));
    assert!(matches_at(&hay, &chars("ab"), 3));
    assert!(!matches_at(&hay, &chars("ab"), 1));
    assert!(!matches_at(&hay, &chars("ab"), 4));
    assert!(!matches_at(&hay, &chars("ab"), 9));
    assert!(matches_at(&hay, &chars(""), 5));
    assert!(!matches_at(&hay, &chars(""), 6));
}

#[test]
fn index_of_a_character() {
    let text = chars("a-b-c");
    assert_eq!(index_of(&text, '-', 0), 1);
    assert_eq!(index_of(&text, '-', 1), 1);
    assert_eq!(index_of(&text, '-', 2), 3);
    assert_eq!(index_of(&text, '-', 4), 5);
    assert_eq!(index_of(&text, '-', 5), 5);
    assert_eq!(index_of(&text, '-', 50), 5);
    assert_eq!(index_of(&text, 'x', 0), 5);
}

#[test]
fn equal_texts() {
    assert!(equal(&chars(""), &chars("")));
    assert!(equal(&chars("abc"), &chars("abc")));
    assert!(!equal(&chars("abc"), &chars("abd")));
    assert!(!equal(&chars("abc"), &chars("ab")));
}

#[test]
fn appending() {
    let mut out = chars("ab");
    append_str(&mut out, "cd");
    append_chars(&mut out, &chars("é"));
    append_str(&mut out, "");
    assert_eq!(string_of(&out), "abcdé");
}

#[test]
fn block_ends_behind_the_closing_brace() {
    let text = chars("a { b } c } d }");
    assert_eq!(close_index(&text, 0), 11);
    assert_eq!(close_index(&text, 3), 7);
    assert_eq!(close_index(&text, 11), 15);
    assert_eq!(close_index(&text, 15), 15);
    assert_eq!(close_index(&text, 40), 15);
    assert_eq!(close_index(&chars("{{{"), 0), 3);
    assert_eq!(close_index(&chars(""), 0), 0);
}
