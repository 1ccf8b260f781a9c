use emailsched::text::{
    find_char, has_prefix, has_text, push_chars, replace_char, str_precedes, to_chars, trim_bounds,
    white_space,
};

fn text_of(chars: &Vec<char>, from: usize, to: usize) -> String {
    let mut out = String::new();
    push_chars(&mut out, chars, from, to);
    out
}

fn trim_of(s: &str) -> String {
    let chars = to_chars(s);
    let (from, to) = trim_bounds(&chars, 0, chars.len());
    text_of(&chars, from, to)
}

#[test]
fn characters_go_to_a_vector_and_back() {
    let chars = to_chars("héllo wörld");
    assert_eq!(chars.len(), 11);
    assert_eq!(chars[1], 'é');
    assert_eq!(text_of(&chars, 0, chars.len()), "héllo wörld");
    assert_eq!(text_of(&chars, 6, 11), "wörld");
    assert_eq!(text_of(&chars, 3, 3), "");
}

#[test]
fn characters_are_appended() {
    let chars = to_chars("abcdef");
    let mut out = String::from("x");
    push_chars(&mut out, &chars, 2, 5);
    assert_eq!(out, "xcde");
}

#[test]
fn white_space_is_the_unicode_class() {
    for code in 0u32..0x11000 {
        if let Some(c) = char::from_u32(code) {
            assert_eq!(white_space(c), c.is_whitespace(), "U+{:04X}", code);
        }
    }
}

#[test]
fn one_character_is_replaced_by_another() {
    assert_eq!(replace_char("a\nb\n\nc", '\n', ' '), "a b  c");
    assert_eq!(replace_char("abc", 'x', 'y'), "abc");
    assert_eq!(replace_char("", 'x', 'y'), "");
    assert_eq!(replace_char("aaa", 'a', 'b'), "bbb");
}

#[test]
fn the_first_occurrence_is_found() {
    let chars = to_chars("a:b:c");
    assert_eq!(find_char(&chars, 0, 5, ':'), 1);
    assert_eq!(find_char(&chars, 2, 5, ':'), 3);
    assert_eq!(find_char(&chars, 4, 5, ':'), 5);
    assert_eq!(find_char(&chars, 0, 1, ':'), 1);
    assert_eq!(find_char(&chars, 0, 0, ':'), 0);
}

#[test]
fn a_prefix_is_recognised() {
    let chars = to_chars("Subject: hi");
    assert!(has_prefix(&chars, 0, chars.len(), &to_chars("Subject")));
    assert!(has_prefix(&chars, 0, chars.len(), &to_chars("")));
    assert!(!has_prefix(&chars, 0, chars.len(), &to_chars("subject")));
    assert!(!has_prefix(&chars, 0, 3, &to_chars("Subject")));
    assert!(has_prefix(&chars, 9, chars.len(), &to_chars("hi")));
    assert!(!has_prefix(&chars, 9, chars.len(), &to_chars("hi!")));
}

#[test]
fn a_word_is_found_inside() {
    let chars = to_chars("x-base64-y");
    assert!(has_text(&chars, 0, chars.len(), &to_chars("base64")));
    assert!(has_text(&chars, 2, 8, &to_chars("base64")));
    assert!(!has_text(&chars, 3, chars.len(), &to_chars("base64")));
    assert!(!has_text(&chars, 0, 7, &to_chars("base64")));
    assert!(has_text(&chars, 0, chars.len(), &to_chars("")));
    assert!(has_text(&chars, 4, 4, &to_chars("")));
    assert!(!has_text(&chars, 0, chars.len(), &to_chars("base65")));
}

#[test]
fn white_space_is_trimmed_at_both_ends() {
    let samples = [
        "", " ", "   ", "a", " a", "a ", "  a b  ", "\t\r\n x \u{a0}", "\u{3000}x\u{2003}y\u{85}",
        "no space", " \n ",
    ];
    for sample in samples {
        assert_eq!(trim_of(sample), sample.trim());
    }
}

#[test]
fn a_part_is_trimmed_in_place() {
    let chars = to_chars("ab  cd  ef");
    assert_eq!(trim_bounds(&chars, 2, 8), (4, 6));
    assert_eq!(trim_bounds(&chars, 2, 4), (4, 4));
}

#[test]
fn strings_are_ordered_as_the_standard_library_orders_them() {
    let samples = ["", "a", "ab", "b", "B", "Title", "Titles", "é", "z", "日本", "a\u{10000}", "a\u{ffff}"];
    for a in samples {
        for b in samples {
            assert_eq!(str_precedes(a, b), a < b, "{:?} {:?}", a, b);
        }
    }
}
