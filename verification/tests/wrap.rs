use mdansi::wrap::{
    center_in_measured, center_in_width, pad_to_measured, pad_to_width, right_align_in_measured,
    right_align_in_width, strip_ansi, truncate_measured, truncate_to_width, visible_width_of,
    wrap_text,
};

#[test]
fn test_wrap_short_line() {
    let result = wrap_text("hello world", 80);
    assert_eq!(result, vec!["hello world"]);
}

#[test]
fn test_wrap_long_line() {
    let result = wrap_text("the quick brown fox jumps over the lazy dog", 20);
    assert!(result.len() > 1);
    for line in &result {
        assert!(visible_width_of(line) <= 20);
    }
}

#[test]
fn test_visible_width_ansi() {
    let s = "\x1b[1mhello\x1b[0m";
    assert_eq!(visible_width_of(s), 5);
}

#[test]
fn test_truncate() {
    let result = truncate_to_width("hello world", 8);
    assert_eq!(visible_width_of(&result), 8);
}

#[test]
fn test_pad_to_width() {
    let result = pad_to_width("hi", 10);
    assert_eq!(visible_width_of(&result), 10);
}

#[test]
fn test_wrap_zero_width_keeps_text() {
    assert_eq!(wrap_text("a b\nc", 0), vec!["a b\nc"]);
}

#[test]
fn test_wrap_exact_lines() {
    assert_eq!(
        wrap_text("the quick brown fox jumps over the lazy dog", 20),
        vec!["the quick brown fox", "jumps over the lazy", "dog"]
    );
}

#[test]
fn test_wrap_orphan_moves_to_next_line() {
    assert_eq!(wrap_text("aaa bbb ccc a dddddd", 13), vec!["aaa bbb ccc", "a dddddd"]);
}

#[test]
fn test_wrap_splits_on_newlines() {
    assert_eq!(wrap_text("ab\ncd", 10), vec!["ab", "cd"]);
}

#[test]
fn test_center_and_right_align() {
    assert_eq!(center_in_width("ab", 6), "  ab  ");
    assert_eq!(center_in_width("ab", 5), " ab  ");
    assert_eq!(right_align_in_width("ab", 5), "   ab");
    assert_eq!(pad_to_width("abcdef", 3), "abcdef");
}

#[test]
fn test_truncate_exact() {
    assert_eq!(truncate_to_width("hello world", 8), "hello w\u{2026}");
    assert_eq!(truncate_to_width("hello", 8), "hello");
    assert_eq!(truncate_to_width("hello", 0), "");
}

#[test]
fn test_strip_ansi_removes_escapes() {
    assert_eq!(strip_ansi("\x1b[31mred\x1b[0m"), "red");
}

#[test]
fn test_wrap_adds_only_spaces() {
    let text = "lorem ipsum dolor sit amet, consectetur adipiscing elit\nsed do eiusmod";
    for line in wrap_text(text, 12) {
        assert!(line.chars().all(|c| c == ' ' || text.contains(c)));
    }
}

#[test]
fn test_wrap_orphan_goes_only_where_it_fits() {
    assert_eq!(wrap_text("aa bb a cc dd ee", 8), vec!["aa bb", "a cc dd", "ee"]);
    for line in wrap_text("aa bb a cc dd ee", 8) {
        assert!(visible_width_of(&line) <= 8);
    }
}

#[test]
fn test_wrap_keeps_every_orphan() {
    let text = "aa bb a cc dd ee ff gg";
    let lines = wrap_text(text, 8);
    assert_eq!(lines, vec!["aa bb", "a cc dd", "ee ff gg"]);
    let words: Vec<&str> = lines.iter().flat_map(|l| l.split_whitespace()).collect();
    assert_eq!(words, text.split_whitespace().collect::<Vec<_>>());
}

#[test]
fn test_wrap_orphan_stays_when_next_word_is_too_wide() {
    assert_eq!(wrap_text("xx yy a zzzzzzz", 8), vec!["xx yy a", "zzzzzzz"]);
}

#[test]
fn test_measured_padding() {
    assert_eq!(pad_to_measured("\x1b[1mab\x1b[0m", 2, 5), "\x1b[1mab\x1b[0m   ");
    assert_eq!(center_in_measured("ab", 2, 5), " ab  ");
    assert_eq!(right_align_in_measured("ab", 2, 5), "   ab");
    assert_eq!(pad_to_measured("ab", 7, 5), "ab");
}

#[test]
fn test_truncate_measured() {
    assert_eq!(truncate_measured("\x1b[1mhello world\x1b[0m", "hello world", 11, 8), "hello w\u{2026}");
    assert_eq!(truncate_measured("hello", "hello", 5, 8), "hello");
    assert_eq!(truncate_measured("hello", "hello", 5, 0), "");
}

#[test]
fn test_wrap_keeps_unicode_and_tab_separated_words() {
    let text = "héllo wörld\tça va très bien, naïve café\nsecond line";
    let lines = wrap_text(text, 10);
    let words: Vec<&str> = lines.iter().flat_map(|l| l.split_whitespace()).collect();
    assert_eq!(words, text.split_whitespace().collect::<Vec<_>>());
}

#[test]
fn test_remove_escapes() {
    assert_eq!(mdansi::wrap::remove_escapes("a\x1b[1mb\x1b"), "a[1mb");
    assert_eq!(truncate_to_width("\x1b[1mhello world\x1b[0m", 8), "hello w\u{2026}");
}
