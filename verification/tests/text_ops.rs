use page_viewer::text::{
    bump, chars_of, contains, count_occurrences, join_picked, split_on_space, starts_at, trim,
};

fn chars(s: &str) -> Vec<char> {
    s.chars().collect()
}

#[test]
fn chars_of_keeps_every_character() {
    assert_eq!(chars_of("héllo wörld"), chars("héllo wörld"));
    assert_eq!(chars_of(""), Vec::<char>::new());
}

#[test]
fn starts_at_tells_a_match_at_a_position() {
    let hay = chars("rust is fast");
    assert!(starts_at(&hay, &chars("rust"), 0));
    assert!(starts_at(&hay, &chars("is"), 5));
    assert!(!starts_at(&hay, &chars("is"), 4));
    assert!(starts_at(&hay, &chars("fast"), 8));
    assert!(!starts_at(&hay, &chars("fast"), 9));
    assert!(!starts_at(&hay, &chars("fast"), 100));
    assert!(starts_at(&hay, &chars(""), 12));
    assert!(!starts_at(&hay, &chars(""), 13));
}

#[test]
fn contains_finds_literal_substrings_only() {
    let hay = chars("rust is fast");
    assert!(contains(&hay, &chars("rust is")));
    assert!(contains(&hay, &chars("t i")));
    assert!(contains(&hay, &chars("")));
    assert!(!contains(&hay, &chars("rust fast")));
    assert!(!contains(&hay, &chars("Rust")));
    assert!(!contains(&hay, &chars("rust is fast!")));
    assert!(contains(&chars(""), &chars("")));
    assert!(!contains(&chars(""), &chars("a")));
}

#[test]
fn count_occurrences_does_not_count_overlaps() {
    assert_eq!(count_occurrences(&chars("aaaa"), &chars("aa")), 2);
    assert_eq!(count_occurrences(&chars("aaaaa"), &chars("aa")), 2);
    assert_eq!(count_occurrences(&chars("abababa"), &chars("aba")), 2);
    assert_eq!(count_occurrences(&chars("is this his"), &chars("is")), 3);
    assert_eq!(count_occurrences(&chars("abc"), &chars("abcd")), 0);
    assert_eq!(count_occurrences(&chars("abc"), &chars("x")), 0);
}

#[test]
fn count_occurrences_agrees_with_the_standard_library() {
    let cases = [
        ("rust is fast", "is"),
        ("aaaa", "aa"),
        ("abababa", "aba"),
        ("abc", ""),
        ("", ""),
        ("", "a"),
        ("a b  c", " "),
        ("xxxyxxxyxx", "xxy"),
    ];
    for (hay, pat) in cases {
        assert_eq!(
            count_occurrences(&chars(hay), &chars(pat)),
            hay.matches(pat).count() as u64,
            "{:?} in {:?}",
            pat,
            hay
        );
        assert_eq!(contains(&chars(hay), &chars(pat)), hay.contains(pat));
    }
}

#[test]
fn the_empty_pattern_is_found_at_every_position() {
    assert_eq!(count_occurrences(&chars("abc"), &chars("")), 4);
    assert_eq!(count_occurrences(&chars(""), &chars("")), 1);
}

#[test]
fn bump_stops_at_the_largest_value() {
    assert_eq!(bump(0), 1);
    assert_eq!(bump(41), 42);
    assert_eq!(bump(u64::MAX - 1), u64::MAX);
    assert_eq!(bump(u64::MAX), u64::MAX);
}

#[test]
fn split_on_space_keeps_empty_words() {
    assert_eq!(split_on_space(&chars("rust is fast")), vec![chars("rust"), chars("is"), chars("fast")]);
    assert_eq!(split_on_space(&chars("a  b")), vec![chars("a"), chars(""), chars("b")]);
    assert_eq!(split_on_space(&chars("")), vec![chars("")]);
    assert_eq!(split_on_space(&chars(" ")), vec![chars(""), chars("")]);
    assert_eq!(split_on_space(&chars("a\tb")), vec![chars("a\tb")]);
}

#[test]
fn split_on_space_agrees_with_the_standard_library() {
    for text in ["rust is fast", "a  b", "", " ", " lead", "trail ", "one"] {
        let expected: Vec<Vec<char>> = text.split(' ').map(|w| w.chars().collect()).collect();
        assert_eq!(split_on_space(&chars(text)), expected);
    }
}

#[test]
fn join_picked_joins_the_chosen_words_by_single_spaces() {
    let words = vec![chars("rust"), chars("is"), chars("fast")];
    assert_eq!(join_picked(&words, &vec![0, 2]), chars("rust fast"));
    assert_eq!(join_picked(&words, &vec![1]), chars("is"));
    assert_eq!(join_picked(&words, &vec![0, 1, 2]), chars("rust is fast"));
    assert_eq!(join_picked(&words, &vec![]), chars(""));
    let gaps = vec![chars("a"), chars(""), chars("b")];
    assert_eq!(join_picked(&gaps, &vec![0, 1]), chars("a "));
    assert_eq!(join_picked(&gaps, &vec![1, 2]), chars(" b"));
}

#[test]
fn trim_removes_white_space_at_both_ends() {
    assert_eq!(trim(&chars("  rust is fast \t\n")), chars("rust is fast"));
    assert_eq!(trim(&chars("rust")), chars("rust"));
    assert_eq!(trim(&chars(" \t ")), chars(""));
    assert_eq!(trim(&chars("")), chars(""));
    assert_eq!(trim(&chars("\u{a0}a b\u{2003}")), chars("a b"));
}

#[test]
fn trim_agrees_with_the_standard_library() {
    for text in ["  a  ", "a", "", "   ", "\ta b\n", "\u{3000}x\u{85}", "a \u{200b}"] {
        assert_eq!(trim(&chars(text)), chars(text.trim()));
    }
}
