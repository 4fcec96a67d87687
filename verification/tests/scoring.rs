use page_viewer::page::{texts_of, Page};
use page_viewer::score::{
    candidates, holds, plus_capped, relevancy, same_text, score_phrase, score_phrases,
    times_capped,
};

fn chars(s: &str) -> Vec<char> {
    s.chars().collect()
}

fn texts(list: &[&str]) -> Vec<Vec<char>> {
    list.iter().map(|s| s.chars().collect()).collect()
}

fn score_of(contents: &str, title: &str, needle: &str, keywords: Vec<&str>) -> u64 {
    let mut page = Page::new(contents.to_string(), title.to_string(), None);
    page.search(needle, keywords);
    page.relevancy()
}

#[test]
fn a_new_page_has_no_score() {
    let page = Page::new("rust is fast".to_string(), "Intro".to_string(), Some(7));
    assert_eq!(page.relevancy(), 0);
    assert_eq!(page.contents, "rust is fast");
    assert_eq!(page.title, "Intro");
    assert_eq!(page.sort_field, Some(7));
    assert_eq!(page.sort_key(), Some(7));
    assert_eq!(page.contents_text(), "rust is fast");
    assert_eq!(page.contents_chars(), chars("rust is fast"));
    assert_eq!(page.title_chars(), chars("Intro"));
}

#[test]
fn a_clone_keeps_contents_title_key_and_score() {
    let mut page = Page::new("rust is fast".to_string(), "Intro".to_string(), Some(-3));
    page.search("fast", vec![]);
    let copy = page.clone();
    assert_eq!(copy.contents, "rust is fast");
    assert_eq!(copy.title, "Intro");
    assert_eq!(copy.sort_field, Some(-3));
    assert_eq!(copy.relevancy(), 1);
    let other = page.with_relevancy(99);
    assert_eq!(other.relevancy(), 99);
    assert_eq!(other.contents, "rust is fast");
    assert_eq!(page.relevancy(), 1);
}

#[test]
fn single_word_scores_one_per_body_hit() {
    assert_eq!(score_of("rust is fast", "Intro", "is", vec![]), 1);
    assert_eq!(score_of("go is simple", "Guide", "is", vec![]), 1);
    assert_eq!(score_of("is this his", "Guide", "is", vec![]), 3);
}

#[test]
fn a_page_without_a_match_scores_zero() {
    assert_eq!(score_of("go is simple", "Guide", "rust", vec![]), 0);
    assert_eq!(score_of("", "", "rust", vec![]), 0);
    assert_eq!(score_of("Rust", "", "rust", vec![]), 0);
}

#[test]
fn only_literal_substrings_contribute() {
    // "rust", "is", "fast" once each; "rust is" and "is fast" with weight 32;
    // "rust is fast" with weight 243; "rust fast" does not occur.
    assert_eq!(score_of("rust is fast", "", "rust is fast", vec!["rust fast"]), 310);
    assert_eq!(score_of("rust is fast", "", "rust is fast", vec![]), 310);
}

#[test]
fn a_keyword_that_occurs_counts_tenfold() {
    // "is" 1, "fast" 1, "is fast" 10 * 32.
    assert_eq!(score_of("rust is fast", "", "is fast", vec!["is fast"]), 322);
    assert_eq!(score_of("rust is fast", "", "is fast", vec![]), 34);
    assert_eq!(score_of("rust is fast", "", "is fast", vec!["fast"]), 1 + 10 + 32);
}

#[test]
fn a_hit_in_the_title_counts_twenty_five_times() {
    assert_eq!(score_of("fast", "fast cars", "fast", vec![]), 26);
    assert_eq!(score_of("fast fast", "fast fast fast", "fast", vec![]), 2 + 75);
}

#[test]
fn a_hit_in_the_title_alone_does_not_count() {
    assert_eq!(score_of("slow", "fast cars", "fast", vec![]), 0);
}

#[test]
fn the_search_phrase_is_put_in_lower_case() {
    assert_eq!(score_of("rust is fast", "", "RUST", vec![]), 1);
    assert_eq!(score_of("rust is fast", "", "Is Fast", vec![]), 34);
    assert_eq!(score_of("straße", "", "STRASSE", vec![]), 0);
    assert_eq!(score_of("ärger", "", "ÄRGER", vec![]), 1);
}

#[test]
fn candidates_of_a_short_phrase_are_all_its_subsets() {
    assert_eq!(candidates(&chars("is")), texts(&["is"]));
    assert_eq!(candidates(&chars("a b")), texts(&["a", "b", "a b"]));
    assert_eq!(
        candidates(&chars("rust is fast")),
        texts(&["rust", "is", "fast", "rust is", "rust fast", "is fast", "rust is fast"])
    );
    assert_eq!(candidates(&chars("a b c d")).len(), 15);
}

#[test]
fn candidates_of_a_long_phrase_leave_out_at_most_three_words() {
    let five = candidates(&chars("a b c d e"));
    assert_eq!(five.len(), 10 + 10 + 5 + 1);
    assert!(!five.contains(&chars("a")));
    assert_eq!(five[0], chars("a b"));
    assert_eq!(five[25], chars("a b c d e"));
    let six = candidates(&chars("a b c d e f"));
    assert_eq!(six.len(), 20 + 15 + 6 + 1);
    assert!(!six.contains(&chars("a b")));
    assert_eq!(six[0], chars("a b c"));
}

#[test]
fn candidates_are_kept_once() {
    assert_eq!(candidates(&chars("a a")), texts(&["a", "a a"]));
    assert_eq!(candidates(&chars("a a a")), texts(&["a", "a a", "a a a"]));
}

#[test]
fn candidates_are_trimmed() {
    // The words are "a", "" and "b".
    assert_eq!(candidates(&chars("a  b")), texts(&["a", "", "b", "a b", "a  b"]));
}

#[test]
fn candidates_of_the_empty_phrase() {
    assert_eq!(candidates(&chars("")), texts(&[""]));
}

#[test]
fn the_empty_candidate_matches_at_every_position() {
    // "a" once; "b" once; "" at the 4 positions of "a b", and 25 times at
    // the 2 positions of the title; "a b" and "a  b" do not occur as "a  b"
    // does not, "a b" does with weight 32.
    assert_eq!(score_of("a b", "t", "a  b", vec![]), 1 + 1 + (4 + 50) + 32);
}

#[test]
fn same_text_compares_character_by_character() {
    assert!(same_text(&chars("rust"), &chars("rust")));
    assert!(same_text(&chars(""), &chars("")));
    assert!(!same_text(&chars("rust"), &chars("rusty")));
    assert!(!same_text(&chars("rust"), &chars("ruse")));
}

#[test]
fn holds_finds_a_text_in_a_list() {
    let list = texts(&["rust", "is fast"]);
    assert!(holds(&list, &chars("is fast")));
    assert!(!holds(&list, &chars("is")));
    assert!(!holds(&texts(&[]), &chars("")));
}

#[test]
fn capped_sum_and_product() {
    assert_eq!(plus_capped(2, 3), 5);
    assert_eq!(plus_capped(u64::MAX, 0), u64::MAX);
    assert_eq!(plus_capped(u64::MAX - 1, 1), u64::MAX);
    assert_eq!(plus_capped(u64::MAX - 1, 2), u64::MAX);
    assert_eq!(plus_capped(u64::MAX, u64::MAX), u64::MAX);
    assert_eq!(times_capped(6, 7), 42);
    assert_eq!(times_capped(0, u64::MAX), 0);
    assert_eq!(times_capped(u64::MAX, 0), 0);
    assert_eq!(times_capped(1 << 32, 1 << 31), 1 << 63);
    assert_eq!(times_capped(1 << 32, 1 << 32), u64::MAX);
    assert_eq!(times_capped(u64::MAX, 2), u64::MAX);
}

#[test]
fn score_phrase_weighs_by_the_fifth_power_of_the_word_count() {
    let contents = chars("a b c d a b c d");
    let none = texts(&[]);
    assert_eq!(score_phrase(&contents, &chars(""), &none, &chars("a")), 2);
    assert_eq!(score_phrase(&contents, &chars(""), &none, &chars("a b")), 32 * 2);
    assert_eq!(score_phrase(&contents, &chars(""), &none, &chars("a b c")), 243 * 2);
    assert_eq!(score_phrase(&contents, &chars(""), &none, &chars("a b c d")), 1024 * 2);
    assert_eq!(score_phrase(&contents, &chars("a b"), &none, &chars("a b")), 32 * (2 + 25));
    assert_eq!(
        score_phrase(&contents, &chars("a b"), &texts(&["a b"]), &chars("a b")),
        10 * 32 * (2 + 25)
    );
    assert_eq!(score_phrase(&contents, &chars("x y"), &none, &chars("x y")), 0);
}

#[test]
fn a_score_beyond_the_largest_value_is_capped() {
    let words = vec!["a"; 8000].join(" ");
    let contents = chars(&words);
    let none = texts(&[]);
    assert_eq!(score_phrase(&contents, &chars(""), &none, &contents), u64::MAX);
    let twice = vec![contents.clone(), contents.clone()];
    assert_eq!(score_phrases(&contents, &chars(""), &none, &twice), u64::MAX);
}

#[test]
fn score_phrases_adds_what_each_phrase_adds() {
    let contents = chars("rust is fast");
    let phrases = texts(&["rust", "rust is", "rust fast", "rust is fast"]);
    assert_eq!(score_phrases(&contents, &chars(""), &texts(&[]), &phrases), 1 + 32 + 243);
    assert_eq!(score_phrases(&contents, &chars(""), &texts(&[]), &texts(&[])), 0);
}

#[test]
fn relevancy_is_the_score_of_the_candidates() {
    let contents = chars("rust is fast");
    let needle = chars("rust is fast");
    let phrases = candidates(&needle);
    let keywords = texts(&["rust is"]);
    assert_eq!(
        relevancy(&contents, &chars("rust"), &needle, &keywords),
        score_phrases(&contents, &chars("rust"), &keywords, &phrases)
    );
    // "rust" 1 + 25, "is" 1, "fast" 1, "rust is" 320, "is fast" 32, all 243.
    assert_eq!(relevancy(&contents, &chars("rust"), &needle, &keywords), 26 + 2 + 320 + 32 + 243);
}

#[test]
fn one_more_occurrence_never_lowers_the_score() {
    let needle = "rust is fast";
    let mut contents = String::from("rust is fast, and rust is safe");
    let mut last = score_of(&contents, "Rust", needle, vec!["rust is"]);
    for extra in [" rust", " is fast", " rust is fast", " slow", " rust is"] {
        contents.push_str(extra);
        let next = score_of(&contents, "Rust", needle, vec!["rust is"]);
        assert!(next >= last, "{} < {} after {:?}", next, last, extra);
        last = next;
    }
}

#[test]
fn texts_of_turns_each_slice_into_its_characters() {
    assert_eq!(texts_of(&vec!["rust", "", "is fast"]), texts(&["rust", "", "is fast"]));
    assert_eq!(texts_of(&vec![]), texts(&[]));
}
