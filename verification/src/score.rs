//! The relevancy of a page for a search phrase.
//!
//! The phrase is split into words. Every choice of words that leaves out at
//! most three of them, kept in their order, is joined into a candidate
//! phrase. Each distinct candidate that occurs in the page's contents adds to
//! the score by its number of words, its occurrences in contents and title,
//! and a bonus where it is one of the keywords.
use crate::combos::{choices_view, combinations, index_combinations, is_choice, lists_choices};
use crate::text::{
    contains, count_occurrences, join_picked, join_words, lowercase, lowercase_of, occurrences,
    occurs_in, picked, saturated, split_on_space, split_words, trim, trimmed, views,
    lemma_occurrences_longer, lemma_occurs_iff_counted, lemma_split_words_nonempty,
};
use vstd::prelude::*;

verus! {

/// The fewest words that a candidate phrase is made of, for a search phrase
/// of `n` words: three less than `n`, and at least one.
pub open spec fn smallest_size(n: nat) -> nat {
    if n > 4 {
        (n - 3) as nat
    } else {
        1
    }
}

/// The candidate phrase that the words at the positions `picks` make.
pub open spec fn phrase_of(words: Seq<Seq<char>>, picks: Seq<usize>) -> Seq<char> {
    trimmed(lowercase_of(join_words(picked(words, picks))))
}

/// The candidate phrases made of `k` words, one for each choice of positions.
pub open spec fn phrases_of_size(words: Seq<Seq<char>>, k: nat) -> Seq<Seq<char>> {
    let choices = index_combinations(words.len() as usize, k as usize);
    Seq::new(choices.len(), |i: int| phrase_of(words, choices[i]))
}

/// The candidate phrases made of `lo` to `hi` words, the shorter ones first.
pub open spec fn phrases_between(words: Seq<Seq<char>>, lo: nat, hi: nat) -> Seq<Seq<char>>
    decreases hi,
{
    if hi < lo || hi == 0 {
        Seq::<Seq<char>>::empty()
    } else {
        phrases_between(words, lo, (hi - 1) as nat) + phrases_of_size(words, hi)
    }
}

/// `s` with each text kept where it first stands and dropped where it comes
/// again.
pub open spec fn distinct(s: Seq<Seq<char>>) -> Seq<Seq<char>>
    decreases s.len(),
{
    if s.len() == 0 {
        s
    } else {
        let before = distinct(s.drop_last());
        if before.contains(s.last()) {
            before
        } else {
            before.push(s.last())
        }
    }
}

/// The candidate phrases of a search phrase, each once.
pub open spec fn candidate_phrases(needle: Seq<char>) -> Seq<Seq<char>> {
    let words = split_words(needle);
    distinct(phrases_between(words, smallest_size(words.len()), words.len()))
}

/// The number of words of a phrase.
pub open spec fn word_count(phrase: Seq<char>) -> nat {
    split_words(phrase).len()
}

/// The weight of a phrase by its length: the fifth power of its word count.
pub open spec fn size_weight(phrase: Seq<char>) -> nat {
    let w = word_count(phrase);
    w * w * w * w * w
}

/// The weight of a phrase by priority: ten for a keyword, one otherwise.
pub open spec fn keyword_weight(keywords: Seq<Seq<char>>, phrase: Seq<char>) -> nat {
    if keywords.contains(phrase) {
        10
    } else {
        1
    }
}

/// The weighted number of hits of a phrase: each occurrence in the contents
/// counts once, each occurrence in the title twenty-five times.
pub open spec fn hits(contents: Seq<char>, title: Seq<char>, phrase: Seq<char>) -> nat {
    occurrences(contents, phrase) + 25 * occurrences(title, phrase)
}

/// What one candidate phrase adds to the score of a page: nothing unless it
/// occurs in the contents.
pub open spec fn phrase_score(
    contents: Seq<char>,
    title: Seq<char>,
    keywords: Seq<Seq<char>>,
    phrase: Seq<char>,
) -> nat {
    if occurs_in(phrase, contents) {
        keyword_weight(keywords, phrase) * size_weight(phrase) * hits(contents, title, phrase)
    } else {
        0
    }
}

/// The sum of what the phrases add.
pub open spec fn total_score(
    contents: Seq<char>,
    title: Seq<char>,
    keywords: Seq<Seq<char>>,
    phrases: Seq<Seq<char>>,
) -> nat
    decreases phrases.len(),
{
    if phrases.len() == 0 {
        0
    } else {
        total_score(contents, title, keywords, phrases.drop_last()) + phrase_score(
            contents,
            title,
            keywords,
            phrases.last(),
        )
    }
}

/// The relevancy of a page with these contents and this title for the search
/// phrase `needle`.
pub open spec fn relevancy_of(
    contents: Seq<char>,
    title: Seq<char>,
    needle: Seq<char>,
    keywords: Seq<Seq<char>>,
) -> nat {
    total_score(contents, title, keywords, candidate_phrases(needle))
}

/// Capping a sum of capped numbers caps the sum.
pub proof fn lemma_capped_sum(a: nat, b: nat)
    ensures
        saturated((saturated(a) + saturated(b)) as nat) == saturated(a + b),
{
}

/// Capping a product of capped numbers caps the product.
pub proof fn lemma_capped_product(a: nat, b: nat)
    ensures
        saturated((saturated(a) * saturated(b)) as nat) == saturated(a * b),
{
    let cap = u64::MAX as nat;
    if a <= cap && b <= cap {
    } else if a == 0 || b == 0 {
        assert(a * b == 0) by (nonlinear_arith)
            requires
                a == 0 || b == 0,
        ;
        assert(saturated(a) * saturated(b) == 0) by (nonlinear_arith)
            requires
                saturated(a) == 0 || saturated(b) == 0,
        ;
    } else {
        assert(a * b >= cap) by (nonlinear_arith)
            requires
                a >= 1,
                b >= 1,
                a > cap || b > cap,
        ;
        let x = saturated(a) as nat;
        let y = saturated(b) as nat;
        assert(x * y >= cap) by (nonlinear_arith)
            requires
                x >= 1,
                y >= 1,
                x >= cap || y >= cap,
        ;
    }
}

/// The sum of two numbers, capped at the largest `u64`.
pub fn plus_capped(a: u64, b: u64) -> (c: u64)
    ensures
        c == saturated((a + b) as nat),
{
    if a > u64::MAX - b {
        u64::MAX
    } else {
        a + b
    }
}

/// The product of two numbers, capped at the largest `u64`.
pub fn times_capped(a: u64, b: u64) -> (c: u64)
    ensures
        c == saturated((a * b) as nat),
{
    if a == 0 || b == 0 {
        assert(a * b == 0) by (nonlinear_arith)
            requires
                a == 0 || b == 0,
        ;
        0
    } else if a > u64::MAX / b {
        assert(a * b > u64::MAX) by (nonlinear_arith)
            requires
                b > 0,
                a > u64::MAX / b,
        ;
        u64::MAX
    } else {
        assert(a * b <= u64::MAX) by (nonlinear_arith)
            requires
                b > 0,
                a <= u64::MAX / b,
        ;
        a * b
    }
}

/// Tells whether two texts are the same.
pub fn same_text(a: &Vec<char>, b: &Vec<char>) -> (same: bool)
    ensures
        same == (a@ == b@),
{
    if a.len() != b.len() {
        return false;
    }
    let mut i: usize = 0;
    while i < a.len()
        invariant
            a.len() == b.len(),
            i <= a.len(),
            forall|j: int| 0 <= j < i ==> a@[j] == b@[j],
        decreases a.len() - i,
    {
        if a[i] != b[i] {
            return false;
        }
        i += 1;
    }
    assert(a@ =~= b@);
    true
}

/// Tells whether `text` is one of the texts of `list`.
pub fn holds(list: &Vec<Vec<char>>, text: &Vec<char>) -> (found: bool)
    ensures
        found == views(list@).contains(text@),
{
    let mut i: usize = 0;
    while i < list.len()
        invariant
            i <= list.len(),
            forall|j: int| 0 <= j < i ==> views(list@)[j] != text@,
        decreases list.len() - i,
    {
        if same_text(&list[i], text) {
            assert(views(list@)[i as int] == text@);
            return true;
        }
        i += 1;
    }
    false
}

/// The candidate phrases of the search phrase `needle`, each once, in the
/// order in which they are first made: by rising number of words.
pub fn candidates(needle: &Vec<char>) -> (phrases: Vec<Vec<char>>)
    ensures
        views(phrases@) == candidate_phrases(needle@),
{
    let words = split_on_space(needle);
    let n: usize = words.len();
    let lo: usize = if n > 4 { n - 3 } else { 1 };
    let span: usize = n - lo;
    let ghost w = views(words@);
    let mut phrases: Vec<Vec<char>> = Vec::new();
    let mut d: usize = 0;
    assert(views(phrases@) =~= distinct(phrases_between(w, lo as nat, (lo - 1) as nat)));
    while d <= span
        invariant
            1 <= lo <= n,
            span == n - lo,
            d <= span + 1,
            n == words.len(),
            w == views(words@),
            views(phrases@) == distinct(phrases_between(w, lo as nat, (lo + d - 1) as nat)),
        decreases span + 1 - d,
    {
        let k: usize = lo + d;
        let choices = combinations(n, k);
        let ghost shorter = phrases_between(w, lo as nat, (k - 1) as nat);
        let ghost sized = phrases_of_size(w, k as nat);
        assert(choices_view(choices@) == index_combinations(w.len() as usize, k as nat as usize));
        assert(sized.len() == choices.len());
        let mut i: usize = 0;
        assert(shorter + sized.take(0) =~= shorter);
        while i < choices.len()
            invariant
                i <= choices.len(),
                n == words.len(),
                w == views(words@),
                sized == phrases_of_size(w, k as nat),
                sized.len() == choices.len(),
                choices_view(choices@) == index_combinations(w.len() as usize, k as nat as usize),
                lists_choices(choices_view(choices@), n, k),
                views(phrases@) == distinct(shorter + sized.take(i as int)),
            decreases choices.len() - i,
        {
            let picks = &choices[i];
            assert(choices_view(choices@)[i as int] == picks@);
            assert(is_choice(picks@, n, k));
            let joined = join_picked(&words, picks);
            let lowered = lowercase(&joined);
            let phrase = trim(&lowered);
            proof {
                assert(choices_view(choices@)[i as int] == picks@);
                assert(phrase@ == sized[i as int]);
                let upto = shorter + sized.take(i + 1);
                assert(upto.drop_last() =~= shorter + sized.take(i as int));
                assert(upto.last() == phrase@);
            }
            let ghost before = views(phrases@);
            if !holds(&phrases, &phrase) {
                phrases.push(phrase);
                assert(views(phrases@) =~= before.push(phrase@));
            }
            i += 1;
        }
        proof {
            assert(sized.take(choices.len() as int) =~= sized);
            assert(phrases_between(w, lo as nat, k as nat) == shorter + sized);
        }
        d += 1;
    }
    proof {
        lemma_split_words_nonempty(needle@);
    }
    phrases
}

/// What the candidate phrase `phrase` adds to the score of a page, capped at
/// the largest `u64`.
pub fn score_phrase(
    contents: &Vec<char>,
    title: &Vec<char>,
    keywords: &Vec<Vec<char>>,
    phrase: &Vec<char>,
) -> (score: u64)
    ensures
        score == saturated(phrase_score(contents@, title@, views(keywords@), phrase@)),
{
    if !contains(contents, phrase) {
        return 0;
    }
    let w: u64 = split_on_space(phrase).len() as u64;
    let w2 = times_capped(w, w);
    let w3 = times_capped(w2, w);
    let w4 = times_capped(w3, w);
    let w5 = times_capped(w4, w);
    let boost: u64 = if holds(keywords, phrase) { 10 } else { 1 };
    let weight = times_capped(boost, w5);
    let in_contents = count_occurrences(contents, phrase);
    let in_title = count_occurrences(title, phrase);
    let found = plus_capped(in_contents, times_capped(25, in_title));
    let score = times_capped(weight, found);
    proof {
        let n = word_count(phrase@);
        assert(w == n);
        lemma_capped_product(n * n, n);
        lemma_capped_product(n * n * n, n);
        lemma_capped_product(n * n * n * n, n);
        assert(w5 == saturated(size_weight(phrase@)));
        let kw = keyword_weight(views(keywords@), phrase@);
        lemma_capped_product(kw, size_weight(phrase@));
        assert(weight == saturated(kw * size_weight(phrase@)));
        let c = occurrences(contents@, phrase@);
        let t = occurrences(title@, phrase@);
        lemma_capped_product(25, t);
        lemma_capped_sum(c, 25 * t);
        assert(found == saturated(hits(contents@, title@, phrase@)));
        lemma_capped_product(kw * size_weight(phrase@), hits(contents@, title@, phrase@));
    }
    score
}

/// The sum of what the phrases add to the score of a page, capped at the
/// largest `u64`.
pub fn score_phrases(
    contents: &Vec<char>,
    title: &Vec<char>,
    keywords: &Vec<Vec<char>>,
    phrases: &Vec<Vec<char>>,
) -> (score: u64)
    ensures
        score == saturated(total_score(contents@, title@, views(keywords@), views(phrases@))),
{
    let mut score: u64 = 0;
    let mut i: usize = 0;
    let ghost all = views(phrases@);
    while i < phrases.len()
        invariant
            i <= phrases.len(),
            all == views(phrases@),
            score == saturated(total_score(contents@, title@, views(keywords@), all.take(i as int))),
        decreases phrases.len() - i,
    {
        let one = score_phrase(contents, title, keywords, &phrases[i]);
        proof {
            let upto = all.take(i + 1);
            assert(upto.drop_last() =~= all.take(i as int));
            assert(upto.last() == phrases[i as int]@);
            lemma_capped_sum(
                total_score(contents@, title@, views(keywords@), all.take(i as int)),
                phrase_score(contents@, title@, views(keywords@), phrases[i as int]@),
            );
        }
        score = plus_capped(score, one);
        i += 1;
    }
    assert(all.take(phrases.len() as int) =~= all);
    score
}

/// The relevancy of a page with these contents and this title for the search
/// phrase `needle`, capped at the largest `u64`.
pub fn relevancy(
    contents: &Vec<char>,
    title: &Vec<char>,
    needle: &Vec<char>,
    keywords: &Vec<Vec<char>>,
) -> (score: u64)
    ensures
        score == saturated(relevancy_of(contents@, title@, needle@, views(keywords@))),
{
    let phrases = candidates(needle);
    score_phrases(contents, title, keywords, &phrases)
}

/// What a phrase adds never falls where its occurrences in the contents do
/// not fall, all else the same.
pub proof fn lemma_phrase_score_monotone(
    fewer: Seq<char>,
    more: Seq<char>,
    title: Seq<char>,
    keywords: Seq<Seq<char>>,
    phrase: Seq<char>,
)
    requires
        occurrences(fewer, phrase) <= occurrences(more, phrase),
    ensures
        phrase_score(fewer, title, keywords, phrase) <= phrase_score(more, title, keywords, phrase),
{
    lemma_occurs_iff_counted(phrase, fewer);
    lemma_occurs_iff_counted(phrase, more);
    if occurs_in(phrase, fewer) {
        let weight = keyword_weight(keywords, phrase) * size_weight(phrase);
        let low = hits(fewer, title, phrase);
        let high = hits(more, title, phrase);
        assert(weight * low <= weight * high) by (nonlinear_arith)
            requires
                low <= high,
                weight >= 0,
        ;
    }
}

/// What the phrases add together never falls where the occurrences of none
/// of them in the contents fall, all else the same.
pub proof fn lemma_total_score_monotone(
    fewer: Seq<char>,
    more: Seq<char>,
    title: Seq<char>,
    keywords: Seq<Seq<char>>,
    phrases: Seq<Seq<char>>,
)
    requires
        forall|i: int|
            0 <= i < phrases.len() ==> occurrences(fewer, #[trigger] phrases[i]) <= occurrences(
                more,
                phrases[i],
            ),
    ensures
        total_score(fewer, title, keywords, phrases) <= total_score(more, title, keywords, phrases),
    decreases phrases.len(),
{
    if phrases.len() > 0 {
        let front = phrases.drop_last();
        assert forall|i: int| 0 <= i < front.len() implies occurrences(
            fewer,
            #[trigger] front[i],
        ) <= occurrences(more, front[i]) by {
            assert(front[i] == phrases[i]);
        }
        lemma_total_score_monotone(fewer, more, title, keywords, front);
        assert(phrases.last() == phrases[phrases.len() - 1]);
        lemma_phrase_score_monotone(fewer, more, title, keywords, phrases.last());
    }
}

/// Scoring is monotonic in the number of matches: where every candidate
/// phrase occurs in one contents at least as often as in another, title,
/// search phrase and keywords the same, the relevancy is at least as large,
/// capped or not.
pub proof fn lemma_more_occurrences_never_lower(
    fewer: Seq<char>,
    more: Seq<char>,
    title: Seq<char>,
    needle: Seq<char>,
    keywords: Seq<Seq<char>>,
)
    requires
        forall|i: int|
            0 <= i < candidate_phrases(needle).len() ==> occurrences(
                fewer,
                #[trigger] candidate_phrases(needle)[i],
            ) <= occurrences(more, candidate_phrases(needle)[i]),
    ensures
        relevancy_of(fewer, title, needle, keywords) <= relevancy_of(more, title, needle, keywords),
        saturated(relevancy_of(fewer, title, needle, keywords)) <= saturated(
            relevancy_of(more, title, needle, keywords),
        ),
{
    lemma_total_score_monotone(fewer, more, title, keywords, candidate_phrases(needle));
}

/// More text at the end of the contents, such as one more occurrence of a
/// candidate phrase, never lowers the relevancy.
pub proof fn lemma_appending_never_lowers(
    contents: Seq<char>,
    extra: Seq<char>,
    title: Seq<char>,
    needle: Seq<char>,
    keywords: Seq<Seq<char>>,
)
    ensures
        relevancy_of(contents, title, needle, keywords) <= relevancy_of(
            contents + extra,
            title,
            needle,
            keywords,
        ),
{
    let phrases = candidate_phrases(needle);
    assert forall|i: int| 0 <= i < phrases.len() implies occurrences(
        contents,
        #[trigger] phrases[i],
    ) <= occurrences(contents + extra, phrases[i]) by {
        lemma_occurrences_longer(contents, extra, phrases[i]);
    }
    lemma_more_occurrences_never_lower(contents, contents + extra, title, needle, keywords);
}

} // verus!
