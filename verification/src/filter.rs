//! Filtering a collection of pages by a search phrase.
//!
//! An empty phrase shows every page as it is. Any other phrase scores every
//! page, keeps those with a score above zero, and orders them.
use crate::page::{page_views, texts, texts_of, Page, PageView};
use crate::rank::{lemma_ranked_is_permutation, lemma_ranked_keeps, rank, ranked};
use crate::score::{candidate_phrases, candidates, relevancy_of, score_phrases};
use crate::text::{lowercase, lowercase_of, saturated, trim, trimmed};
use vstd::prelude::*;

verus! {

/// The form in which a search phrase is held against the pages: without the
/// white space at its ends, in lower case.
pub open spec fn normalized(phrase: Seq<char>) -> Seq<char> {
    lowercase_of(trimmed(phrase))
}

/// The page `p` with the score that the search phrase `needle` gives it.
pub open spec fn rescored(p: PageView, needle: Seq<char>, keywords: Seq<Seq<char>>) -> PageView {
    PageView {
        relevancy: saturated(relevancy_of(p.contents, p.title, needle, keywords)),
        ..p
    }
}

/// Every page with its score for the search phrase `needle`.
pub open spec fn scored(pages: Seq<PageView>, needle: Seq<char>, keywords: Seq<Seq<char>>) -> Seq<
    PageView,
> {
    Seq::new(pages.len(), |i: int| rescored(pages[i], needle, keywords))
}

/// The pages with a score above zero, in the order they stand in.
pub open spec fn matching(pages: Seq<PageView>) -> Seq<PageView>
    decreases pages.len(),
{
    if pages.len() == 0 {
        pages
    } else {
        let before = matching(pages.drop_last());
        if pages.last().relevancy > 0 {
            before.push(pages.last())
        } else {
            before
        }
    }
}

/// The pages shown for a search phrase: all of them, untouched, where the
/// phrase is empty but for white space; else those that match its normalized
/// form, ordered.
pub open spec fn search_result(
    pages: Seq<PageView>,
    phrase: Seq<char>,
    keywords: Seq<Seq<char>>,
) -> Seq<PageView> {
    if trimmed(phrase).len() == 0 {
        pages
    } else {
        ranked(matching(scored(pages, normalized(phrase), keywords)))
    }
}

/// A copy of a list of pages.
pub fn clone_pages(pages: &Vec<Page>) -> (out: Vec<Page>)
    ensures
        page_views(out@) == page_views(pages@),
{
    let mut out: Vec<Page> = Vec::new();
    let mut i: usize = 0;
    while i < pages.len()
        invariant
            i <= pages.len(),
            page_views(out@) =~= page_views(pages@).take(i as int),
        decreases pages.len() - i,
    {
        let ghost before = page_views(out@);
        let page = pages[i].clone();
        out.push(page);
        assert(page_views(out@) =~= before.push(pages[i as int]@));
        i += 1;
    }
    assert(page_views(pages@).take(pages.len() as int) =~= page_views(pages@));
    out
}

/// The pages to show for the search phrase `phrase`, with the phrases of
/// `keywords` given priority.
pub fn find_pages(pages: &Vec<Page>, phrase: &Vec<char>, keywords: &Vec<&str>) -> (out: Vec<Page>)
    ensures
        page_views(out@) == search_result(page_views(pages@), phrase@, texts(keywords@)),
{
    let bare = trim(phrase);
    if bare.len() == 0 {
        return clone_pages(pages);
    }
    let needle = lowercase(&bare);
    let phrases = candidates(&needle);
    let priority = texts_of(keywords);
    let ghost all = scored(page_views(pages@), needle@, texts(keywords@));
    let mut kept: Vec<Page> = Vec::new();
    let mut i: usize = 0;
    assert(all.take(0) =~= Seq::<PageView>::empty());
    assert(page_views(kept@) =~= Seq::<PageView>::empty());
    while i < pages.len()
        invariant
            i <= pages.len(),
            all == scored(page_views(pages@), needle@, texts(keywords@)),
            crate::text::views(phrases@) == candidate_phrases(needle@),
            crate::text::views(priority@) == texts(keywords@),
            page_views(kept@) == matching(all.take(i as int)),
        decreases pages.len() - i,
    {
        let page = &pages[i];
        let contents = page.contents_chars();
        let title = page.title_chars();
        let score = score_phrases(&contents, &title, &priority, &phrases);
        let ghost before = page_views(kept@);
        proof {
            let upto = all.take(i + 1);
            assert(upto.drop_last() =~= all.take(i as int));
            assert(upto.last() == rescored(pages[i as int]@, needle@, texts(keywords@)));
        }
        if score > 0 {
            kept.push(page.with_relevancy(score));
            assert(page_views(kept@) =~= before.push(all[i as int]));
        }
        i += 1;
    }
    assert(all.take(pages.len() as int) =~= all);
    rank(kept)
}

/// The empty phrase shows every page, in the order and with the contents
/// in which the pages were loaded.
pub proof fn lemma_empty_phrase_shows_all(pages: Seq<PageView>, keywords: Seq<Seq<char>>)
    ensures
        search_result(pages, Seq::<char>::empty(), keywords) == pages,
{
    assert(trimmed(Seq::<char>::empty()).len() == 0);
}

/// A page is among the matching pages exactly when it is among the pages
/// and its score is above zero.
pub proof fn lemma_matching_members(pages: Seq<PageView>, p: PageView)
    ensures
        matching(pages).contains(p) <==> pages.contains(p) && p.relevancy > 0,
    decreases pages.len(),
{
    if pages.len() > 0 {
        let front = pages.drop_last();
        let before = matching(front);
        lemma_matching_members(front, p);
        if pages.contains(p) {
            let i = choose|i: int| 0 <= i < pages.len() && pages[i] == p;
            if i < pages.len() - 1 {
                assert(front[i] == p);
            }
        }
        if front.contains(p) {
            let i = choose|i: int| 0 <= i < front.len() && front[i] == p;
            assert(pages[i] == p);
        }
        assert(pages[pages.len() - 1] == pages.last());
        if pages.last().relevancy > 0 {
            let kept = before.push(pages.last());
            assert(kept[kept.len() - 1] == pages.last());
            if before.contains(p) {
                let i = choose|i: int| 0 <= i < before.len() && before[i] == p;
                assert(kept[i] == p);
            }
            if kept.contains(p) {
                let i = choose|i: int| 0 <= i < kept.len() && kept[i] == p;
                if i < before.len() {
                    assert(before[i] == p);
                }
            }
        }
    }
}

/// Every matching page has a score above zero.
pub proof fn lemma_matching_all_match(pages: Seq<PageView>)
    ensures
        forall|i: int| 0 <= i < matching(pages).len() ==> (#[trigger] matching(pages)[i]).relevancy > 0,
    decreases pages.len(),
{
    if pages.len() > 0 {
        lemma_matching_all_match(pages.drop_last());
    }
}

/// For a phrase that is not empty but for white space, the pages shown are
/// the matching pages, rearranged: each has a score above zero, and no page
/// with a score of zero is among them.
pub proof fn lemma_shown_pages_match(
    pages: Seq<PageView>,
    phrase: Seq<char>,
    keywords: Seq<Seq<char>>,
)
    requires
        trimmed(phrase).len() > 0,
    ensures
        forall|i: int|
            0 <= i < search_result(pages, phrase, keywords).len() ==> (#[trigger] search_result(
                pages,
                phrase,
                keywords,
            )[i]).relevancy > 0,
        search_result(pages, phrase, keywords).to_multiset() == matching(
            scored(pages, normalized(phrase), keywords),
        ).to_multiset(),
{
    let kept = matching(scored(pages, normalized(phrase), keywords));
    lemma_matching_all_match(scored(pages, normalized(phrase), keywords));
    lemma_ranked_keeps(kept, |p: PageView| p.relevancy > 0);
    lemma_ranked_is_permutation(kept);
}

} // verus!
