//! A page: a title, a body of text, an optional key to order by, and the
//! score of the latest search.
use crate::score::{relevancy, relevancy_of};
use crate::text::{chars_of, saturated, views};
use vstd::prelude::*;

verus! {

/// What a page holds, as plain values.
pub ghost struct PageView {
    pub contents: Seq<char>,
    pub title: Seq<char>,
    pub sort_field: Option<i64>,
    pub relevancy: u64,
}

/// One unit of displayable content.
pub struct Page {
    /// The text displayed in the reader.
    pub contents: String,
    /// The text displayed in the dock.
    pub title: String,
    /// A key by which filtered pages are ordered, the largest first. Pages
    /// without one are ordered by their relevancy.
    pub sort_field: Option<i64>,
    relevancy: u64,
}

impl View for Page {
    type V = PageView;

    closed spec fn view(&self) -> PageView {
        PageView {
            contents: self.contents@,
            title: self.title@,
            sort_field: self.sort_field,
            relevancy: self.relevancy,
        }
    }
}

/// The texts of a list of string slices.
pub open spec fn texts(list: Seq<&str>) -> Seq<Seq<char>> {
    Seq::new(list.len(), |i: int| list[i]@)
}

/// The views of a list of pages.
pub open spec fn page_views(pages: Seq<Page>) -> Seq<PageView> {
    Seq::new(pages.len(), |i: int| pages[i]@)
}

/// The texts of a list of string slices, each as a vector of characters.
pub fn texts_of(list: &Vec<&str>) -> (out: Vec<Vec<char>>)
    ensures
        views(out@) == texts(list@),
{
    let mut out: Vec<Vec<char>> = Vec::new();
    let mut i: usize = 0;
    while i < list.len()
        invariant
            i <= list.len(),
            views(out@) =~= texts(list@).take(i as int),
        decreases list.len() - i,
    {
        let ghost before = views(out@);
        let text = chars_of(list[i]);
        out.push(text);
        assert(views(out@) =~= before.push(list[i as int]@));
        i += 1;
    }
    assert(texts(list@).take(list.len() as int) =~= texts(list@));
    out
}

impl Page {
    /// A page that no search has scored yet: its relevancy is zero.
    pub fn new(contents: String, title: String, sort_field: Option<i64>) -> (page: Page)
        ensures
            page@ == (PageView {
                contents: contents@,
                title: title@,
                sort_field,
                relevancy: 0,
            }),
    {
        Page { contents, title, sort_field, relevancy: 0 }
    }

    /// The score that the latest search gave this page.
    pub fn relevancy(&self) -> (score: u64)
        ensures
            score == self@.relevancy,
    {
        self.relevancy
    }

    /// The key by which this page is ordered, if it has one.
    pub fn sort_key(&self) -> (key: Option<i64>)
        ensures
            key == self@.sort_field,
    {
        self.sort_field
    }

    /// The characters of the text displayed in the reader.
    pub fn contents_chars(&self) -> (chars: Vec<char>)
        ensures
            chars@ == self@.contents,
    {
        chars_of(self.contents.as_str())
    }

    /// The characters of the text displayed in the dock.
    pub fn title_chars(&self) -> (chars: Vec<char>)
        ensures
            chars@ == self@.title,
    {
        chars_of(self.title.as_str())
    }

    /// A copy of the text displayed in the reader.
    pub fn contents_text(&self) -> (text: String)
        ensures
            text@ == self@.contents,
    {
        self.contents.clone()
    }

    /// This page with another score.
    pub fn with_relevancy(&self, score: u64) -> (page: Page)
        ensures
            page@ == (PageView { relevancy: score, ..self@ }),
    {
        Page {
            contents: self.contents.clone(),
            title: self.title.clone(),
            sort_field: self.sort_field,
            relevancy: score,
        }
    }

    /// Scores this page for the search phrase `needle`, which the caller has
    /// trimmed and put in lower case. The score is capped at the largest
    /// `u64`. Nothing else of the page changes.
    pub fn search(&mut self, needle: &str, keywords: Vec<&str>)
        ensures
            final(self)@ == (PageView {
                relevancy: saturated(
                    relevancy_of(
                        old(self)@.contents,
                        old(self)@.title,
                        needle@,
                        texts(keywords@),
                    ),
                ),
                ..old(self)@
            }),
    {
        let contents = self.contents_chars();
        let title = self.title_chars();
        let phrase = chars_of(needle);
        let priority = texts_of(&keywords);
        self.relevancy = relevancy(&contents, &title, &phrase, &priority);
    }
}

impl Clone for Page {
    /// A page with the same contents, title, key and score.
    fn clone(&self) -> (page: Page)
        ensures
            page@ == self@,
    {
        self.with_relevancy(self.relevancy)
    }
}

} // verus!
