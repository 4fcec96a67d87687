//! The state of an interactive session and what each input does to it.
use crate::filter::{clone_pages, find_pages, lemma_empty_phrase_shows_all, search_result};
use crate::input::{is_quit, quits, Event, Key, KeyCode, Step};
use crate::page::{page_views, texts, Page, PageView};
use crate::score::same_text;
use crate::text::chars_of;
use vstd::prelude::*;

verus! {

/// What a session holds, as plain values.
pub ghost struct AppView {
    pub selected: Option<usize>,
    pub pages: Seq<PageView>,
    pub current_pages: Seq<PageView>,
    pub scroll: u16,
    pub search: Seq<char>,
    pub latest_search: Seq<char>,
    pub show_dock: bool,
    pub show_popup: bool,
    pub popup_content: Seq<char>,
}

/// The state of a session.
pub struct App {
    /// The row of the dock that is selected, if any.
    pub selected: Option<usize>,
    /// All pages, as they were loaded.
    pub pages: Vec<Page>,
    /// The pages that are displayed at any moment: all of them at the
    /// beginning, then those that the latest search kept.
    pub current_pages: Vec<Page>,
    scroll: u16,
    /// Characters typed in the search bar.
    pub search: Vec<char>,
    latest_search: Vec<char>,
    show_dock: bool,
    pub show_popup: bool,
    pub popup_content: String,
}

impl View for App {
    type V = AppView;

    closed spec fn view(&self) -> AppView {
        AppView {
            selected: self.selected,
            pages: page_views(self.pages@),
            current_pages: page_views(self.current_pages@),
            scroll: self.scroll,
            search: self.search@,
            latest_search: self.latest_search@,
            show_dock: self.show_dock,
            show_popup: self.show_popup,
            popup_content: self.popup_content@,
        }
    }
}

/// The selection after the displayed pages were replaced by `len` pages: the
/// first row, or none where nothing is displayed.
pub open spec fn first_row(len: nat) -> Option<usize> {
    if len > 0 {
        Some(0)
    } else {
        None
    }
}

/// The selection one row below `selected` among `len` rows: it stops at the
/// last row, and is the first row where nothing was selected.
pub open spec fn row_below(selected: Option<usize>, len: nat) -> Option<usize> {
    if len == 0 {
        None
    } else {
        match selected {
            Some(i) => if i + 1 < len {
                Some((i + 1) as usize)
            } else {
                Some((len - 1) as usize)
            },
            None => Some(0),
        }
    }
}

/// The selection one row above `selected` among `len` rows: it stops at the
/// first row, and is the first row where nothing was selected.
pub open spec fn row_above(selected: Option<usize>, len: nat) -> Option<usize> {
    if len == 0 {
        None
    } else {
        match selected {
            Some(i) => if i == 0 {
                Some(0)
            } else if i - 1 < len {
                Some((i - 1) as usize)
            } else {
                Some((len - 1) as usize)
            },
            None => Some(0),
        }
    }
}

/// The session after the selection moved one row down.
pub open spec fn after_next(v: AppView) -> AppView {
    AppView { selected: row_below(v.selected, v.current_pages.len()), scroll: 0, ..v }
}

/// The session after the selection moved one row up.
pub open spec fn after_previous(v: AppView) -> AppView {
    AppView { selected: row_above(v.selected, v.current_pages.len()), scroll: 0, ..v }
}

/// The session after the reader scrolled one line down.
pub open spec fn after_scroll_down(v: AppView) -> AppView {
    AppView { scroll: if v.scroll == u16::MAX { v.scroll } else { (v.scroll + 1) as u16 }, ..v }
}

/// The session after the reader scrolled one line up.
pub open spec fn after_scroll_up(v: AppView) -> AppView {
    AppView { scroll: if v.scroll == 0 { v.scroll } else { (v.scroll - 1) as u16 }, ..v }
}

/// The text shown in the reader: the contents of the selected page, and
/// nothing where no displayed page is selected.
pub open spec fn current_text(v: AppView) -> Seq<char> {
    match v.selected {
        Some(i) => if i < v.current_pages.len() {
            v.current_pages[i as int].contents
        } else {
            Seq::<char>::empty()
        },
        None => Seq::<char>::empty(),
    }
}

/// The session after the search phrase `phrase` was applied: the displayed
/// pages are replaced, the first row is selected and the reader is at the
/// top.
pub open spec fn after_search(v: AppView, phrase: Seq<char>, keywords: Seq<Seq<char>>) -> AppView {
    let shown = search_result(v.pages, phrase, keywords);
    AppView { current_pages: shown, selected: first_row(shown.len()), scroll: 0, ..v }
}

/// The session after the key `key` was handled. With the control modifier
/// the key moves the selection, scrolls or toggles; without it, it edits the
/// search bar. The key that ends the session changes nothing.
pub open spec fn after_key(v: AppView, key: Key) -> AppView {
    if key.control {
        match key.code {
            KeyCode::Char(c) => if c == 'd' {
                after_scroll_down(v)
            } else if c == 'u' {
                after_scroll_up(v)
            } else if c == 'j' {
                after_next(v)
            } else if c == 'k' {
                after_previous(v)
            } else if c == 'b' {
                AppView { show_dock: !v.show_dock, ..v }
            } else if c == 'p' {
                AppView { show_popup: !v.show_popup, ..v }
            } else {
                v
            },
            _ => v,
        }
    } else {
        match key.code {
            KeyCode::Backspace => AppView {
                search: if v.search.len() > 0 {
                    v.search.drop_last()
                } else {
                    v.search
                },
                ..v
            },
            KeyCode::Char(c) => AppView { search: v.search.push(c), ..v },
            KeyCode::Other => v,
        }
    }
}

/// The session after the event `event` was handled.
pub open spec fn after_event(v: AppView, event: Event) -> AppView {
    match event {
        Event::Key(key) => after_key(v, key),
        Event::LeftClick => AppView { show_popup: false, ..v },
        Event::Other => v,
    }
}

/// What the loop does after the event `event`.
pub open spec fn step_after(event: Event) -> Step {
    match event {
        Event::Key(key) => if quits(key) {
            Step::Exit
        } else {
            Step::Hook
        },
        _ => Step::Continue,
    }
}

/// The search bar holds a phrase that has not been applied yet.
pub open spec fn is_dirty(v: AppView) -> bool {
    v.search != v.latest_search
}

/// The session after no input came for a while: a phrase that has not been
/// applied yet is applied and remembered.
pub open spec fn after_idle(v: AppView, keywords: Seq<Seq<char>>) -> AppView {
    if is_dirty(v) {
        AppView { latest_search: v.search, ..after_search(v, v.search, keywords) }
    } else {
        v
    }
}

/// A copy of a text.
pub fn copy_chars(text: &Vec<char>) -> (out: Vec<char>)
    ensures
        out@ == text@,
{
    let mut out: Vec<char> = Vec::new();
    let mut i: usize = 0;
    while i < text.len()
        invariant
            i <= text.len(),
            out@ =~= text@.take(i as int),
        decreases text.len() - i,
    {
        out.push(text[i]);
        i += 1;
    }
    assert(text@.take(text.len() as int) =~= text@);
    out
}

impl App {
    /// A session over `pages`: all of them are displayed, none is selected,
    /// the search bar is empty, the dock is shown and the popup is not.
    pub fn new(pages: Vec<Page>) -> (app: App)
        ensures
            app@ == (AppView {
                selected: None,
                pages: page_views(pages@),
                current_pages: page_views(pages@),
                scroll: 0,
                search: Seq::<char>::empty(),
                latest_search: Seq::<char>::empty(),
                show_dock: true,
                show_popup: false,
                popup_content: Seq::<char>::empty(),
            }),
    {
        let current_pages = clone_pages(&pages);
        App {
            selected: None,
            pages,
            current_pages,
            scroll: 0,
            search: Vec::new(),
            latest_search: Vec::new(),
            show_dock: true,
            show_popup: false,
            popup_content: String::new(),
        }
    }

    /// How many lines the reader is scrolled down.
    pub fn scroll(&self) -> (offset: u16)
        ensures
            offset == self@.scroll,
    {
        self.scroll
    }

    /// Whether the dock is shown.
    pub fn show_dock(&self) -> (shown: bool)
        ensures
            shown == self@.show_dock,
    {
        self.show_dock
    }

    /// The phrase that the displayed pages were last filtered by.
    pub fn latest_search(&self) -> (phrase: Vec<char>)
        ensures
            phrase@ == self@.latest_search,
    {
        copy_chars(&self.latest_search)
    }

    /// Moves the selection one row down. It stops at the last row; the
    /// reader goes back to the top.
    pub fn next(&mut self)
        ensures
            final(self)@ == after_next(old(self)@),
            in_rows(final(self)@.selected, final(self)@.current_pages.len()),
    {
        let len = self.current_pages.len();
        self.selected = if len == 0 {
            None
        } else {
            match self.selected {
                Some(i) => if i < len - 1 {
                    Some(i + 1)
                } else {
                    Some(len - 1)
                },
                None => Some(0),
            }
        };
        self.scroll = 0;
    }

    /// Moves the selection one row up. It stops at the first row; the
    /// reader goes back to the top.
    pub fn previous(&mut self)
        ensures
            final(self)@ == after_previous(old(self)@),
            in_rows(final(self)@.selected, final(self)@.current_pages.len()),
    {
        let len = self.current_pages.len();
        self.selected = if len == 0 {
            None
        } else {
            match self.selected {
                Some(i) => if i == 0 {
                    Some(0)
                } else if i - 1 < len {
                    Some(i - 1)
                } else {
                    Some(len - 1)
                },
                None => Some(0),
            }
        };
        self.scroll = 0;
    }

    /// The text to show in the reader.
    pub fn load(&self) -> (text: String)
        ensures
            text@ == current_text(self@),
    {
        match self.selected {
            Some(i) => if i < self.current_pages.len() {
                self.current_pages[i].contents_text()
            } else {
                String::new()
            },
            None => String::new(),
        }
    }

    /// Scrolls the reader one line down, unless it is at the largest offset.
    pub fn scroll_down(&mut self)
        ensures
            final(self)@ == after_scroll_down(old(self)@),
    {
        if self.scroll < u16::MAX {
            self.scroll = self.scroll + 1;
        }
    }

    /// Scrolls the reader one line up, unless it is at the top.
    pub fn scroll_up(&mut self)
        ensures
            final(self)@ == after_scroll_up(old(self)@),
    {
        if self.scroll > 0 {
            self.scroll = self.scroll - 1;
        }
    }

    /// Shows the dock where it is hidden, and hides it where it is shown.
    pub fn toggle_dock(&mut self)
        ensures
            final(self)@ == (AppView { show_dock: !old(self)@.show_dock, ..old(self)@ }),
    {
        self.show_dock = !self.show_dock;
    }

    /// Shows the popup where it is hidden, and hides it where it is shown.
    pub fn toggle_popup(&mut self)
        ensures
            final(self)@ == (AppView { show_popup: !old(self)@.show_popup, ..old(self)@ }),
    {
        self.show_popup = !self.show_popup;
    }

    /// Applies the search phrase `phrase`, given as characters.
    pub fn search_chars(&mut self, phrase: &Vec<char>, keywords: &Vec<&str>)
        ensures
            final(self)@ == after_search(old(self)@, phrase@, texts(keywords@)),
            in_rows(final(self)@.selected, final(self)@.current_pages.len()),
    {
        self.current_pages = find_pages(&self.pages, phrase, keywords);
        self.selected = if self.current_pages.len() > 0 {
            Some(0)
        } else {
            None
        };
        self.scroll = 0;
    }

    /// Applies the search phrase `search_phrase`: the displayed pages become
    /// all pages where the phrase is empty but for white space, and else the
    /// pages that match it, ordered. The first row is selected.
    pub fn search(&mut self, search_phrase: String, keywords: Vec<&str>)
        ensures
            final(self)@ == after_search(old(self)@, search_phrase@, texts(keywords@)),
    {
        let phrase = chars_of(search_phrase.as_str());
        self.search_chars(&phrase, &keywords);
    }

    /// Handles a key event, and tells whether it ends the session.
    pub fn handle_key(&mut self, key: Key) -> (quit: bool)
        ensures
            quit == quits(key),
            final(self)@ == after_key(old(self)@, key),
    {
        if is_quit(key) {
            return true;
        }
        if key.control {
            match key.code {
                KeyCode::Char(c) => {
                    if c == 'd' {
                        self.scroll_down();
                    } else if c == 'u' {
                        self.scroll_up();
                    } else if c == 'j' {
                        self.next();
                    } else if c == 'k' {
                        self.previous();
                    } else if c == 'b' {
                        self.toggle_dock();
                    } else if c == 'p' {
                        self.toggle_popup();
                    }
                },
                _ => {},
            }
        } else {
            match key.code {
                KeyCode::Backspace => {
                    let ghost before = self.search@;
                    let _ = self.search.pop();
                    assert(before.len() > 0 ==> self.search@ =~= before.drop_last());
                },
                KeyCode::Char(c) => {
                    self.search.push(c);
                },
                KeyCode::Other => {},
            }
        }
        false
    }

    /// Handles an input event, and tells what the loop does next.
    pub fn handle_event(&mut self, event: Event) -> (step: Step)
        ensures
            step == step_after(event),
            final(self)@ == after_event(old(self)@, event),
    {
        match event {
            Event::Key(key) => {
                if self.handle_key(key) {
                    Step::Exit
                } else {
                    Step::Hook
                }
            },
            Event::LeftClick => {
                self.show_popup = false;
                Step::Continue
            },
            Event::Other => Step::Continue,
        }
    }

    /// Called when no input came within the time the loop waits for one:
    /// where the search bar holds a phrase that has not been applied yet, the
    /// phrase is applied and remembered. Tells whether it was.
    pub fn settle(&mut self, keywords: Vec<&str>) -> (searched: bool)
        ensures
            searched == is_dirty(old(self)@),
            final(self)@ == after_idle(old(self)@, texts(keywords@)),
    {
        if same_text(&self.search, &self.latest_search) {
            return false;
        }
        let phrase = copy_chars(&self.search);
        self.search_chars(&phrase, &keywords);
        self.latest_search = phrase;
        true
    }

    /// One turn of the loop: `polled` is the event that came within the time
    /// the loop waits for one, if any.
    pub fn tick(&mut self, polled: Option<Event>, keywords: Vec<&str>) -> (step: Step)
        ensures
            step == match polled {
                Some(event) => step_after(event),
                None => Step::Continue,
            },
            final(self)@ == match polled {
                Some(event) => after_event(old(self)@, event),
                None => after_idle(old(self)@, texts(keywords@)),
            },
    {
        match polled {
            Some(event) => self.handle_event(event),
            None => {
                self.settle(keywords);
                Step::Continue
            },
        }
    }
}

impl Clone for App {
    /// A session in the same state.
    fn clone(&self) -> (app: App)
        ensures
            app@ == self@,
    {
        App {
            selected: self.selected,
            pages: clone_pages(&self.pages),
            current_pages: clone_pages(&self.current_pages),
            scroll: self.scroll,
            search: copy_chars(&self.search),
            latest_search: copy_chars(&self.latest_search),
            show_dock: self.show_dock,
            show_popup: self.show_popup,
            popup_content: self.popup_content.clone(),
        }
    }
}

/// A row `selected` among `len` rows is one of them.
pub open spec fn in_rows(selected: Option<usize>, len: nat) -> bool {
    match selected {
        Some(i) => i < len,
        None => len == 0,
    }
}

/// Moving the selection never leaves the rows: after a move a row is
/// selected that is displayed, or none where nothing is displayed. At the
/// last row a move down keeps the selection, at the first row a move up.
pub proof fn lemma_selection_stays_in_rows(selected: Option<usize>, len: usize)
    ensures
        in_rows(row_below(selected, len as nat), len as nat),
        in_rows(row_above(selected, len as nat), len as nat),
        len > 0 ==> row_below(Some((len - 1) as usize), len as nat) == Some((len - 1) as usize),
        len > 0 ==> row_above(Some(0), len as nat) == Some(0usize),
{
}

/// At the top a scroll up changes nothing, and at the largest offset a
/// scroll down changes nothing.
pub proof fn lemma_scroll_stops_at_ends(v: AppView)
    ensures
        v.scroll == 0 ==> after_scroll_up(v) == v,
        v.scroll == u16::MAX ==> after_scroll_down(v) == v,
        after_scroll_up(v).scroll <= v.scroll,
        after_scroll_down(v).scroll >= v.scroll,
{
}

/// Whatever was searched before, applying the empty phrase displays all
/// pages, in the order and with the contents in which they were loaded.
pub proof fn lemma_empty_search_shows_all(v: AppView, keywords: Seq<Seq<char>>)
    ensures
        after_search(v, Seq::<char>::empty(), keywords).current_pages == v.pages,
{
    lemma_empty_phrase_shows_all(v.pages, keywords);
}

/// Applying a phrase never changes the pages that were loaded.
pub proof fn lemma_search_keeps_loaded_pages(
    v: AppView,
    phrase: Seq<char>,
    keywords: Seq<Seq<char>>,
)
    ensures
        after_search(v, phrase, keywords).pages == v.pages,
        in_rows(
            after_search(v, phrase, keywords).selected,
            after_search(v, phrase, keywords).current_pages.len(),
        ),
{
}

} // verus!
