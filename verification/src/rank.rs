//! The order in which filtered pages are shown.
//!
//! Two pages are held against each other by what the first of them carries:
//! where it has a key, by the keys; where it has none, by the scores. The
//! larger goes first, and pages that neither way belong behind each other
//! keep the order they came in.
use crate::page::{page_views, Page, PageView};
use vstd::prelude::*;

verus! {

/// `a` belongs behind `b`. Where `a` has a key, that is so when `b` has a
/// larger key; where `a` has none, when `b` has a larger score.
pub open spec fn ranks_after(a: PageView, b: PageView) -> bool {
    match a.sort_field {
        Some(x) => match b.sort_field {
            Some(y) => y > x,
            None => false,
        },
        None => b.relevancy > a.relevancy,
    }
}

/// The place of `x` in the ordered list `sorted`: behind the pages at its
/// front that `x` belongs behind, one after the other.
pub open spec fn slot(x: PageView, sorted: Seq<PageView>) -> nat
    decreases sorted.len(),
{
    if sorted.len() > 0 && ranks_after(x, sorted[0]) {
        1 + slot(x, sorted.skip(1))
    } else {
        0
    }
}

/// The pages of `s` in the order in which they are shown: each page is put
/// into the ordered list of the pages that came after it, at its place.
pub open spec fn ranked(s: Seq<PageView>) -> Seq<PageView>
    decreases s.len(),
{
    if s.len() == 0 {
        s
    } else {
        let rest = ranked(s.skip(1));
        rest.insert(slot(s[0], rest) as int, s[0])
    }
}

/// The place of `x` is the first position whose page `x` does not belong
/// behind.
pub proof fn lemma_slot_is_first_stop(x: PageView, sorted: Seq<PageView>, at: int)
    requires
        0 <= at <= sorted.len(),
        forall|q: int| 0 <= q < at ==> ranks_after(x, sorted[q]),
        at < sorted.len() ==> !ranks_after(x, sorted[at]),
    ensures
        slot(x, sorted) == at,
    decreases sorted.len(),
{
    if at > 0 {
        let rest = sorted.skip(1);
        assert(ranks_after(x, sorted[0]));
        assert forall|q: int| 0 <= q < at - 1 implies ranks_after(x, rest[q]) by {
            assert(rest[q] == sorted[q + 1]);
        }
        lemma_slot_is_first_stop(x, rest, at - 1);
    }
}

/// Tells whether `a` belongs behind `b`.
pub fn goes_after(a: &Page, b: &Page) -> (after: bool)
    ensures
        after == ranks_after(a@, b@),
{
    match a.sort_key() {
        Some(x) => match b.sort_key() {
            Some(y) => y > x,
            None => false,
        },
        None => b.relevancy() > a.relevancy(),
    }
}

/// Puts the pages into the order in which they are shown.
pub fn rank(pages: Vec<Page>) -> (out: Vec<Page>)
    ensures
        page_views(out@) == ranked(page_views(pages@)),
{
    let ghost all = page_views(pages@);
    let mut rest = pages;
    let mut out: Vec<Page> = Vec::new();
    assert(all.skip(all.len() as int) =~= Seq::<PageView>::empty());
    assert(page_views(out@) =~= Seq::<PageView>::empty());
    while rest.len() > 0
        invariant
            rest.len() <= all.len(),
            page_views(rest@) =~= all.take(rest.len() as int),
            page_views(out@) == ranked(all.skip(rest.len() as int)),
        decreases rest.len(),
    {
        let ghost waiting = rest@;
        let ghost ordered = page_views(out@);
        let page = rest.pop().unwrap();
        let mut at: usize = 0;
        while at < out.len() && goes_after(&page, &out[at])
            invariant
                at <= out.len(),
                ordered == page_views(out@),
                forall|q: int| 0 <= q < at ==> ranks_after(page@, ordered[q]),
            decreases out.len() - at,
        {
            at += 1;
        }
        out.insert(at, page);
        proof {
            let tail = all.skip(rest.len() as int);
            assert(page@ == page_views(waiting)[waiting.len() - 1]);
            assert(tail[0] == page@);
            assert(tail.skip(1) =~= all.skip(rest.len() + 1));
            lemma_slot_is_first_stop(page@, ordered, at as int);
            assert(page_views(out@) =~= ordered.insert(at as int, page@));
            assert(page_views(rest@) =~= all.take(rest.len() as int));
        }
    }
    assert(all.skip(0) =~= all);
    out
}

/// What a page is ordered by: its key where it has one, else its score.
pub open spec fn rank_key(p: PageView) -> int {
    match p.sort_field {
        Some(x) => x as int,
        None => p.relevancy as int,
    }
}

/// No page of `s` has a key.
pub open spec fn all_plain(s: Seq<PageView>) -> bool {
    forall|i: int| 0 <= i < s.len() ==> (#[trigger] s[i]).sort_field is None
}

/// Every page of `s` has a key.
pub open spec fn all_keyed(s: Seq<PageView>) -> bool {
    forall|i: int| 0 <= i < s.len() ==> (#[trigger] s[i]).sort_field is Some
}

/// The pages of `s` agree on having a key: all have one, or none has.
pub open spec fn uniform(s: Seq<PageView>) -> bool {
    all_plain(s) || all_keyed(s)
}

/// No page of `s` stands before one that it is ordered below.
pub open spec fn descending(s: Seq<PageView>) -> bool {
    forall|i: int, j: int| 0 <= i < j < s.len() ==> rank_key(s[i]) >= rank_key(s[j])
}

/// The pages of `s` that are ordered by the value `key`, in the order they
/// stand in.
pub open spec fn with_key(s: Seq<PageView>, key: int) -> Seq<PageView>
    decreases s.len(),
{
    if s.len() == 0 {
        s
    } else if rank_key(s[0]) == key {
        seq![s[0]] + with_key(s.skip(1), key)
    } else {
        with_key(s.skip(1), key)
    }
}

/// The place of a page lies behind pages that it belongs behind, and before
/// a page that it does not belong behind.
pub proof fn lemma_slot_splits(x: PageView, sorted: Seq<PageView>)
    ensures
        slot(x, sorted) <= sorted.len(),
        forall|q: int| 0 <= q < slot(x, sorted) ==> ranks_after(x, #[trigger] sorted[q]),
        slot(x, sorted) < sorted.len() ==> !ranks_after(x, sorted[slot(x, sorted) as int]),
    decreases sorted.len(),
{
    if sorted.len() > 0 && ranks_after(x, sorted[0]) {
        let rest = sorted.skip(1);
        lemma_slot_splits(x, rest);
        assert forall|q: int| 0 <= q < slot(x, sorted) implies ranks_after(
            x,
            #[trigger] sorted[q],
        ) by {
            if q > 0 {
                assert(sorted[q] == rest[q - 1]);
            }
        }
        if slot(x, sorted) < sorted.len() {
            assert(sorted[slot(x, sorted) as int] == rest[slot(x, rest) as int]);
        }
    }
}

/// Ordering keeps every page: what holds of each page before holds of each
/// page after, and there are as many.
pub proof fn lemma_ranked_keeps(s: Seq<PageView>, holds: spec_fn(PageView) -> bool)
    requires
        forall|i: int| 0 <= i < s.len() ==> holds(#[trigger] s[i]),
    ensures
        ranked(s).len() == s.len(),
        forall|i: int| 0 <= i < ranked(s).len() ==> holds(#[trigger] ranked(s)[i]),
    decreases s.len(),
{
    if s.len() > 0 {
        let tail = s.skip(1);
        assert forall|i: int| 0 <= i < tail.len() implies holds(#[trigger] tail[i]) by {
            assert(tail[i] == s[i + 1]);
        }
        lemma_ranked_keeps(tail, holds);
        lemma_slot_splits(s[0], ranked(tail));
    }
}

/// Ordering is a rearrangement: each page is there as often as before.
pub proof fn lemma_ranked_is_permutation(s: Seq<PageView>)
    ensures
        ranked(s).to_multiset() == s.to_multiset(),
    decreases s.len(),
{
    broadcast use vstd::seq_lib::to_multiset_insert;

    if s.len() > 0 {
        let tail = s.skip(1);
        lemma_ranked_is_permutation(tail);
        lemma_slot_splits(s[0], ranked(tail));
        assert(s =~= tail.insert(0, s[0]));
        assert(ranked(s).to_multiset() == ranked(tail).to_multiset().insert(s[0]));
        assert(tail.insert(0, s[0]).to_multiset() == tail.to_multiset().insert(s[0]));
    }
}

/// Among pages that agree on having a key, one belongs behind another
/// exactly when it is ordered by the smaller value.
pub proof fn lemma_ranks_after_by_key(a: PageView, b: PageView)
    requires
        a.sort_field is Some <==> b.sort_field is Some,
    ensures
        ranks_after(a, b) <==> rank_key(a) < rank_key(b),
{
}

/// Where the pages agree on having a key, the ordered pages descend: no
/// page stands before one with a larger key, or, without keys, before one
/// with a larger score.
pub proof fn lemma_ranked_descending(s: Seq<PageView>)
    requires
        uniform(s),
    ensures
        descending(ranked(s)),
    decreases s.len(),
{
    if s.len() > 0 {
        let x = s[0];
        let tail = s.skip(1);
        let rest = ranked(tail);
        assert forall|i: int| 0 <= i < tail.len() implies (tail[i].sort_field is Some
            <==> x.sort_field is Some) by {
            assert(tail[i] == s[i + 1]);
        }
        assert(uniform(tail)) by {
            if all_plain(s) {
                assert(all_plain(tail));
            } else {
                assert(all_keyed(tail));
            }
        }
        lemma_ranked_descending(tail);
        lemma_ranked_keeps(tail, |p: PageView| p.sort_field is Some <==> x.sort_field is Some);
        lemma_slot_splits(x, rest);
        let k = slot(x, rest) as int;
        let out = rest.insert(k, x);
        assert forall|i: int, j: int| 0 <= i < j < out.len() implies rank_key(out[i])
            >= rank_key(out[j]) by {
            if j < k {
            } else if j == k {
                lemma_ranks_after_by_key(x, rest[i]);
            } else if i == k {
                lemma_ranks_after_by_key(x, rest[k]);
                assert(rank_key(rest[k]) >= rank_key(rest[j - 1]));
            } else if i < k {
                assert(rank_key(rest[i]) >= rank_key(rest[j - 1]));
            } else {
                assert(rank_key(rest[i - 1]) >= rank_key(rest[j - 1]));
            }
        }
    }
}

/// The page `x` alone where it is ordered by the value `key`, else nothing.
pub open spec fn only_with_key(x: PageView, key: int) -> Seq<PageView> {
    if rank_key(x) == key {
        seq![x]
    } else {
        Seq::<PageView>::empty()
    }
}

/// Putting a page behind pages that are ordered by other values puts it in
/// front of its equals.
pub proof fn lemma_with_key_insert(rest: Seq<PageView>, at: int, x: PageView, key: int)
    requires
        0 <= at <= rest.len(),
        forall|q: int| 0 <= q < at ==> rank_key(#[trigger] rest[q]) != rank_key(x),
    ensures
        with_key(rest.insert(at, x), key) == only_with_key(x, key) + with_key(rest, key),
    decreases at,
{
    let out = rest.insert(at, x);
    if at == 0 {
        assert(out.skip(1) =~= rest);
        assert(out[0] == x);
        assert(with_key(out, key) =~= only_with_key(x, key) + with_key(rest, key));
    } else {
        let tail = rest.skip(1);
        assert(out.skip(1) =~= tail.insert(at - 1, x));
        assert(out[0] == rest[0]);
        assert forall|q: int| 0 <= q < at - 1 implies rank_key(#[trigger] tail[q]) != rank_key(
            x,
        ) by {
            assert(tail[q] == rest[q + 1]);
        }
        lemma_with_key_insert(tail, at - 1, x, key);
        assert(rank_key(rest[0]) != rank_key(x));
        assert(with_key(out, key) =~= only_with_key(x, key) + with_key(rest, key));
    }
}

/// Where the pages agree on having a key, ordering is stable: the pages
/// that are ordered by one value keep the order they came in.
pub proof fn lemma_ranked_stable(s: Seq<PageView>, key: int)
    requires
        uniform(s),
    ensures
        with_key(ranked(s), key) == with_key(s, key),
    decreases s.len(),
{
    if s.len() > 0 {
        let x = s[0];
        let tail = s.skip(1);
        let rest = ranked(tail);
        assert forall|i: int| 0 <= i < tail.len() implies (tail[i].sort_field is Some
            <==> x.sort_field is Some) by {
            assert(tail[i] == s[i + 1]);
        }
        assert(uniform(tail)) by {
            if all_plain(s) {
                assert(all_plain(tail));
            } else {
                assert(all_keyed(tail));
            }
        }
        lemma_ranked_stable(tail, key);
        lemma_ranked_keeps(tail, |p: PageView| p.sort_field is Some <==> x.sort_field is Some);
        lemma_slot_splits(x, rest);
        let k = slot(x, rest) as int;
        assert forall|q: int| 0 <= q < k implies rank_key(#[trigger] rest[q]) != rank_key(x) by {
            lemma_ranks_after_by_key(x, rest[q]);
        }
        lemma_with_key_insert(rest, k, x, key);
        assert(with_key(s, key) =~= only_with_key(x, key) + with_key(tail, key));
    }
}

/// Where no page has a key, the ordered pages descend by score: a page
/// that stands before another has a score at least as large.
pub proof fn lemma_plain_pages_descend_by_relevancy(s: Seq<PageView>)
    requires
        all_plain(s),
    ensures
        forall|i: int, j: int|
            0 <= i < j < ranked(s).len() ==> ranked(s)[i].relevancy >= ranked(s)[j].relevancy,
{
    lemma_ranked_descending(s);
    lemma_ranked_keeps(s, |p: PageView| p.sort_field is None);
    let out = ranked(s);
    assert forall|i: int, j: int| 0 <= i < j < out.len() implies out[i].relevancy
        >= out[j].relevancy by {
        assert(rank_key(out[i]) >= rank_key(out[j]));
    }
}

} // verus!
