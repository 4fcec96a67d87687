//! Character sequences: literal matching, counting, splitting, joining and
//! trimming. Every text is handled as a vector of `char`s, whose view is the
//! sequence of its characters.
use vstd::prelude::*;

verus! {

/// The largest `u64` not above `x`: `x` itself where it fits.
pub open spec fn saturated(x: nat) -> u64 {
    if x > u64::MAX {
        u64::MAX
    } else {
        x as u64
    }
}

/// `pat` stands in `hay` at position `at`, character for character.
pub open spec fn matches_at(hay: Seq<char>, pat: Seq<char>, at: int) -> bool {
    &&& 0 <= at
    &&& at + pat.len() <= hay.len()
    &&& hay.subrange(at, at + pat.len()) == pat
}

/// `pat` is a literal substring of `hay`.
pub open spec fn occurs_in(pat: Seq<char>, hay: Seq<char>) -> bool {
    exists|at: int| matches_at(hay, pat, at)
}

/// How far a scan moves on after a match: the length of the pattern, and one
/// character for the empty pattern, which matches at every position.
pub open spec fn stride(pat: Seq<char>) -> int {
    if pat.len() == 0 {
        1
    } else {
        pat.len() as int
    }
}

/// The number of matches that a scan from the left finds from `from` on,
/// where each match begins at or after the end of the one before it.
pub open spec fn occurrences_from(hay: Seq<char>, pat: Seq<char>, from: int) -> nat
    decreases hay.len() - from + 1,
{
    if from < 0 || from + pat.len() > hay.len() {
        0
    } else if matches_at(hay, pat, from) {
        1 + occurrences_from(hay, pat, from + stride(pat))
    } else {
        occurrences_from(hay, pat, from + 1)
    }
}

/// The number of non-overlapping occurrences of `pat` in `hay`.
pub open spec fn occurrences(hay: Seq<char>, pat: Seq<char>) -> nat {
    occurrences_from(hay, pat, 0)
}

/// The text of a string slice as a vector of its characters.
pub fn chars_of(s: &str) -> (out: Vec<char>)
    ensures
        out@ == s@,
{
    let mut out: Vec<char> = Vec::new();
    for c in it: s.chars()
        invariant
            out@ == it.seq().take(it.index as int),
            it.seq() == s@,
    {
        out.push(c);
    }
    out
}

/// Tells whether `pat` stands in `hay` at position `at`.
pub fn starts_at(hay: &Vec<char>, pat: &Vec<char>, at: usize) -> (hit: bool)
    ensures
        hit == matches_at(hay@, pat@, at as int),
{
    if pat.len() > hay.len() || at > hay.len() - pat.len() {
        return false;
    }
    let mut k: usize = 0;
    while k < pat.len()
        invariant
            k <= pat.len(),
            at + pat.len() <= hay.len(),
            forall|j: int| 0 <= j < k ==> hay@[at + j] == pat@[j],
        decreases pat.len() - k,
    {
        if hay[at + k] != pat[k] {
            proof {
                let window = hay@.subrange(at as int, at + pat.len());
                assert(window[k as int] == hay@[at + k]);
            }
            return false;
        }
        k += 1;
    }
    assert(hay@.subrange(at as int, at + pat.len()) =~= pat@);
    true
}

/// Tells whether `pat` is a literal substring of `hay`.
pub fn contains(hay: &Vec<char>, pat: &Vec<char>) -> (found: bool)
    ensures
        found == occurs_in(pat@, hay@),
{
    if pat.len() > hay.len() {
        return false;
    }
    let last: usize = hay.len() - pat.len();
    let mut at: usize = 0;
    while at <= last
        invariant
            last == hay.len() - pat.len(),
            pat.len() <= hay.len(),
            at <= last + 1,
            forall|j: int| 0 <= j < at ==> !matches_at(hay@, pat@, j),
        decreases last + 1 - at,
    {
        if starts_at(hay, pat, at) {
            return true;
        }
        if at == last {
            return false;
        }
        at += 1;
    }
    false
}

/// One more, but never beyond the largest `u64`.
pub fn bump(n: u64) -> (m: u64)
    ensures
        m == if n == u64::MAX { n } else { (n + 1) as u64 },
{
    if n == u64::MAX {
        n
    } else {
        n + 1
    }
}

/// Counts the non-overlapping occurrences of `pat` in `hay`, scanning from
/// the left. The empty pattern is found once before each character and once
/// at the end.
pub fn count_occurrences(hay: &Vec<char>, pat: &Vec<char>) -> (n: u64)
    ensures
        n == saturated(occurrences(hay@, pat@)),
{
    if pat.len() > hay.len() {
        return 0;
    }
    let last: usize = hay.len() - pat.len();
    let step: usize = if pat.len() == 0 { 1 } else { pat.len() };
    let mut n: u64 = 0;
    let mut at: usize = 0;
    let mut done: bool = false;
    let ghost mut seen: nat = 0;
    while !done
        invariant
            pat.len() <= hay.len(),
            last == hay.len() - pat.len(),
            step == stride(pat@),
            at <= last,
            n == saturated(seen),
            !done ==> occurrences(hay@, pat@) == seen + occurrences_from(hay@, pat@, at as int),
            done ==> occurrences(hay@, pat@) == seen,
        decreases (if done { 0 } else { last - at + 1 }),
    {
        let hit = starts_at(hay, pat, at);
        let advance: usize = if hit { step } else { 1 };
        if hit {
            n = bump(n);
            proof {
                seen = seen + 1;
            }
        }
        assert(occurrences_from(hay@, pat@, at as int) == (if hit {
            1 + occurrences_from(hay@, pat@, at + step)
        } else {
            occurrences_from(hay@, pat@, at + 1)
        }));
        if last - at < advance {
            assert(occurrences_from(hay@, pat@, at + advance) == 0);
            done = true;
        } else {
            at += advance;
        }
    }
    n
}

/// The views of the words of a vector of words.
pub open spec fn views(words: Seq<Vec<char>>) -> Seq<Seq<char>> {
    Seq::new(words.len(), |i: int| words[i]@)
}

/// The words of `s`: the pieces between its space characters. There is one
/// more word than there are spaces, and a word may be empty.
pub open spec fn split_words(s: Seq<char>) -> Seq<Seq<char>>
    decreases s.len(),
{
    if s.len() == 0 {
        seq![Seq::<char>::empty()]
    } else {
        let before = split_words(s.drop_last());
        if s.last() == ' ' {
            before.push(Seq::<char>::empty())
        } else {
            before.update(before.len() - 1, before.last().push(s.last()))
        }
    }
}

/// A text has at least one word.
pub proof fn lemma_split_words_nonempty(s: Seq<char>)
    ensures
        split_words(s).len() >= 1,
    decreases s.len(),
{
    if s.len() > 0 {
        lemma_split_words_nonempty(s.drop_last());
    }
}

/// Splits `s` at each space character.
pub fn split_on_space(s: &Vec<char>) -> (words: Vec<Vec<char>>)
    ensures
        views(words@) == split_words(s@),
        words.len() >= 1,
{
    let mut words: Vec<Vec<char>> = Vec::new();
    let mut current: Vec<char> = Vec::new();
    let mut i: usize = 0;
    assert(s@.take(0) =~= Seq::<char>::empty());
    assert(views(words@).push(current@) =~= seq![Seq::<char>::empty()]);
    while i < s.len()
        invariant
            i <= s.len(),
            views(words@).push(current@) =~= split_words(s@.take(i as int)),
        decreases s.len() - i,
    {
        let c = s[i];
        let ghost words_before = views(words@);
        let ghost current_before = current@;
        if c == ' ' {
            words.push(current);
            current = Vec::new();
            assert(views(words@) =~= words_before.push(current_before));
        } else {
            current.push(c);
            assert(views(words@) =~= words_before);
        }
        proof {
            let prefix = s@.take(i + 1);
            assert(prefix.drop_last() =~= s@.take(i as int));
            assert(prefix.last() == c);
        }
        i += 1;
    }
    let ghost words_before = views(words@);
    words.push(current);
    proof {
        assert(s@.take(s.len() as int) =~= s@);
        assert(views(words@) =~= words_before.push(current@));
    }
    words
}

/// The words joined by single spaces.
pub open spec fn join_words(words: Seq<Seq<char>>) -> Seq<char>
    decreases words.len(),
{
    if words.len() == 0 {
        Seq::<char>::empty()
    } else if words.len() == 1 {
        words[0]
    } else {
        join_words(words.drop_last()) + seq![' '] + words.last()
    }
}

/// The words of `words` at the positions `picks`, in the order of `picks`.
pub open spec fn picked(words: Seq<Seq<char>>, picks: Seq<usize>) -> Seq<Seq<char>> {
    Seq::new(picks.len(), |j: int| words[picks[j] as int])
}

/// Joins the words at the positions `picks` by single spaces.
pub fn join_picked(words: &Vec<Vec<char>>, picks: &Vec<usize>) -> (out: Vec<char>)
    requires
        forall|j: int| 0 <= j < picks.len() ==> picks[j] < words.len(),
    ensures
        out@ == join_words(picked(views(words@), picks@)),
{
    let mut out: Vec<char> = Vec::new();
    let mut j: usize = 0;
    let ghost chosen = picked(views(words@), picks@);
    assert(chosen.take(0) =~= Seq::<Seq<char>>::empty());
    while j < picks.len()
        invariant
            j <= picks.len(),
            chosen == picked(views(words@), picks@),
            forall|q: int| 0 <= q < picks.len() ==> picks[q] < words.len(),
            out@ == join_words(chosen.take(j as int)),
        decreases picks.len() - j,
    {
        let word = &words[picks[j]];
        if j > 0 {
            out.push(' ');
        }
        let ghost head = out@;
        let mut k: usize = 0;
        while k < word.len()
            invariant
                k <= word.len(),
                out@ == head + word@.take(k as int),
            decreases word.len() - k,
        {
            out.push(word[k]);
            assert(word@.take(k + 1) =~= word@.take(k as int).push(word@[k as int]));
            k += 1;
        }
        proof {
            assert(word@.take(word.len() as int) =~= word@);
            let upto = chosen.take(j + 1);
            assert(upto.drop_last() =~= chosen.take(j as int));
            assert(upto.last() == word@);
            if j == 0 {
                assert(upto.len() == 1);
                assert(out@ =~= word@);
            } else {
                assert(out@ =~= join_words(chosen.take(j as int)) + seq![' '] + word@);
            }
        }
        j += 1;
    }
    assert(chosen.take(picks.len() as int) =~= chosen);
    out
}

/// Whether `c` is white space, as `char::is_whitespace` tells it.
pub uninterp spec fn is_whitespace(c: char) -> bool;

/// Calls `char::is_whitespace`, which tells whether a character has the
/// Unicode property `White_Space`. The answer depends on the character alone.
#[verifier::external_body]
pub(crate) fn whitespace(c: char) -> (b: bool)
    ensures
        b == is_whitespace(c),
{
    c.is_whitespace()
}

/// `s` without the white space it begins with.
pub open spec fn trim_start(s: Seq<char>) -> Seq<char>
    decreases s.len(),
{
    if s.len() > 0 && is_whitespace(s[0]) {
        trim_start(s.skip(1))
    } else {
        s
    }
}

/// `s` without the white space it ends with.
pub open spec fn trim_end(s: Seq<char>) -> Seq<char>
    decreases s.len(),
{
    if s.len() > 0 && is_whitespace(s.last()) {
        trim_end(s.drop_last())
    } else {
        s
    }
}

/// `s` without the white space at either end.
pub open spec fn trimmed(s: Seq<char>) -> Seq<char> {
    trim_end(trim_start(s))
}

/// Removes the white space at both ends of `s`.
pub fn trim(s: &Vec<char>) -> (out: Vec<char>)
    ensures
        out@ == trimmed(s@),
{
    let mut lo: usize = 0;
    assert(s@.skip(0) =~= s@);
    while lo < s.len() && whitespace(s[lo])
        invariant
            lo <= s.len(),
            trim_start(s@) == trim_start(s@.skip(lo as int)),
        decreases s.len() - lo,
    {
        assert(s@.skip(lo as int).skip(1) =~= s@.skip(lo + 1));
        lo += 1;
    }
    assert(trim_start(s@) == s@.skip(lo as int));
    let mut hi: usize = s.len();
    assert(s@.subrange(lo as int, hi as int) =~= s@.skip(lo as int));
    while hi > lo && whitespace(s[hi - 1])
        invariant
            lo <= hi <= s.len(),
            trimmed(s@) == trim_end(s@.subrange(lo as int, hi as int)),
        decreases hi - lo,
    {
        assert(s@.subrange(lo as int, hi as int).drop_last() =~= s@.subrange(
            lo as int,
            hi - 1,
        ));
        hi -= 1;
    }
    assert(trimmed(s@) == s@.subrange(lo as int, hi as int));
    let mut out: Vec<char> = Vec::new();
    let mut k: usize = lo;
    while k < hi
        invariant
            lo <= k <= hi <= s.len(),
            out@ == s@.subrange(lo as int, k as int),
        decreases hi - k,
    {
        out.push(s[k]);
        assert(s@.subrange(lo as int, k + 1) =~= s@.subrange(lo as int, k as int).push(
            s@[k as int],
        ));
        k += 1;
    }
    out
}

/// The lower-case form of a text, as `str::to_lowercase` gives it.
pub uninterp spec fn lowercase_of(s: Seq<char>) -> Seq<char>;

/// Calls `str::to_lowercase` on the text that `s` holds. The result is the
/// lower-case form that Unicode defines for the text; it depends on the
/// characters alone, and may differ from them in length.
#[verifier::external_body]
pub(crate) fn lowercase(s: &Vec<char>) -> (out: Vec<char>)
    ensures
        out@ == lowercase_of(s@),
{
    s.iter().collect::<String>().to_lowercase().chars().collect()
}

/// A text that occurs in another still occurs where more text follows.
pub proof fn lemma_occurs_in_longer(pat: Seq<char>, hay: Seq<char>, extra: Seq<char>)
    requires
        occurs_in(pat, hay),
    ensures
        occurs_in(pat, hay + extra),
{
    let at = choose|at: int| matches_at(hay, pat, at);
    assert((hay + extra).subrange(at, at + pat.len()) =~= hay.subrange(at, at + pat.len()));
    assert(matches_at(hay + extra, pat, at));
}

/// A scan finds every match at or behind the position where it begins, or
/// one before it: where there is a match, it counts at least one.
pub proof fn lemma_match_is_counted(hay: Seq<char>, pat: Seq<char>, from: int, at: int)
    requires
        0 <= from <= at,
        matches_at(hay, pat, at),
    ensures
        occurrences_from(hay, pat, from) >= 1,
    decreases at - from,
{
    if !matches_at(hay, pat, from) {
        lemma_match_is_counted(hay, pat, from + 1, at);
    }
}

/// Where a scan counts a match, there is one.
pub proof fn lemma_counted_is_match(hay: Seq<char>, pat: Seq<char>, from: int)
    requires
        occurrences_from(hay, pat, from) >= 1,
    ensures
        occurs_in(pat, hay),
    decreases hay.len() - from + 1,
{
    if from < 0 || from + pat.len() > hay.len() {
    } else if matches_at(hay, pat, from) {
    } else {
        lemma_counted_is_match(hay, pat, from + 1);
    }
}

/// A text occurs in another exactly when its count of occurrences there is
/// above zero.
pub proof fn lemma_occurs_iff_counted(pat: Seq<char>, hay: Seq<char>)
    ensures
        occurs_in(pat, hay) <==> occurrences(hay, pat) >= 1,
{
    if occurs_in(pat, hay) {
        let at = choose|at: int| matches_at(hay, pat, at);
        lemma_match_is_counted(hay, pat, 0, at);
    }
    if occurrences(hay, pat) >= 1 {
        lemma_counted_is_match(hay, pat, 0);
    }
}

/// More text at the end never lowers a count, from whatever position the
/// scan begins.
pub proof fn lemma_occurrences_from_longer(
    hay: Seq<char>,
    extra: Seq<char>,
    pat: Seq<char>,
    from: int,
)
    ensures
        occurrences_from(hay + extra, pat, from) >= occurrences_from(hay, pat, from),
    decreases hay.len() - from + 1,
{
    if from < 0 || from + pat.len() > hay.len() {
    } else {
        assert((hay + extra).subrange(from, from + pat.len()) =~= hay.subrange(
            from,
            from + pat.len(),
        ));
        if matches_at(hay, pat, from) {
            lemma_occurrences_from_longer(hay, extra, pat, from + stride(pat));
        } else {
            lemma_occurrences_from_longer(hay, extra, pat, from + 1);
        }
    }
}

/// One more occurrence of a text at the end raises its count by at least
/// one, from whatever position within the old text the scan begins.
pub proof fn lemma_occurrences_from_appended(hay: Seq<char>, pat: Seq<char>, from: int)
    requires
        pat.len() > 0,
        0 <= from <= hay.len(),
    ensures
        occurrences_from(hay + pat, pat, from) >= occurrences_from(hay, pat, from) + 1,
    decreases hay.len() - from + 1,
{
    let longer = hay + pat;
    if from + pat.len() > hay.len() {
        assert(longer.subrange(hay.len() as int, (hay.len() + pat.len()) as int) =~= pat);
        lemma_match_is_counted(longer, pat, from, hay.len() as int);
    } else {
        assert(longer.subrange(from, from + pat.len()) =~= hay.subrange(from, from + pat.len()));
        if matches_at(hay, pat, from) {
            lemma_occurrences_from_appended(hay, pat, from + stride(pat));
        } else {
            lemma_occurrences_from_appended(hay, pat, from + 1);
        }
    }
}

/// More text at the end never lowers the count of occurrences of a text,
/// and one more occurrence of the text itself raises it by at least one.
pub proof fn lemma_occurrences_longer(hay: Seq<char>, extra: Seq<char>, pat: Seq<char>)
    ensures
        occurrences(hay + extra, pat) >= occurrences(hay, pat),
        pat.len() > 0 ==> occurrences(hay + pat, pat) >= occurrences(hay, pat) + 1,
{
    lemma_occurrences_from_longer(hay, extra, pat, 0);
    if pat.len() > 0 {
        lemma_occurrences_from_appended(hay, pat, 0);
    }
}

} // verus!
