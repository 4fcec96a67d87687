//! Choosing positions: the combinations of `k` out of `n` positions.
use itertools::Itertools;
use vstd::prelude::*;

verus! {

/// The combinations of `k` positions out of `0..n`, each as the list of its
/// positions, in the order in which `Itertools::combinations` yields them.
pub uninterp spec fn index_combinations(n: usize, k: usize) -> Seq<Seq<usize>>;

/// `picks` chooses `k` positions below `n`, each once, in rising order.
pub open spec fn is_choice(picks: Seq<usize>, n: usize, k: usize) -> bool {
    &&& picks.len() == k
    &&& forall|i: int| 0 <= i < picks.len() ==> picks[i] < n
    &&& forall|i: int, j: int| 0 <= i < j < picks.len() ==> picks[i] < picks[j]
}

/// `a` comes before `b` in the order of a dictionary: at the first position
/// where the two differ, `a` has the smaller entry.
pub open spec fn comes_before(a: Seq<usize>, b: Seq<usize>) -> bool {
    exists|at: int|
        0 <= at < a.len() && at < b.len() && a.take(at) == b.take(at) && a[at] < b[at]
}

/// `all` lists the choices of `k` positions below `n`: nothing else, each of
/// them, and in the order of a dictionary, so none twice.
pub open spec fn lists_choices(all: Seq<Seq<usize>>, n: usize, k: usize) -> bool {
    &&& forall|i: int| 0 <= i < all.len() ==> is_choice(#[trigger] all[i], n, k)
    &&& forall|picks: Seq<usize>| #[trigger] is_choice(picks, n, k) ==> all.contains(picks)
    &&& forall|i: int, j: int| 0 <= i < j < all.len() ==> comes_before(all[i], all[j])
}

/// The views of a vector of choices.
pub open spec fn choices_view(choices: Seq<Vec<usize>>) -> Seq<Seq<usize>> {
    Seq::new(choices.len(), |i: int| choices[i]@)
}

/// Calls `Itertools::combinations` on the range `0..n` and collects what it
/// yields. Each item is a list of `k` positions of the range in rising
/// order; every such list is yielded, and the items come in the order of a
/// dictionary, so that none comes twice. For `k` above `n` there is no item,
/// for `k` zero the one empty list. The list of items depends on `n` and `k`
/// alone.
#[verifier::external_body]
pub(crate) fn combinations(n: usize, k: usize) -> (out: Vec<Vec<usize>>)
    ensures
        choices_view(out@) == index_combinations(n, k),
        lists_choices(choices_view(out@), n, k),
{
    (0..n).combinations(k).collect()
}

} // verus!
