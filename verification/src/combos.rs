use vstd::prelude::*;

verus! {

/// Whether `s` lists `k` positions below `n` in strictly increasing order.
pub open spec fn is_increasing_choice(s: Seq<usize>, k: int, n: int) -> bool {
    &&& s.len() == k
    &&& forall|i: int, j: int| 0 <= i < j < s.len() ==> #[trigger] s[i] < #[trigger] s[j]
    &&& forall|i: int| 0 <= i < s.len() ==> #[trigger] s[i] < n
}

/// Whether `x` comes before `y` in lexicographic order: at the first position where
/// they differ, `x` holds the smaller value.
pub open spec fn lex_less(x: Seq<usize>, y: Seq<usize>) -> bool {
    exists|i: int| 0 <= i < x.len() && i < y.len() && x.take(i) == y.take(i) && #[trigger] x[i] < y[i]
}

/// Whether `combos` lists every choice of `k` positions below `n`, each once, in
/// lexicographic order (none for `k == 0`).
pub open spec fn is_choice_list(combos: Seq<Seq<usize>>, k: int, n: int) -> bool {
    &&& forall|i: int| 0 <= i < combos.len() ==> is_increasing_choice(#[trigger] combos[i], k, n)
    &&& forall|s: Seq<usize>| 1 <= k && #[trigger] is_increasing_choice(s, k, n)
        ==> exists|i: int| 0 <= i < combos.len() && #[trigger] combos[i] == s
    &&& forall|a: int, b: int| 0 <= a < b < combos.len() ==> lex_less(#[trigger] combos[a], #[trigger] combos[b])
    &&& k == 0 ==> combos.len() == 0
}

/// Calls `combination::combine::from_vec_at` on the positions `0..n`, which lists every
/// choice of `size` of them, each in increasing order; for a size of 0, or above `n`,
/// the list is empty. The source builds the list in lexicographic order: the choices
/// of one fewer positions in that order, each followed in turn by every larger
/// position.
#[verifier::external_body]
pub(crate) fn choices_of(indices: &Vec<usize>, size: usize) -> (r: Vec<Vec<usize>>)
    requires
        forall|i: int| 0 <= i < indices@.len() ==> #[trigger] indices@[i] == i,
    ensures
        forall|k: int| 0 <= k < r@.len() ==> is_increasing_choice(#[trigger] r@[k]@, size as int, indices@.len() as int),
        forall|s: Seq<usize>| 1 <= size && #[trigger] is_increasing_choice(s, size as int, indices@.len() as int)
            ==> exists|k: int| 0 <= k < r@.len() && (#[trigger] r@[k])@ == s,
        size == 0 ==> r@.len() == 0,
        forall|a: int, b: int| 0 <= a < b < r@.len() ==> lex_less(#[trigger] r@[a]@, #[trigger] r@[b]@),
{
    combination::combine::from_vec_at(indices, size)
}

/// An increasing choice leaves room above each position for the positions after it.
pub proof fn lemma_choice_room(s: Seq<usize>, k: int, n: int, i: int)
    requires
        is_increasing_choice(s, k, n),
        0 <= i < k,
    ensures
        s[i] + (k - 1 - i) < n,
    decreases k - i,
{
    if i < k - 1 {
        lemma_choice_room(s, k, n, i + 1);
        assert(s[i] < s[i + 1]);
    }
}

/// When `1 <= size <= n`, some choice exists, so the list is not empty.
pub proof fn lemma_choices_nonempty(r: Seq<Vec<usize>>, size: int, n: int)
    requires
        1 <= size <= n <= usize::MAX,
        forall|s: Seq<usize>| 1 <= size && #[trigger] is_increasing_choice(s, size, n)
            ==> exists|k: int| 0 <= k < r.len() && (#[trigger] r[k])@ == s,
    ensures
        r.len() > 0,
{
    let w = Seq::new(size as nat, |j: int| j as usize);
    assert forall|i: int| 0 <= i < w.len() implies #[trigger] w[i] == i by {}
    assert(is_increasing_choice(w, size, n));
}

} // verus!
