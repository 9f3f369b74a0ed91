use vstd::prelude::*;
use vstd::set_lib::lemma_len_subset;

verus! {

/// An element is in `s.filter(p)` exactly when it is in `s` and meets `p`.
pub proof fn lemma_filter_members<A>(s: Seq<A>, p: spec_fn(A) -> bool)
    ensures
        forall|x: A| #[trigger] s.filter(p).contains(x) <==> s.contains(x) && p(x),
{
    assert forall|x: A| #[trigger] s.filter(p).contains(x) <==> s.contains(x) && p(x) by {
        if s.filter(p).contains(x) {
            let i = choose|i: int| 0 <= i < s.filter(p).len() && s.filter(p)[i] == x;
            s.lemma_filter_pred(p, i);
            s.lemma_filter_contains_rev(p, x);
        }
        if s.contains(x) && p(x) {
            let i = choose|i: int| 0 <= i < s.len() && s[i] == x;
            s.lemma_filter_contains(p, i);
        }
    }
}

/// Filtering keeps the order: what held between every earlier and every later element of
/// `s` holds between every earlier and every later element of `s.filter(p)`.
pub proof fn lemma_filter_keeps_order<A>(
    s: Seq<A>,
    p: spec_fn(A) -> bool,
    rel: spec_fn(A, A) -> bool,
)
    requires
        forall|i: int, j: int| 0 <= i < j < s.len() ==> rel(#[trigger] s[i], #[trigger] s[j]),
    ensures
        forall|i: int, j: int|
            0 <= i < j < s.filter(p).len() ==> rel(
                #[trigger] s.filter(p)[i],
                #[trigger] s.filter(p)[j],
            ),
    decreases s.len(),
{
    reveal(Seq::filter);
    if s.len() > 0 {
        let init = s.drop_last();
        let out = init.filter(p);
        assert forall|i: int, j: int| 0 <= i < j < init.len() implies rel(
            #[trigger] init[i],
            #[trigger] init[j],
        ) by {
            assert(init[i] == s[i] && init[j] == s[j]);
        }
        lemma_filter_keeps_order(init, p, rel);
        if p(s.last()) {
            let all = out.push(s.last());
            assert(s.filter(p) == all);
            assert forall|i: int, j: int| 0 <= i < j < all.len() implies rel(
                #[trigger] all[i],
                #[trigger] all[j],
            ) by {
                if j == out.len() {
                    assert(out.contains(out[i]));
                    init.lemma_filter_contains_rev(p, out[i]);
                    let k = choose|k: int| 0 <= k < init.len() && init[k] == out[i];
                    assert(s[k] == out[i]);
                    assert(s[s.len() - 1] == all[j]);
                } else {
                    assert(all[i] == out[i] && all[j] == out[j]);
                }
            }
        }
    }
}

/// Of two sequences without repetitions, one whose elements all occur in the other is
/// not the longer one.
pub proof fn lemma_part_is_not_longer<A>(a: Seq<A>, b: Seq<A>)
    requires
        a.no_duplicates(),
        b.no_duplicates(),
        forall|x: A| a.contains(x) ==> b.contains(x),
    ensures
        a.len() <= b.len(),
{
    a.unique_seq_to_set();
    b.unique_seq_to_set();
    assert(a.to_set().subset_of(b.to_set())) by {
        assert forall|x: A| a.to_set().contains(x) implies b.to_set().contains(x) by {
            assert(a.contains(x));
        }
    }
    vstd::seq_lib::seq_to_set_is_finite(b);
    lemma_len_subset(a.to_set(), b.to_set());
}

/// Membership in a concatenation.
pub proof fn lemma_concat_members<A>(a: Seq<A>, b: Seq<A>)
    ensures
        forall|x: A| #[trigger] (a + b).contains(x) <==> a.contains(x) || b.contains(x),
{
    assert forall|x: A| #[trigger] (a + b).contains(x) <==> a.contains(x) || b.contains(x) by {
        if (a + b).contains(x) {
            let i = choose|i: int| 0 <= i < (a + b).len() && (a + b)[i] == x;
            if i < a.len() {
                assert(a[i] == x);
            } else {
                assert(b[i - a.len()] == x);
            }
        }
        if a.contains(x) {
            let i = choose|i: int| 0 <= i < a.len() && a[i] == x;
            assert((a + b)[i] == x);
        }
        if b.contains(x) {
            let i = choose|i: int| 0 <= i < b.len() && b[i] == x;
            assert((a + b)[a.len() + i] == x);
        }
    }
}

} // verus!
