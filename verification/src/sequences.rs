//! How selections and images of a sequence grow when the sequence is read
//! one element further.

use vstd::prelude::*;

verus! {

/// Reading one element further adds that element to the selection if it is
/// kept, and nothing otherwise.
pub proof fn lemma_filter_step<A>(s: Seq<A>, i: int, keep: spec_fn(A) -> bool)
    requires
        0 <= i < s.len(),
    ensures
        s.take(i + 1).filter(keep) == if keep(s[i]) {
            s.take(i).filter(keep).push(s[i])
        } else {
            s.take(i).filter(keep)
        },
{
    assert(s.take(i + 1) =~= s.take(i).push(s[i]));
    s.take(i).lemma_filter_push(s[i], keep);
}

/// The same for the images of the kept elements.
pub proof fn lemma_filter_map_step<A, B>(
    s: Seq<A>,
    i: int,
    keep: spec_fn(A) -> bool,
    f: spec_fn(A) -> B,
)
    requires
        0 <= i < s.len(),
    ensures
        s.take(i + 1).filter(keep).map_values(f) == if keep(s[i]) {
            s.take(i).filter(keep).map_values(f).push(f(s[i]))
        } else {
            s.take(i).filter(keep).map_values(f)
        },
{
    lemma_filter_step(s, i, keep);
    if keep(s[i]) {
        assert(s.take(i).filter(keep).push(s[i]).map_values(f) =~= s.take(i).filter(
            keep,
        ).map_values(f).push(f(s[i])));
    }
}

/// The same where each kept element stands for a run of values and the runs
/// are joined.
pub proof fn lemma_filter_flat_map_step<A, B>(
    s: Seq<A>,
    i: int,
    keep: spec_fn(A) -> bool,
    f: spec_fn(A) -> Seq<B>,
)
    requires
        0 <= i < s.len(),
    ensures
        s.take(i + 1).filter(keep).map_values(f).flatten() == if keep(s[i]) {
            s.take(i).filter(keep).map_values(f).flatten() + f(s[i])
        } else {
            s.take(i).filter(keep).map_values(f).flatten()
        },
{
    lemma_filter_map_step(s, i, keep, f);
    if keep(s[i]) {
        s.take(i).filter(keep).map_values(f).lemma_flatten_push(f(s[i]));
    }
}

/// Nothing is selected from an empty prefix.
pub proof fn lemma_filter_start<A>(s: Seq<A>, keep: spec_fn(A) -> bool)
    ensures
        s.take(0).filter(keep) == Seq::<A>::empty(),
{
    reveal(Seq::filter);
    assert(s.take(0) =~= Seq::<A>::empty());
}

/// The prefix of full length is the sequence.
pub proof fn lemma_take_all<A>(s: Seq<A>)
    ensures
        s.take(s.len() as int) == s,
{
    assert(s.take(s.len() as int) =~= s);
}

/// How many elements of `s` satisfy `p`.
pub open spec fn count<A>(s: Seq<A>, p: spec_fn(A) -> bool) -> nat {
    s.filter(p).len()
}

/// Nothing is counted in an empty sequence.
pub proof fn lemma_count_empty<A>(p: spec_fn(A) -> bool)
    ensures
        count(Seq::<A>::empty(), p) == 0,
{
    reveal(Seq::filter);
}

/// One more element adds one to the count if it satisfies `p`.
pub proof fn lemma_count_push<A>(s: Seq<A>, x: A, p: spec_fn(A) -> bool)
    ensures
        count(s.push(x), p) == count(s, p) + if p(x) {
            1nat
        } else {
            0nat
        },
{
    s.lemma_filter_push(x, p);
}

/// The count over two runs joined is the sum of the counts.
pub proof fn lemma_count_add<A>(a: Seq<A>, b: Seq<A>, p: spec_fn(A) -> bool)
    ensures
        count(a + b, p) == count(a, p) + count(b, p),
{
    Seq::filter_distributes_over_add(a, b, p);
}

} // verus!
