//! Facts about the filtering of sequences.
use vstd::prelude::*;

verus! {

/// Filtering by a weaker condition first makes no difference.
pub proof fn lemma_filter_absorbs<A>(s: Seq<A>, weak: spec_fn(A) -> bool, strong: spec_fn(A) -> bool)
    requires
        forall|a: A| #[trigger] strong(a) ==> weak(a),
    ensures
        s.filter(weak).filter(strong) == s.filter(strong),
    decreases s.len(),
{
    reveal(Seq::filter);
    if s.len() > 0 {
        let init = s.drop_last();
        lemma_filter_absorbs(init, weak, strong);
        init.lemma_filter_push(s.last(), weak);
        init.lemma_filter_push(s.last(), strong);
        init.filter(weak).lemma_filter_push(s.last(), strong);
        assert(init.push(s.last()) =~= s);
    }
}

/// Nothing passes two conditions that exclude each other.
pub proof fn lemma_filter_excludes<A>(s: Seq<A>, one: spec_fn(A) -> bool, other: spec_fn(A) -> bool)
    requires
        forall|i: int| 0 <= i < s.len() && other(#[trigger] s[i]) ==> !one(s[i]),
    ensures
        s.filter(one).filter(other).len() == 0,
    decreases s.len(),
{
    reveal(Seq::filter);
    if s.len() > 0 {
        let init = s.drop_last();
        assert forall|i: int| 0 <= i < init.len() && other(#[trigger] init[i]) implies !one(init[i]) by {
            assert(init[i] == s[i]);
        }
        lemma_filter_excludes(init, one, other);
        init.lemma_filter_push(s.last(), one);
        init.filter(one).lemma_filter_push(s.last(), other);
        assert(s[s.len() - 1] == s.last());
        assert(init.push(s.last()) =~= s);
    }
}

/// What passes a filter is what was there and meets the condition.
pub proof fn lemma_filter_members<A>(s: Seq<A>, keep: spec_fn(A) -> bool, a: A)
    ensures
        s.filter(keep).contains(a) <==> s.contains(a) && keep(a),
{
    if s.contains(a) && keep(a) {
        let i = choose|i: int| 0 <= i < s.len() && s[i] == a;
        s.lemma_filter_contains(keep, i);
    }
    if s.filter(keep).contains(a) {
        let i = choose|i: int| 0 <= i < s.filter(keep).len() && s.filter(keep)[i] == a;
        s.lemma_filter_pred(keep, i);
        s.lemma_filter_contains_rev(keep, a);
    }
}

/// A condition that everything meets filters nothing.
pub proof fn lemma_filter_all<A>(s: Seq<A>, keep: spec_fn(A) -> bool)
    requires
        forall|i: int| 0 <= i < s.len() ==> keep(#[trigger] s[i]),
    ensures
        s.filter(keep) == s,
    decreases s.len(),
{
    reveal(Seq::filter);
    if s.len() > 0 {
        let init = s.drop_last();
        assert forall|i: int| 0 <= i < init.len() implies keep(#[trigger] init[i]) by {
            assert(init[i] == s[i]);
        }
        lemma_filter_all(init, keep);
        init.lemma_filter_push(s.last(), keep);
        assert(keep(s[s.len() - 1]));
        assert(init.push(s.last()) =~= s);
    }
}

/// Filtering by two conditions in turn is filtering by both.
pub proof fn lemma_filter_twice<A>(s: Seq<A>, one: spec_fn(A) -> bool, other: spec_fn(A) -> bool, both: spec_fn(A) -> bool)
    requires
        forall|a: A| #[trigger] both(a) == (one(a) && other(a)),
    ensures
        s.filter(one).filter(other) == s.filter(both),
    decreases s.len(),
{
    reveal(Seq::filter);
    if s.len() > 0 {
        let init = s.drop_last();
        lemma_filter_twice(init, one, other, both);
        init.lemma_filter_push(s.last(), one);
        init.lemma_filter_push(s.last(), both);
        init.filter(one).lemma_filter_push(s.last(), other);
        assert(init.push(s.last()) =~= s);
    }
}

} // verus!
