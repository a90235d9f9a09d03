//! Sequences: filtering and searching.
use vstd::prelude::*;

verus! {

/// Filtering a sequence that has grown by one element.
pub proof fn lemma_filter_take<T>(s: Seq<T>, i: int, p: spec_fn(T) -> bool)
    requires
        0 <= i < s.len(),
    ensures
        s.take(i + 1).filter(p) == (if p(s[i]) {
            s.take(i).filter(p).push(s[i])
        } else {
            s.take(i).filter(p)
        }),
{
    reveal(Seq::filter);
    assert(s.take(i + 1).drop_last() =~= s.take(i));
}

/// The elements of a filtered sequence are elements of the sequence that pass.
pub proof fn lemma_filter_members<T>(s: Seq<T>, p: spec_fn(T) -> bool)
    ensures
        forall|i: int|
            0 <= i < s.filter(p).len() ==> p(#[trigger] s.filter(p)[i]) && s.contains(
                s.filter(p)[i],
            ),
        forall|i: int| 0 <= i < s.len() && p(s[i]) ==> s.filter(p).contains(#[trigger] s[i]),
        s.filter(p).len() <= s.len(),
    decreases s.len(),
{
    reveal(Seq::filter);
    if s.len() > 0 {
        let front = s.drop_last();
        lemma_filter_members(front, p);
        assert forall|i: int| 0 <= i < s.filter(p).len() implies p(#[trigger] s.filter(p)[i])
            && s.contains(s.filter(p)[i]) by {
            if i < front.filter(p).len() {
                assert(front.contains(front.filter(p)[i]));
                let k = choose|k: int| 0 <= k < front.len() && front[k] == front.filter(p)[i];
                assert(s[k] == s.filter(p)[i]);
            } else {
                assert(s[s.len() - 1] == s.filter(p)[i]);
            }
        }
        assert forall|i: int| 0 <= i < s.len() && p(s[i]) implies s.filter(p).contains(
            #[trigger] s[i],
        ) by {
            if i < front.len() {
                assert(front[i] == s[i]);
                assert(front.filter(p).contains(front[i]));
                let k = choose|k: int|
                    0 <= k < front.filter(p).len() && front.filter(p)[k] == front[i];
                assert(s.filter(p)[k] == s[i]);
            } else {
                assert(s.filter(p)[s.filter(p).len() - 1] == s[i]);
            }
        }
    }
}

/// The elements for which `f` answers yes, in their old order.
pub(crate) fn keep_if<T, F: Fn(&T) -> bool>(v: Vec<T>, f: F, Ghost(p): Ghost<spec_fn(T) -> bool>) -> (r:
    Vec<T>)
    requires
        forall|t: &T| #[trigger] f.requires((t,)),
        forall|t: &T, b: bool| f.ensures((t,), b) ==> b == p(*t),
    ensures
        r@ == v@.filter(p),
{
    let mut out: Vec<T> = Vec::new();
    proof {
        reveal(Seq::filter);
        assert(v@.take(0).filter(p) =~= Seq::<T>::empty());
    }
    for x in it: v
        invariant
            it.seq() == v@,
            forall|t: &T| #[trigger] f.requires((t,)),
            forall|t: &T, b: bool| f.ensures((t,), b) ==> b == p(*t),
            out@ == v@.take(it.index()).filter(p),
    {
        proof {
            lemma_filter_take(v@, it.index(), p);
        }
        if f(&x) {
            out.push(x);
        }
    }
    assert(v@.take(v@.len() as int) =~= v@);
    out
}

} // verus!
