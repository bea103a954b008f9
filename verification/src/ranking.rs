//! Ordering items by a count, largest first.
use vstd::prelude::*;

verus! {

broadcast use vstd::seq_lib::group_seq_properties;

/// Items that carry a count to be ranked by.
pub trait Counted {
    /// The item's count.
    spec fn count_spec(&self) -> u64;

    /// The item's count.
    fn count(&self) -> (c: u64)
        ensures
            c == self.count_spec(),
    ;
}

/// Counts never increase along the sequence.
pub open spec fn sorted_desc<T: Counted>(s: Seq<T>) -> bool {
    forall|i: int, j: int| 0 <= i < j < s.len() ==> s[i].count_spec() >= s[j].count_spec()
}

/// Position of the first item with the largest count in `v`.
fn position_of_max<T: Counted>(v: &Vec<T>) -> (p: usize)
    requires
        v.len() > 0,
    ensures
        p < v.len(),
        forall|j: int| 0 <= j < v.len() ==> v@[j].count_spec() <= v@[p as int].count_spec(),
{
    let mut best: usize = 0;
    let mut best_count = v[0].count();
    let mut i: usize = 1;
    while i < v.len()
        invariant
            1 <= i <= v.len(),
            best < v.len(),
            best_count == v@[best as int].count_spec(),
            forall|j: int| 0 <= j < i ==> v@[j].count_spec() <= best_count,
        decreases v.len() - i,
    {
        let c = v[i].count();
        if c > best_count {
            best = i;
            best_count = c;
        }
        i += 1;
    }
    best
}

/// The items of `v`, largest count first (among equal counts, earlier items
/// first).
pub fn sort_desc_by_count<T: Counted>(v: Vec<T>) -> (r: Vec<T>)
    ensures
        sorted_desc(r@),
        r@.to_multiset() == v@.to_multiset(),
        r@.len() == v@.len(),
{
    let ghost orig = v@;
    let mut rest = v;
    let mut out: Vec<T> = Vec::new();
    while rest.len() > 0
        invariant
            sorted_desc(out@),
            out@.to_multiset().add(rest@.to_multiset()) == orig.to_multiset(),
            forall|i: int, j: int|
                0 <= i < out@.len() && 0 <= j < rest@.len() ==> out@[i].count_spec()
                    >= rest@[j].count_spec(),
            out@.len() + rest@.len() == orig.len(),
        decreases rest.len(),
    {
        let p = position_of_max(&rest);
        let ghost before_rest = rest@;
        let ghost before_out = out@;
        let x = rest.remove(p);
        proof {
            assert(before_rest.to_multiset().remove(x) =~= rest@.to_multiset());
            assert(before_rest.to_multiset().contains(x));
            assert(before_out.push(x).to_multiset() =~= before_out.to_multiset().insert(x));
        }
        out.push(x);
        proof {
            assert(out@.to_multiset().add(rest@.to_multiset()) =~= orig.to_multiset());
            assert forall|i: int, j: int| 0 <= i < out@.len() && 0 <= j < rest@.len() implies out@[i].count_spec()
                >= rest@[j].count_spec() by {
                if j < p {
                    assert(rest@[j] == before_rest[j]);
                } else {
                    assert(rest@[j] == before_rest[j + 1]);
                }
            }
        }
    }
    out
}

/// Two sequences with the same multiset of elements hold the same elements.
pub proof fn lemma_same_multiset_contains<T>(a: Seq<T>, b: Seq<T>, x: T)
    requires
        a.to_multiset() == b.to_multiset(),
    ensures
        a.contains(x) <==> b.contains(x),
{
    a.to_multiset_ensures();
    b.to_multiset_ensures();
    assert(a.contains(x) <==> a.to_multiset().count(x) > 0);
    assert(b.contains(x) <==> b.to_multiset().count(x) > 0);
}

/// A sequence with the same multiset of elements as a duplicate-free one is
/// duplicate-free.
pub proof fn lemma_same_multiset_no_duplicates<T>(a: Seq<T>, b: Seq<T>)
    requires
        a.to_multiset() == b.to_multiset(),
        a.no_duplicates(),
    ensures
        b.no_duplicates(),
{
    a.lemma_multiset_has_no_duplicates();
    b.lemma_multiset_has_no_duplicates_conv();
}

} // verus!
