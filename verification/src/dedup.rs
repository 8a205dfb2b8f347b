//! Keeping the first occurrence of each element of a sequence.
use crate::types::gtfs::RouteID;
use vstd::prelude::*;

verus! {

/// The elements of `s` in order, each one only where it first occurs.
pub open spec fn dedup_first<A>(s: Seq<A>) -> Seq<A>
    decreases s.len(),
{
    if s.len() == 0 {
        s
    } else {
        let prev = dedup_first(s.drop_last());
        if prev.contains(s.last()) {
            prev
        } else {
            prev.push(s.last())
        }
    }
}

/// `dedup_first` holds each element of `s` once, and nothing else.
pub proof fn lemma_dedup_first<A>(s: Seq<A>)
    ensures
        dedup_first(s).no_duplicates(),
        forall|x: A| #[trigger] dedup_first(s).contains(x) <==> s.contains(x),
    decreases s.len(),
{
    if s.len() > 0 {
        let prev = dedup_first(s.drop_last());
        lemma_dedup_first(s.drop_last());
        assert forall|x: A| #[trigger] dedup_first(s).contains(x) <==> s.contains(x) by {
            broadcast use vstd::seq_lib::group_seq_properties;

            assert(s =~= s.drop_last().push(s.last()));
        }
        if !prev.contains(s.last()) {
            assert forall|i: int, j: int|
                0 <= i < prev.push(s.last()).len() && 0 <= j < prev.push(s.last()).len() && i
                    != j implies prev.push(s.last())[i] != prev.push(s.last())[j] by {
                if i < prev.len() && j == prev.len() {
                    assert(prev.contains(prev[i]));
                }
                if j < prev.len() && i == prev.len() {
                    assert(prev.contains(prev[j]));
                }
            }
        }
    }
}

/// Whether `routes` holds a route whose identifier reads `route`.
pub fn contains_route(routes: &Vec<RouteID>, route: &String) -> (found: bool)
    ensures
        found == routes.deep_view().contains(route@),
{
    let mut i: usize = 0;
    while i < routes.len()
        invariant
            i <= routes.len(),
            forall|j: int| 0 <= j < i ==> routes.deep_view()[j] != route@,
        decreases routes.len() - i,
    {
        if routes[i].0 == *route {
            assert(routes.deep_view()[i as int] == route@);
            return true;
        }
        i += 1;
    }
    false
}

/// Whether `items` holds a string that reads `item`.
pub fn contains_string(items: &Vec<String>, item: &String) -> (found: bool)
    ensures
        found == items.deep_view().contains(item@),
{
    let mut i: usize = 0;
    while i < items.len()
        invariant
            i <= items.len(),
            forall|j: int| 0 <= j < i ==> items.deep_view()[j] != item@,
        decreases items.len() - i,
    {
        if items[i] == *item {
            assert(items.deep_view()[i as int] == item@);
            return true;
        }
        i += 1;
    }
    false
}

} // verus!
