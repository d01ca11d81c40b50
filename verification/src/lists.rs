//! Lists without repetition.

use vstd::prelude::*;

verus! {

/// `list` with every item only where it first occurs.
pub open spec fn distinct<A>(list: Seq<A>) -> Seq<A>
    decreases list.len(),
{
    if list.len() == 0 {
        Seq::empty()
    } else {
        let before = distinct(list.drop_last());
        if before.contains(list.last()) {
            before
        } else {
            before.push(list.last())
        }
    }
}

/// A list with one more item holds what the list held, and the one.
pub proof fn lemma_push_contains<A>(list: Seq<A>, last: A, item: A)
    ensures
        list.push(last).contains(item) <==> list.contains(item) || item == last,
{
    let longer = list.push(last);
    if list.contains(item) {
        let k = choose|k: int| 0 <= k < list.len() && list[k] == item;
        assert(longer[k] == item);
    }
    if item == last {
        assert(longer[list.len() as int] == item);
    }
    if longer.contains(item) {
        let k = choose|k: int| 0 <= k < longer.len() && longer[k] == item;
        if k < list.len() {
            assert(list[k] == item);
        }
    }
}

/// Removing repetitions leaves no item twice, and loses and adds none.
pub proof fn lemma_distinct<A>(list: Seq<A>)
    ensures
        distinct(list).no_duplicates(),
        distinct(list).len() <= list.len(),
        forall|item: A| distinct(list).contains(item) <==> list.contains(item),
    decreases list.len(),
{
    if list.len() > 0 {
        let shorter = list.drop_last();
        let before = distinct(shorter);
        lemma_distinct(shorter);
        assert(list =~= shorter.push(list.last()));
        assert forall|item: A| distinct(list).contains(item) <==> list.contains(item) by {
            lemma_push_contains(shorter, list.last(), item);
            lemma_push_contains(before, list.last(), item);
        }
    }
}

} // verus!
