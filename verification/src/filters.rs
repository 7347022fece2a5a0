//! What a filter keeps of a sequence.

use vstd::prelude::*;

verus! {

/// The first element that passes a test comes first among those that do.
pub(crate) proof fn lemma_filter_first<T>(items: Seq<T>, test: spec_fn(T) -> bool, i: int)
    requires
        0 <= i < items.len(),
        items.take(i).filter(test).len() == 0,
        test(items[i]),
    ensures
        items.filter(test).len() > 0,
        items.filter(test)[0] == items[i],
{
    items.take(i).lemma_filter_push(items[i], test);
    assert(items.take(i).push(items[i]) == items.take(i + 1));
    assert(items == items.take(i + 1) + items.skip(i + 1));
    Seq::filter_distributes_over_add(items.take(i + 1), items.skip(i + 1), test);
}

/// An element is kept if and only if it is there and passes the test.
pub(crate) proof fn lemma_filter_holds<T>(items: Seq<T>, test: spec_fn(T) -> bool, item: T)
    ensures
        items.filter(test).contains(item) == (items.contains(item) && test(item)),
{
    if items.filter(test).contains(item) {
        items.lemma_filter_contains_rev(test, item);
        let i = choose|i: int| 0 <= i < items.filter(test).len() && items.filter(test)[i] == item;
        items.lemma_filter_pred(test, i);
    }
    if items.contains(item) && test(item) {
        let i = choose|i: int| 0 <= i < items.len() && items[i] == item;
        items.lemma_filter_contains(test, i);
    }
}

/// Nothing is kept where no element passes the test.
pub(crate) proof fn lemma_none_passes<T>(items: Seq<T>, test: spec_fn(T) -> bool)
    requires
        forall|i: int| 0 <= i < items.len() ==> !test(#[trigger] items[i]),
    ensures
        items.filter(test).len() == 0,
    decreases items.len(),
{
    reveal(Seq::filter);
    if items.len() > 0 {
        lemma_none_passes(items.drop_last(), test);
    }
}

} // verus!
