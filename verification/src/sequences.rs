use itertools::Itertools;
use vstd::prelude::*;

verus! {

/// What is left of a sequence when every item that has occurred before is
/// dropped: the distinct items, in the order in which each occurs first.
pub open spec fn first_occurrences<A>(items: Seq<A>) -> Seq<A>
    decreases items.len(),
{
    if items.len() == 0 {
        Seq::empty()
    } else {
        let before = first_occurrences(items.drop_last());
        if before.contains(items.last()) {
            before
        } else {
            before.push(items.last())
        }
    }
}

/// The sequences held by `groups`, in order.
pub open spec fn group_views<T>(groups: Seq<Vec<T>>) -> Seq<Seq<T>> {
    groups.map_values(|group: Vec<T>| group@)
}

/// The distinct items of a sequence are its items, each once: nothing is
/// added, nothing is left out, nothing occurs twice, and the first item stays
/// first.
pub proof fn lemma_first_occurrences<A>(items: Seq<A>)
    ensures
        first_occurrences(items).no_duplicates(),
        first_occurrences(items).len() <= items.len(),
        forall|item: A|
            #![trigger first_occurrences(items).contains(item)]
            #![trigger items.contains(item)]
            first_occurrences(items).contains(item) <==> items.contains(item),
        items.len() > 0 ==> first_occurrences(items).len() > 0 && first_occurrences(items)[0]
            == items[0],
    decreases items.len(),
{
    if items.len() > 0 {
        let earlier = items.drop_last();
        let before = first_occurrences(earlier);
        let distinct = first_occurrences(items);
        lemma_first_occurrences(earlier);
        assert forall|item: A| distinct.contains(item) <==> items.contains(item) by {
            if distinct.contains(item) {
                let i = choose|i: int| 0 <= i < distinct.len() && distinct[i] == item;
                if i < before.len() {
                    assert(before[i] == item);
                    assert(before.contains(item));
                    let j = choose|j: int| 0 <= j < earlier.len() && earlier[j] == item;
                    assert(items[j] == item);
                } else {
                    assert(items[items.len() - 1] == item);
                }
            }
            if items.contains(item) {
                let j = choose|j: int| 0 <= j < items.len() && items[j] == item;
                if j < earlier.len() {
                    assert(earlier[j] == item);
                    assert(earlier.contains(item));
                    let i = choose|i: int| 0 <= i < before.len() && before[i] == item;
                    assert(distinct[i] == item);
                } else if before.contains(item) {
                } else {
                    assert(distinct[before.len() as int] == item);
                }
            }
        }
        if earlier.len() > 0 {
            assert(earlier[0] == items[0]);
        }
    }
}

/// Taking the distinct items commutes with a renaming of the items that gives
/// different items different names.
pub proof fn lemma_first_occurrences_renamed<A, B>(items: Seq<A>, name: spec_fn(A) -> B)
    requires
        forall|i: int, j: int|
            0 <= i < items.len() && 0 <= j < items.len() && name(items[i]) == name(items[j])
                ==> items[i] == items[j],
    ensures
        first_occurrences(items.map_values(name)) == first_occurrences(items).map_values(name),
    decreases items.len(),
{
    let names = items.map_values(name);
    if items.len() == 0 {
        assert(first_occurrences(items).map_values(name) =~= Seq::<B>::empty());
    } else {
        let earlier = items.drop_last();
        let last = items.last();
        assert forall|i: int, j: int|
            0 <= i < earlier.len() && 0 <= j < earlier.len() && name(earlier[i]) == name(
                earlier[j],
            ) implies earlier[i] == earlier[j] by {
            assert(earlier[i] == items[i] && earlier[j] == items[j]);
        }
        lemma_first_occurrences_renamed(earlier, name);
        lemma_first_occurrences(earlier);
        assert(names.drop_last() =~= earlier.map_values(name));
        assert(names.last() == name(last));
        let before = first_occurrences(earlier);
        let named_before = before.map_values(name);
        assert(named_before.len() == before.len());
        if before.contains(last) {
            let i = choose|i: int| 0 <= i < before.len() && before[i] == last;
            assert(named_before[i] == name(last));
        }
        if named_before.contains(name(last)) {
            let i = choose|i: int| 0 <= i < named_before.len() && named_before[i] == name(last);
            assert(named_before[i] == name(before[i]));
            assert(before.contains(before[i]));
            let j = choose|j: int| 0 <= j < earlier.len() && earlier[j] == before[i];
            assert(items[j] == before[i]);
            assert(items[items.len() - 1] == last);
            assert(before[i] == last);
        }
        assert(first_occurrences(items).map_values(name) =~= first_occurrences(names));
    }
}

/// Calls `Itertools::unique` on the keys and collects what it yields. The
/// adaptor is documented to pass on each item that it has not yielded before,
/// in the order of the input, and so to keep the first of equal items; the
/// contract states that of 32-bit keys, not proved here.
#[verifier::external_body]
pub(crate) fn unique_keys(keys: Vec<u32>) -> (distinct: Vec<u32>)
    ensures
        distinct@ == first_occurrences(keys@),
{
    keys.into_iter().unique().collect()
}

} // verus!
