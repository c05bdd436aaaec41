//! Sorting by name.

use crate::command::protocol::TopicInfo;
use crate::sorted::{text_before, text_comes_before, SortKey};
use crate::text::texts;
use vstd::prelude::*;

verus! {

/// Things that have a name.
pub trait Named: Sized {
    /// The name.
    spec fn name_view(&self) -> Seq<char>;

    /// The name.
    fn name_text(&self) -> (r: &str)
        ensures
            r@ == self.name_view(),
    ;
}

impl Named for String {
    open spec fn name_view(&self) -> Seq<char> {
        self@
    }

    fn name_text(&self) -> (r: &str) {
        self.as_str()
    }
}

impl Named for TopicInfo {
    open spec fn name_view(&self) -> Seq<char> {
        self.name@
    }

    fn name_text(&self) -> (r: &str) {
        self.name.as_str()
    }
}

/// No name stands behind a greater one.
pub open spec fn in_order<T: Named>(list: Seq<T>) -> bool {
    forall|i: int, j: int|
        0 <= i < j < list.len() ==> !text_before(
            (#[trigger] list[j]).name_view(),
            (#[trigger] list[i]).name_view(),
        )
}

/// The things of a list that have the given name, in order.
pub open spec fn with_name<T: Named>(list: Seq<T>, name: Seq<char>) -> Seq<T> {
    list.filter(|item: T| item.name_view() == name)
}

/// `sorted` holds what `list` holds, in the order of names. Things of one name keep
/// their order.
pub open spec fn sorts<T: Named>(sorted: Seq<T>, list: Seq<T>) -> bool {
    &&& in_order(sorted)
    &&& sorted.len() == list.len()
    &&& forall|name: Seq<char>| #[trigger] with_name(sorted, name) == with_name(list, name)
}

proof fn lemma_filter_none<T: Named>(list: Seq<T>, name: Seq<char>)
    requires
        forall|i: int| 0 <= i < list.len() ==> (#[trigger] list[i]).name_view() != name,
    ensures
        with_name(list, name) == Seq::<T>::empty(),
    decreases list.len(),
{
    reveal(Seq::filter);
    if list.len() > 0 {
        assert(list[list.len() - 1].name_view() != name);
        assert forall|i: int| 0 <= i < list.drop_last().len() implies (
        #[trigger] list.drop_last()[i]).name_view() != name by {
            assert(list.drop_last()[i] == list[i]);
        }
        lemma_filter_none(list.drop_last(), name);
    } else {
        assert(with_name(list, name) =~= Seq::<T>::empty());
    }
}

proof fn lemma_filter_push<T: Named>(list: Seq<T>, item: T, name: Seq<char>)
    ensures
        with_name(list.push(item), name) == (if item.name_view() == name {
            with_name(list, name).push(item)
        } else {
            with_name(list, name)
        }),
{
    reveal(Seq::filter);
    assert(list.push(item).drop_last() =~= list);
}

proof fn lemma_filter_insert<T: Named>(list: Seq<T>, at: int, item: T, name: Seq<char>)
    requires
        0 <= at <= list.len(),
        forall|i: int|
            at <= i < list.len() ==> (#[trigger] list[i]).name_view() != item.name_view(),
    ensures
        with_name(list.insert(at, item), name) == (if item.name_view() == name {
            with_name(list, name).push(item)
        } else {
            with_name(list, name)
        }),
{
    let keep = |x: T| x.name_view() == name;
    let left = list.take(at);
    let right = list.skip(at);
    assert(list =~= left + right);
    assert(list.insert(at, item) =~= left.push(item) + right);
    Seq::filter_distributes_over_add(left, right, keep);
    Seq::filter_distributes_over_add(left.push(item), right, keep);
    lemma_filter_push(left, item, name);
    if item.name_view() == name {
        assert forall|i: int| 0 <= i < right.len() implies (#[trigger] right[i]).name_view()
            != name by {
            assert(right[i] == list[at + i]);
        }
        lemma_filter_none(right, name);
        assert(with_name(left, name).push(item) + Seq::<T>::empty() =~= with_name(
            left,
            name,
        ).push(item));
        assert(with_name(left, name) + Seq::<T>::empty() =~= with_name(left, name));
    }
}

/// Where an item belongs: behind everything whose name is not greater.
fn place_by_name<T: Named>(list: &Vec<T>, item: &T) -> (at: usize)
    requires
        in_order(list@),
    ensures
        at <= list@.len(),
        forall|i: int|
            0 <= i < at ==> !text_before(item.name_view(), (#[trigger] list@[i]).name_view()),
        forall|i: int|
            at <= i < list@.len() ==> text_before(
                item.name_view(),
                (#[trigger] list@[i]).name_view(),
            ),
{
    let mut at: usize = 0;
    while at < list.len() && !text_comes_before(item.name_text(), list[at].name_text())
        invariant
            at <= list@.len(),
            forall|i: int|
                0 <= i < at ==> !text_before(item.name_view(), (#[trigger] list@[i]).name_view()),
        decreases list@.len() - at,
    {
        at += 1;
    }
    assert forall|i: int| at <= i < list@.len() implies text_before(
        item.name_view(),
        (#[trigger] list@[i]).name_view(),
    ) by {
        let here = list@[at as int].name_view();
        let there = list@[i].name_view();
        if i > at {
            String::total(here, there);
            if text_before(here, there) {
                String::transitive(item.name_view(), here, there);
            }
        }
    }
    at
}

/// Sorts a list by name. Things of one name keep their order.
pub fn sort_by_name<T: Named>(list: Vec<T>) -> (r: Vec<T>)
    ensures
        sorts(r@, list@),
{
    let ghost all = list@;
    let mut rest = list;
    let mut r: Vec<T> = Vec::new();
    assert(all.take(0) =~= r@);
    while rest.len() > 0
        invariant
            r@.len() + rest@.len() == all.len(),
            rest@ == all.skip(r@.len() as int),
            in_order(r@),
            forall|name: Seq<char>| #[trigger]
                with_name(r@, name) == with_name(all.take(r@.len() as int), name),
        decreases rest.len(),
    {
        let ghost n = r@.len() as int;
        let ghost before = r@;
        let item = rest.remove(0);
        assert(item == all[n]);
        let at = place_by_name(&r, &item);
        r.insert(at, item);
        proof {
            assert(all.take(n + 1) =~= all.take(n).push(item));
            assert forall|i: int| at <= i < before.len() implies (#[trigger] before[i]).name_view()
                != item.name_view() by {
                String::irreflexive(item.name_view());
            }
            assert forall|name: Seq<char>| #[trigger] with_name(r@, name) == with_name(
                all.take(n + 1),
                name,
            ) by {
                lemma_filter_insert(before, at as int, item, name);
                lemma_filter_push(all.take(n), item, name);
                assert(with_name(before, name) == with_name(all.take(n), name));
            }
            assert(in_order(r@)) by {
                assert forall|i: int, j: int| 0 <= i < j < r@.len() implies !text_before(
                    (#[trigger] r@[j]).name_view(),
                    (#[trigger] r@[i]).name_view(),
                ) by {
                    let a = if i < at { i } else { i - 1 };
                    let b = if j < at { j } else { j - 1 };
                    if i != at {
                        assert(r@[i] == before[a]);
                    }
                    if j != at {
                        assert(r@[j] == before[b]);
                    }
                    if i == at {
                        let greater = before[b].name_view();
                        if text_before(greater, item.name_view()) {
                            String::transitive(item.name_view(), greater, item.name_view());
                            String::irreflexive(item.name_view());
                        }
                    }
                }
            }
        }
    }
    assert(all.take(r@.len() as int) =~= all);
    r
}

/// The texts of a list that are the given one.
pub open spec fn occurrences(list: Seq<Seq<char>>, name: Seq<char>) -> Seq<Seq<char>> {
    list.filter(|text: Seq<char>| text == name)
}

/// `sorted` holds what `list` holds, in order.
pub open spec fn sorts_texts(sorted: Seq<Seq<char>>, list: Seq<Seq<char>>) -> bool {
    &&& forall|i: int, j: int|
        0 <= i < j < sorted.len() ==> !text_before(#[trigger] sorted[j], #[trigger] sorted[i])
    &&& sorted.len() == list.len()
    &&& forall|name: Seq<char>| #[trigger] occurrences(sorted, name) == occurrences(list, name)
}

proof fn lemma_occurrences(list: Seq<String>, name: Seq<char>)
    ensures
        occurrences(texts(list), name) == texts(with_name(list, name)),
    decreases list.len(),
{
    reveal(Seq::filter);
    if list.len() > 0 {
        lemma_occurrences(list.drop_last(), name);
        assert(texts(list).drop_last() =~= texts(list.drop_last()));
        assert(occurrences(texts(list), name) =~= texts(with_name(list, name)));
    } else {
        assert(occurrences(texts(list), name) =~= texts(with_name(list, name)));
    }
}

/// Sorting texts by name sorts what they say.
pub proof fn lemma_sorts_texts(sorted: Seq<String>, list: Seq<String>)
    requires
        sorts(sorted, list),
    ensures
        sorts_texts(texts(sorted), texts(list)),
{
    assert forall|i: int, j: int| 0 <= i < j < texts(sorted).len() implies !text_before(
        #[trigger] texts(sorted)[j],
        #[trigger] texts(sorted)[i],
    ) by {
        assert(!text_before(sorted[j].name_view(), sorted[i].name_view()));
    }
    assert forall|name: Seq<char>| #[trigger] occurrences(texts(sorted), name) == occurrences(
        texts(list),
        name,
    ) by {
        lemma_occurrences(sorted, name);
        lemma_occurrences(list, name);
        assert(with_name(sorted, name) == with_name(list, name));
    }
}

} // verus!
