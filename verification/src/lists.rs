//! Lists: what is kept of a list when repeats are dropped.

use vstd::prelude::*;
use crate::text::same;
use crate::text::texts;
use crate::text_map::pairs_of;

verus! {

/// The list with the items of `rest` behind it that it does not yet hold, each
/// once, in the order of their first places.
pub open spec fn unique_from<T>(done: Seq<T>, rest: Seq<T>) -> Seq<T>
    decreases rest.len(),
{
    if rest.len() == 0 {
        done
    } else if done.contains(rest[0]) {
        unique_from(done, rest.drop_first())
    } else {
        unique_from(done.push(rest[0]), rest.drop_first())
    }
}

/// The items of a list, each once, in the order of their first places.
pub open spec fn unique<T>(list: Seq<T>) -> Seq<T> {
    unique_from(Seq::empty(), list)
}

/// Dropping repeats leaves no item twice and loses none.
pub proof fn lemma_unique_from<T>(done: Seq<T>, rest: Seq<T>)
    requires
        done.no_duplicates(),
    ensures
        unique_from(done, rest).no_duplicates(),
        forall|item: T|
            unique_from(done, rest).contains(item) <==> done.contains(item) || rest.contains(item),
        done.len() <= unique_from(done, rest).len(),
        unique_from(done, rest).subrange(0, done.len() as int) == done,
    decreases rest.len(),
{
    if rest.len() == 0 {
        assert(done.subrange(0, done.len() as int) =~= done);
    } else {
        let head = rest[0];
        let tail = rest.drop_first();
        assert forall|item: T| rest.contains(item) <==> item == head || tail.contains(item) by {
            if rest.contains(item) {
                let i = choose|i: int| 0 <= i < rest.len() && rest[i] == item;
                if i > 0 {
                    assert(tail[i - 1] == item);
                }
            }
            if tail.contains(item) {
                let i = choose|i: int| 0 <= i < tail.len() && tail[i] == item;
                assert(rest[i + 1] == item);
            }
            assert(rest[0] == head);
        }
        if done.contains(head) {
            lemma_unique_from(done, tail);
        } else {
            let more = done.push(head);
            assert forall|item: T| more.contains(item) <==> done.contains(item) || item == head by {
                if done.contains(item) {
                    let i = choose|i: int| 0 <= i < done.len() && done[i] == item;
                    assert(more[i] == item);
                }
                assert(more[done.len() as int] == head);
            }
            lemma_unique_from(more, tail);
            let all = unique_from(more, tail);
            assert(all.subrange(0, done.len() as int) =~= done) by {
                assert(all.subrange(0, more.len() as int) == more);
                assert forall|i: int| 0 <= i < done.len() implies all[i] == done[i] by {
                    assert(all.subrange(0, more.len() as int)[i] == more[i]);
                }
            }
        }
    }
}

/// Dropping repeats leaves no item twice and loses none.
pub proof fn lemma_unique<T>(list: Seq<T>)
    ensures
        unique(list).no_duplicates(),
        forall|item: T| unique(list).contains(item) <==> list.contains(item),
{
    lemma_unique_from(Seq::<T>::empty(), list);
}

/// What is picked out of a list is in the list and meant, and nothing that is
/// both is passed over.
pub proof fn lemma_filtered<T>(list: Seq<T>, keep: spec_fn(T) -> bool, item: T)
    ensures
        list.filter(keep).contains(item) <==> list.contains(item) && keep(item),
    decreases list.len(),
{
    reveal(Seq::filter);
    if list.len() > 0 {
        let front = list.drop_last();
        let picked = front.filter(keep);
        lemma_filtered(front, keep, item);
        if front.contains(item) {
            let i = choose|i: int| 0 <= i < front.len() && front[i] == item;
            assert(list[i] == item);
        }
        if list.contains(item) && item != list.last() {
            let i = choose|i: int| 0 <= i < list.len() && list[i] == item;
            assert(front[i] == item);
        }
        assert(list[list.len() - 1] == list.last());
        if keep(list.last()) {
            let all = picked.push(list.last());
            if picked.contains(item) {
                let i = choose|i: int| 0 <= i < picked.len() && picked[i] == item;
                assert(all[i] == item);
            }
            assert(all[picked.len() as int] == list.last());
            if all.contains(item) && item != list.last() {
                let i = choose|i: int| 0 <= i < all.len() && all[i] == item;
                assert(picked[i] == item);
            }
        }
    }
}

/// Whether the list holds the text.
pub fn holds_text(list: &Vec<String>, item: &str) -> (yes: bool)
    ensures
        yes == texts(list@).contains(item@),
{
    let mut i: usize = 0;
    while i < list.len()
        invariant
            i <= list@.len(),
            forall|k: int| 0 <= k < i ==> (#[trigger] texts(list@)[k]) != item@,
        decreases list.len() - i,
    {
        assert(texts(list@)[i as int] == list@[i as int]@);
        if same(list[i].as_str(), item) {
            return true;
        }
        i = i + 1;
    }
    false
}

/// Adds a text.
pub fn push_text(list: &mut Vec<String>, item: String)
    ensures
        texts(final(list)@) == texts(old(list)@).push(item@),
{
    let ghost before = texts(list@);
    list.push(item);
    assert(texts(list@) =~= before.push(item@));
}

/// A second list of the same texts.
pub fn copy_texts(list: &Vec<String>) -> (copy: Vec<String>)
    ensures
        texts(copy@) == texts(list@),
{
    let mut copy: Vec<String> = Vec::new();
    let mut i: usize = 0;
    while i < list.len()
        invariant
            i <= list@.len(),
            texts(copy@) == texts(list@).subrange(0, i as int),
        decreases list.len() - i,
    {
        push_text(&mut copy, list[i].clone());
        i = i + 1;
        assert(texts(copy@) =~= texts(list@).subrange(0, i as int));
    }
    assert(texts(list@).subrange(0, i as int) =~= texts(list@));
    copy
}

/// Adds a text to a list that does not hold it.
pub fn add_text(list: &mut Vec<String>, item: String)
    ensures
        texts(final(list)@) == (if texts(old(list)@).contains(item@) {
            texts(old(list)@)
        } else {
            texts(old(list)@).push(item@)
        }),
{
    let ghost known = texts(list@);
    if !holds_text(list, item.as_str()) {
        list.push(item);
        assert(texts(list@) =~= known.push(item@));
    }
}

/// The texts of a list, each once, in the order of their first places.
pub fn unique_texts(list: &Vec<String>) -> (result: Vec<String>)
    ensures
        texts(result@) == unique(texts(list@)),
{
    let ghost all = texts(list@);
    let mut result: Vec<String> = Vec::new();
    let mut i: usize = 0;
    assert(texts(result@) =~= Seq::<Seq<char>>::empty());
    assert(all.subrange(0, all.len() as int) =~= all);
    while i < list.len()
        invariant
            i <= list@.len(),
            all == texts(list@),
            unique(all) == unique_from(texts(result@), all.subrange(i as int, all.len() as int)),
        decreases list.len() - i,
    {
        let ghost rest = all.subrange(i as int, all.len() as int);
        assert(rest[0] == list@[i as int]@);
        assert(rest.drop_first() =~= all.subrange(i + 1, all.len() as int));
        add_text(&mut result, list[i].clone());
        i = i + 1;
    }
    result
}

/// Whether the list holds the pair.
pub fn holds_pair(list: &Vec<(String, String)>, key: &str, value: &str) -> (yes: bool)
    ensures
        yes == pairs_of(list@).contains((key@, value@)),
{
    let mut i: usize = 0;
    while i < list.len()
        invariant
            i <= list@.len(),
            forall|k: int| 0 <= k < i ==> (#[trigger] pairs_of(list@)[k]) != (key@, value@),
        decreases list.len() - i,
    {
        assert(pairs_of(list@)[i as int] == (list@[i as int].0@, list@[i as int].1@));
        if same(list[i].0.as_str(), key) && same(list[i].1.as_str(), value) {
            return true;
        }
        i = i + 1;
    }
    false
}

/// Adds a pair to a list that does not hold it.
pub fn add_pair(list: &mut Vec<(String, String)>, key: String, value: String)
    ensures
        pairs_of(final(list)@) == (if pairs_of(old(list)@).contains((key@, value@)) {
            pairs_of(old(list)@)
        } else {
            pairs_of(old(list)@).push((key@, value@))
        }),
{
    let ghost known = pairs_of(list@);
    if !holds_pair(list, key.as_str(), value.as_str()) {
        list.push((key, value));
        assert(pairs_of(list@) =~= known.push((key@, value@)));
    }
}

} // verus!
