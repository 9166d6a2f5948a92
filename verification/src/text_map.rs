//! Sets and maps of texts that keep their entries in the order of the keys.

use vstd::prelude::*;
use crate::text::before;
use crate::text::lemma_before_irreflexive;
use crate::text::lemma_before_total;
use crate::text::lemma_before_transitive;
use crate::text::same;
use crate::text::text_before;
use crate::text::texts;

verus! {

/// Whether the texts stand in order, none of them twice.
pub open spec fn ascending(names: Seq<Seq<char>>) -> bool {
    forall|i: int, j: int| 0 <= i < j < names.len() ==> before(#[trigger] names[i], #[trigger] names[j])
}

/// The keys of a list of pairs.
pub open spec fn keys_of(pairs: Seq<(Seq<char>, Seq<char>)>) -> Seq<Seq<char>> {
    pairs.map_values(|pair: (Seq<char>, Seq<char>)| pair.0)
}

/// The map that a list of pairs stands for; a later pair replaces an earlier
/// one with the same key.
pub open spec fn map_of(pairs: Seq<(Seq<char>, Seq<char>)>) -> Map<Seq<char>, Seq<char>>
    decreases pairs.len(),
{
    if pairs.len() == 0 {
        Map::empty()
    } else {
        map_of(pairs.drop_last()).insert(pairs.last().0, pairs.last().1)
    }
}

/// The pairs of strings as pairs of texts.
pub open spec fn pairs_of(list: Seq<(String, String)>) -> Seq<(Seq<char>, Seq<char>)> {
    list.map_values(|pair: (String, String)| (pair.0@, pair.1@))
}

/// Texts in order hold none of them twice.
pub proof fn lemma_ascending_distinct(names: Seq<Seq<char>>)
    requires
        ascending(names),
    ensures
        names.no_duplicates(),
{
    assert forall|i: int, j: int| 0 <= i < names.len() && 0 <= j < names.len() && i != j implies names[i] != names[j] by {
        if i < j {
            assert(before(names[i], names[j]));
        } else {
            assert(before(names[j], names[i]));
        }
        lemma_before_irreflexive(names[i]);
    }
}

/// What the map of a list with distinct keys holds.
pub proof fn lemma_map_of(pairs: Seq<(Seq<char>, Seq<char>)>)
    requires
        keys_of(pairs).no_duplicates(),
    ensures
        forall|k: Seq<char>|
            #![trigger map_of(pairs).contains_key(k)]
            #![trigger keys_of(pairs).contains(k)]
            map_of(pairs).contains_key(k) <==> keys_of(pairs).contains(k),
        forall|i: int| 0 <= i < pairs.len() ==> map_of(pairs)[#[trigger] pairs[i].0] == pairs[i].1,
    decreases pairs.len(),
{
    let keys = keys_of(pairs);
    if pairs.len() > 0 {
        let front = pairs.drop_last();
        let front_keys = keys_of(front);
        assert(front_keys =~= keys.drop_last());
        lemma_map_of(front);
        let n = pairs.len() - 1;
        assert(keys[n] == pairs[n].0);
        assert forall|k: Seq<char>| map_of(pairs).contains_key(k) <==> keys.contains(k) by {
            if keys.contains(k) {
                let i = choose|i: int| 0 <= i < keys.len() && keys[i] == k;
                if i < n {
                    assert(front_keys[i] == k);
                }
            }
            if front_keys.contains(k) {
                let i = choose|i: int| 0 <= i < front_keys.len() && front_keys[i] == k;
                assert(keys[i] == k);
            }
        }
        assert forall|i: int| 0 <= i < pairs.len() implies map_of(pairs)[#[trigger] pairs[i].0] == pairs[i].1 by {
            if i < n {
                assert(front[i] == pairs[i]);
                assert(keys[i] == pairs[i].0);
            }
        }
    }
}

/// Two lists of texts in order that hold the same texts are equal.
pub proof fn lemma_ascending_unique(a: Seq<Seq<char>>, b: Seq<Seq<char>>)
    requires
        ascending(a),
        ascending(b),
        forall|k: Seq<char>| a.contains(k) <==> b.contains(k),
    ensures
        a == b,
    decreases a.len(),
{
    if a.len() == 0 {
        if b.len() > 0 {
            assert(b.contains(b[0]));
        }
        assert(a =~= b);
    } else {
        assert(a.contains(a[0]));
        let j = choose|j: int| 0 <= j < b.len() && b[j] == a[0];
        assert(b.contains(b[0]));
        let i = choose|i: int| 0 <= i < a.len() && a[i] == b[0];
        if i > 0 {
            assert(before(a[0], a[i]));
            if j > 0 {
                assert(before(b[0], b[j]));
                lemma_before_transitive(a[0], b[0], a[0]);
            }
            lemma_before_irreflexive(a[0]);
        }
        assert(a[0] == b[0]);
        let ta = a.drop_first();
        let tb = b.drop_first();
        lemma_ascending_distinct(a);
        lemma_ascending_distinct(b);
        assert forall|k: Seq<char>| ta.contains(k) <==> tb.contains(k) by {
            if ta.contains(k) {
                let m = choose|m: int| 0 <= m < ta.len() && ta[m] == k;
                assert(a[m + 1] == k);
                assert(a.contains(k) && k != a[0]);
                let p = choose|p: int| 0 <= p < b.len() && b[p] == k;
                assert(tb[p - 1] == k);
            }
            if tb.contains(k) {
                let m = choose|m: int| 0 <= m < tb.len() && tb[m] == k;
                assert(b[m + 1] == k);
                assert(b.contains(k) && k != b[0]);
                let p = choose|p: int| 0 <= p < a.len() && a[p] == k;
                assert(ta[p - 1] == k);
            }
        }
        assert(ascending(ta)) by {
            assert forall|x: int, y: int| 0 <= x < y < ta.len() implies before(#[trigger] ta[x], #[trigger] ta[y]) by {
                assert(before(a[x + 1], a[y + 1]));
            }
        }
        assert(ascending(tb)) by {
            assert forall|x: int, y: int| 0 <= x < y < tb.len() implies before(#[trigger] tb[x], #[trigger] tb[y]) by {
                assert(before(b[x + 1], b[y + 1]));
            }
        }
        lemma_ascending_unique(ta, tb);
        assert(a =~= seq![a[0]] + ta);
        assert(b =~= seq![b[0]] + tb);
    }
}

/// Finds where a key stands in a list in order: `Ok` with its place, or `Err`
/// with the place where it would stand.
fn place(entries: &Vec<(String, String)>, key: &str) -> (at: Result<usize, usize>)
    requires
        ascending(keys_of(pairs_of(entries@))),
    ensures
        match at {
            Ok(i) => i < entries@.len() && entries@[i as int].0@ == key@,
            Err(i) => {
                &&& i <= entries@.len()
                &&& forall|k: int| 0 <= k < i ==> before(#[trigger] keys_of(pairs_of(entries@))[k], key@)
                &&& forall|k: int|
                    i <= k < entries@.len() ==> before(key@, #[trigger] keys_of(pairs_of(entries@))[k])
            },
        },
{
    let ghost names = keys_of(pairs_of(entries@));
    let mut i: usize = 0;
    while i < entries.len()
        invariant
            i <= entries@.len(),
            names == keys_of(pairs_of(entries@)),
            ascending(names),
            forall|k: int| 0 <= k < i ==> before(#[trigger] names[k], key@),
        decreases entries.len() - i,
    {
        assert(names[i as int] == entries@[i as int].0@);
        if same(entries[i].0.as_str(), key) {
            return Ok(i);
        }
        if !text_before(entries[i].0.as_str(), key) {
            proof {
                lemma_before_total(names[i as int], key@);
                assert forall|k: int| i <= k < entries@.len() implies before(key@, #[trigger] names[k]) by {
                    if k > i {
                        assert(before(names[i as int], names[k]));
                        lemma_before_transitive(key@, names[i as int], names[k]);
                    }
                }
            }
            return Err(i);
        }
        i = i + 1;
    }
    Err(i)
}

proof fn lemma_place_absent(names: Seq<Seq<char>>, key: Seq<char>, i: int)
    requires
        0 <= i <= names.len(),
        ascending(names),
        forall|k: int| 0 <= k < i ==> before(#[trigger] names[k], key),
        forall|k: int| i <= k < names.len() ==> before(key, #[trigger] names[k]),
    ensures
        !names.contains(key),
        ascending(names.insert(i, key)),
        forall|k: Seq<char>| names.insert(i, key).contains(k) <==> names.contains(k) || k == key,
{
    lemma_before_irreflexive(key);
    let more = names.insert(i, key);
    assert forall|x: int, y: int| 0 <= x < y < more.len() implies before(#[trigger] more[x], #[trigger] more[y]) by {
        if x < i && y > i {
            assert(before(names[x], names[y - 1]));
        } else if x < i && y < i {
            assert(before(names[x], names[y]));
        } else if x > i {
            assert(before(names[x - 1], names[y - 1]));
        } else if x == i {
            assert(before(key, names[y - 1]));
        } else {
            assert(before(names[x], key));
        }
    }
    assert forall|k: Seq<char>| more.contains(k) <==> names.contains(k) || k == key by {
        if names.contains(k) {
            let p = choose|p: int| 0 <= p < names.len() && names[p] == k;
            if p < i {
                assert(more[p] == k);
            } else {
                assert(more[p + 1] == k);
            }
        }
        if k == key {
            assert(more[i] == k);
        }
        if more.contains(k) && k != key {
            let p = choose|p: int| 0 <= p < more.len() && more[p] == k;
            if p < i {
                assert(names[p] == k);
            } else {
                assert(names[p - 1] == k);
            }
        }
    }
}

/// A map from texts to texts, listed in the order of the keys.
#[derive(Debug)]
pub struct TextMap {
    entries: Vec<(String, String)>,
}

impl View for TextMap {
    type V = Map<Seq<char>, Seq<char>>;

    closed spec fn view(&self) -> Map<Seq<char>, Seq<char>> {
        map_of(self.pairs())
    }
}

impl TextMap {
    /// The entries in the order of their keys.
    pub closed spec fn pairs(&self) -> Seq<(Seq<char>, Seq<char>)> {
        pairs_of(self.entries@)
    }

    #[verifier::type_invariant]
    spec fn in_order(&self) -> bool {
        ascending(keys_of(pairs_of(self.entries@)))
    }

    /// A map that holds nothing.
    pub fn new() -> (map: TextMap)
        ensures
            map@ == Map::<Seq<char>, Seq<char>>::empty(),
            map.pairs() == Seq::<(Seq<char>, Seq<char>)>::empty(),
    {
        let map = TextMap { entries: Vec::new() };
        assert(map.pairs() =~= Seq::<(Seq<char>, Seq<char>)>::empty());
        map
    }

    /// Sets the value of a key, in place of the one that it had.
    pub fn insert(&mut self, key: String, value: String)
        ensures
            final(self)@ == old(self)@.insert(key@, value@),
    {
        proof {
            use_type_invariant(&*self);
        }
        let ghost old_pairs = self.pairs();
        let ghost old_keys = keys_of(old_pairs);
        proof {
            lemma_ascending_distinct(old_keys);
            lemma_map_of(old_pairs);
        }
        match place(&self.entries, key.as_str()) {
            Ok(i) => {
                let ghost new_pairs = old_pairs.update(i as int, (key@, value@));
                proof {
                    assert(old_keys[i as int] == key@);
                    assert(keys_of(new_pairs) =~= old_keys);
                    lemma_map_of(new_pairs);
                    assert(map_of(new_pairs) =~= map_of(old_pairs).insert(key@, value@)) by {
                        assert forall|k: Seq<char>| map_of(new_pairs).contains_key(k) implies map_of(new_pairs)[k] == map_of(old_pairs).insert(key@, value@)[k] by {
                            assert(keys_of(new_pairs).contains(k));
                            let p = choose|p: int| 0 <= p < old_keys.len() && old_keys[p] == k;
                            assert(new_pairs[p].0 == k);
                            assert(old_pairs[p].0 == k);
                            if p != i {
                                assert(old_keys[p] != old_keys[i as int]);
                            }
                        }
                    }
                    assert(pairs_of(self.entries@.update(i as int, (key, value))) =~= new_pairs);
                }
                let mut entries: Vec<(String, String)> = Vec::new();
                std::mem::swap(&mut self.entries, &mut entries);
                entries.set(i, (key, value));
                self.entries = entries;
            },
            Err(i) => {
                let ghost new_pairs = old_pairs.insert(i as int, (key@, value@));
                proof {
                    lemma_place_absent(old_keys, key@, i as int);
                    assert(keys_of(new_pairs) =~= old_keys.insert(i as int, key@));
                    lemma_ascending_distinct(keys_of(new_pairs));
                    lemma_map_of(new_pairs);
                    assert(map_of(new_pairs) =~= map_of(old_pairs).insert(key@, value@)) by {
                        assert(new_pairs[i as int].0 == key@);
                        assert forall|k: Seq<char>| map_of(new_pairs).contains_key(k) implies map_of(new_pairs)[k] == map_of(old_pairs).insert(key@, value@)[k] by {
                            let names = keys_of(new_pairs);
                            assert(names.contains(k));
                            let p = choose|p: int| 0 <= p < names.len() && names[p] == k;
                            assert(new_pairs[p].0 == k);
                            if p < i {
                                assert(old_pairs[p].0 == k);
                                assert(old_keys[p] == k);
                            } else if p > i {
                                assert(old_pairs[p - 1].0 == k);
                                assert(old_keys[p - 1] == k);
                            }
                        }
                    }
                    assert(pairs_of(self.entries@.insert(i as int, (key, value))) =~= new_pairs);
                }
                let mut entries: Vec<(String, String)> = Vec::new();
                std::mem::swap(&mut self.entries, &mut entries);
                entries.insert(i, (key, value));
                self.entries = entries;
            },
        }
    }

    /// The value of a key.
    pub fn get(&self, key: &str) -> (value: Option<&String>)
        ensures
            match value {
                Some(text) => self@.contains_key(key@) && self@[key@] == text@,
                None => !self@.contains_key(key@),
            },
    {
        proof {
            use_type_invariant(self);
            lemma_ascending_distinct(keys_of(self.pairs()));
            lemma_map_of(self.pairs());
        }
        let ghost names = keys_of(self.pairs());
        match place(&self.entries, key) {
            Ok(i) => {
                assert(names[i as int] == key@);
                assert(names.contains(key@));
                assert(self.pairs()[i as int].0 == key@);
                Some(&self.entries[i].1)
            },
            Err(i) => {
                proof {
                    lemma_place_absent(names, key@, i as int);
                }
                None
            },
        }
    }

    /// How many entries the map has. The entries are those of the map, in the
    /// order of the keys.
    pub fn len(&self) -> (n: usize)
        ensures
            n == self.pairs().len(),
            ascending(keys_of(self.pairs())),
            self@ == map_of(self.pairs()),
    {
        proof {
            use_type_invariant(self);
        }
        self.entries.len()
    }

    /// The key of the entry at a place in the order.
    pub fn key_at(&self, i: usize) -> (key: &String)
        requires
            i < self.pairs().len(),
        ensures
            key@ == self.pairs()[i as int].0,
    {
        &self.entries[i].0
    }

    /// The value of the entry at a place in the order.
    pub fn value_at(&self, i: usize) -> (value: &String)
        requires
            i < self.pairs().len(),
        ensures
            value@ == self.pairs()[i as int].1,
    {
        &self.entries[i].1
    }

    /// A map with the same entries.
    pub fn copy(&self) -> (map: TextMap)
        ensures
            map@ == self@,
            map.pairs() == self.pairs(),
    {
        proof {
            use_type_invariant(self);
        }
        let mut entries: Vec<(String, String)> = Vec::new();
        let mut i: usize = 0;
        while i < self.entries.len()
            invariant
                i <= self.entries@.len(),
                entries@.len() == i,
                forall|k: int|
                    0 <= k < i ==> (#[trigger] entries@[k]).0@ == self.entries@[k].0@ && entries@[k].1@
                        == self.entries@[k].1@,
            decreases self.entries.len() - i,
        {
            entries.push((self.entries[i].0.clone(), self.entries[i].1.clone()));
            i = i + 1;
        }
        assert(pairs_of(entries@) =~= pairs_of(self.entries@));
        TextMap { entries }
    }
}

impl Default for TextMap {
    /// A map that holds nothing.
    fn default() -> (map: TextMap)
        ensures
            map@ == Map::<Seq<char>, Seq<char>>::empty(),
            map.pairs() == Seq::<(Seq<char>, Seq<char>)>::empty(),
    {
        TextMap::new()
    }
}

/// A set of texts, listed in order.
pub struct TextSet {
    names: TextMap,
}

impl View for TextSet {
    type V = Set<Seq<char>>;

    closed spec fn view(&self) -> Set<Seq<char>> {
        self.names@.dom()
    }
}

impl TextSet {
    /// A set that holds nothing.
    pub fn new() -> (set: TextSet)
        ensures
            set@ == Set::<Seq<char>>::empty(),
    {
        let set = TextSet { names: TextMap::new() };
        assert(set@ =~= Set::<Seq<char>>::empty());
        set
    }

    /// Adds a text.
    pub fn insert(&mut self, name: String)
        ensures
            final(self)@ == old(self)@.insert(name@),
    {
        self.names.insert(name, String::new());
    }

    /// Whether the set holds the text.
    pub fn contains(&self, name: &str) -> (yes: bool)
        ensures
            yes == self@.contains(name@),
    {
        self.names.get(name).is_some()
    }

    /// The texts in order.
    pub fn list(&self) -> (list: Vec<String>)
        ensures
            ascending(texts(list@)),
            forall|name: Seq<char>| self@.contains(name) <==> texts(list@).contains(name),
    {
        proof {
            use_type_invariant(&self.names);
            lemma_ascending_distinct(keys_of(self.names.pairs()));
            lemma_map_of(self.names.pairs());
        }
        let mut list: Vec<String> = Vec::new();
        let mut i: usize = 0;
        while i < self.names.len()
            invariant
                i <= self.names.pairs().len(),
                list@.len() == i,
                forall|k: int| 0 <= k < i ==> (#[trigger] list@[k])@ == self.names.pairs()[k].0,
            decreases self.names.pairs().len() - i,
        {
            list.push(self.names.key_at(i).clone());
            i = i + 1;
        }
        assert(texts(list@) =~= keys_of(self.names.pairs()));
        list
    }
}

/// Whether a list holds the texts of a set, each once, in ascending order.
pub open spec fn lists_set(list: Seq<Seq<char>>, set: Set<Seq<char>>) -> bool {
    ascending(list) && forall|name: Seq<char>| set.contains(name) <==> list.contains(name)
}

/// The texts of a set, each once, in ascending order.
pub open spec fn in_order(set: Set<Seq<char>>) -> Seq<Seq<char>> {
    choose|list: Seq<Seq<char>>| lists_set(list, set)
}

/// There is but one list of the texts of a set in ascending order.
pub proof fn lemma_in_order(list: Seq<Seq<char>>, set: Set<Seq<char>>)
    requires
        lists_set(list, set),
    ensures
        in_order(set) == list,
{
    lemma_ascending_unique(in_order(set), list);
}

proof fn lemma_insert_ascending(list: Seq<Seq<char>>, name: Seq<char>) -> (more: Seq<Seq<char>>)
    requires
        ascending(list),
        !list.contains(name),
    ensures
        ascending(more),
        forall|n: Seq<char>| more.contains(n) <==> list.contains(n) || n == name,
    decreases list.len(),
{
    if list.len() == 0 || before(list.last(), name) {
        let more = list.push(name);
        assert forall|n: Seq<char>| more.contains(n) <==> list.contains(n) || n == name by {
            if list.contains(n) {
                let i = choose|i: int| 0 <= i < list.len() && list[i] == n;
                assert(more[i] == n);
            }
            assert(more[list.len() as int] == name);
        }
        assert forall|i: int, j: int| 0 <= i < j < more.len() implies before(
            #[trigger] more[i],
            #[trigger] more[j],
        ) by {
            if j == list.len() && i < list.len() - 1 {
                assert(before(list[i], list[list.len() - 1]));
                lemma_before_transitive(list[i], list.last(), name);
            }
        }
        more
    } else {
        let front = list.drop_last();
        assert(list.contains(list[list.len() - 1]));
        lemma_before_total(list.last(), name);
        assert(!front.contains(name)) by {
            if front.contains(name) {
                let i = choose|i: int| 0 <= i < front.len() && front[i] == name;
                assert(list[i] == name);
            }
        }
        let rest = lemma_insert_ascending(front, name);
        let more = rest.push(list.last());
        assert forall|n: Seq<char>| more.contains(n) <==> list.contains(n) || n == name by {
            if more.contains(n) {
                let i = choose|i: int| 0 <= i < more.len() && more[i] == n;
                if i < rest.len() {
                    assert(rest.contains(rest[i]));
                    if front.contains(n) {
                        let k = choose|k: int| 0 <= k < front.len() && front[k] == n;
                        assert(list[k] == n);
                    }
                } else {
                    assert(list[list.len() - 1] == n);
                }
            }
            if list.contains(n) || n == name {
                if n == list.last() {
                    assert(more[rest.len() as int] == n);
                } else {
                    if n != name {
                        let k = choose|k: int| 0 <= k < list.len() && list[k] == n;
                        assert(front[k] == n);
                        assert(front.contains(n));
                    }
                    assert(rest.contains(n));
                    let k = choose|k: int| 0 <= k < rest.len() && rest[k] == n;
                    assert(more[k] == n);
                }
            }
        }
        assert forall|i: int, j: int| 0 <= i < j < more.len() implies before(
            #[trigger] more[i],
            #[trigger] more[j],
        ) by {
            if j == rest.len() {
                assert(rest.contains(rest[i]));
                if front.contains(rest[i]) {
                    let k = choose|k: int| 0 <= k < front.len() && front[k] == rest[i];
                    assert(before(list[k], list[list.len() - 1]));
                }
            }
        }
        more
    }
}

/// The texts of a list that are meant can be listed in ascending order.
pub proof fn lemma_sorted_list(names: Seq<Seq<char>>, keep: spec_fn(Seq<char>) -> bool) -> (list: Seq<
    Seq<char>,
>)
    ensures
        ascending(list),
        forall|n: Seq<char>| list.contains(n) <==> names.contains(n) && keep(n),
    decreases names.len(),
{
    if names.len() == 0 {
        Seq::empty()
    } else {
        let front = names.drop_last();
        let last = names.last();
        let list = lemma_sorted_list(front, keep);
        assert forall|n: Seq<char>| names.contains(n) <==> front.contains(n) || n == last by {
            if names.contains(n) {
                let i = choose|i: int| 0 <= i < names.len() && names[i] == n;
                if i < front.len() {
                    assert(front[i] == n);
                }
            }
            if front.contains(n) {
                let i = choose|i: int| 0 <= i < front.len() && front[i] == n;
                assert(names[i] == n);
            }
            assert(names[names.len() - 1] == last);
        }
        if keep(last) && !list.contains(last) {
            lemma_insert_ascending(list, last)
        } else {
            list
        }
    }
}

} // verus!
