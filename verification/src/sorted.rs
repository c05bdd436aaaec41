//! Tables that keep their entries in the order of their keys.

use crate::assoc::{as_map, has_key, key_at, lemma_as_map, lemma_remove, lemma_update, unique_keys};
use crate::text::texts;
use vstd::prelude::*;
use vstd::utf8::encode_utf8;

verus! {

/// `a` comes before `b` in lexicographic order.
pub open spec fn bytes_before(a: Seq<u8>, b: Seq<u8>) -> bool
    decreases a.len(),
{
    if b.len() == 0 {
        false
    } else if a.len() == 0 {
        true
    } else if a[0] != b[0] {
        a[0] < b[0]
    } else {
        bytes_before(a.skip(1), b.skip(1))
    }
}

/// `a` comes before `b` in the order of texts: that of their UTF-8 bytes.
pub open spec fn text_before(a: Seq<char>, b: Seq<char>) -> bool {
    bytes_before(encode_utf8(a), encode_utf8(b))
}

proof fn lemma_bytes_irreflexive(a: Seq<u8>)
    ensures
        !bytes_before(a, a),
    decreases a.len(),
{
    if a.len() > 0 {
        lemma_bytes_irreflexive(a.skip(1));
    }
}

proof fn lemma_bytes_transitive(a: Seq<u8>, b: Seq<u8>, c: Seq<u8>)
    requires
        bytes_before(a, b),
        bytes_before(b, c),
    ensures
        bytes_before(a, c),
    decreases a.len(),
{
    if a.len() > 0 && a[0] == b[0] && b[0] == c[0] {
        lemma_bytes_transitive(a.skip(1), b.skip(1), c.skip(1));
    }
}

proof fn lemma_bytes_total(a: Seq<u8>, b: Seq<u8>)
    ensures
        a == b || bytes_before(a, b) || bytes_before(b, a),
    decreases a.len(),
{
    if a.len() > 0 && b.len() > 0 && a[0] == b[0] {
        lemma_bytes_total(a.skip(1), b.skip(1));
        if a.skip(1) == b.skip(1) {
            assert forall|i: int| 0 <= i < a.len() implies a[i] == b[i] by {
                if i > 0 {
                    assert(a.skip(1)[i - 1] == b.skip(1)[i - 1]);
                }
            }
            assert(a.skip(1).len() == b.skip(1).len());
            assert(a =~= b);
        }
    } else if a.len() == 0 && b.len() == 0 {
        assert(a =~= b);
    }
}

/// Keys in a total order. Keys that look alike count as one.
pub trait SortKey: Sized {
    /// What a key looks like.
    type Shape;

    /// What this key looks like.
    spec fn shape(&self) -> Self::Shape;

    /// The order of keys.
    spec fn before(a: Self::Shape, b: Self::Shape) -> bool;

    proof fn irreflexive(a: Self::Shape)
        ensures
            !Self::before(a, a),
    ;

    proof fn transitive(a: Self::Shape, b: Self::Shape, c: Self::Shape)
        requires
            Self::before(a, b),
            Self::before(b, c),
        ensures
            Self::before(a, c),
    ;

    proof fn total(a: Self::Shape, b: Self::Shape)
        ensures
            a == b || Self::before(a, b) || Self::before(b, a),
    ;

    /// Whether this key comes before another.
    fn comes_before(&self, other: &Self) -> (r: bool)
        ensures
            r == Self::before(self.shape(), other.shape()),
    ;
}

/// Whether one text comes before another.
pub fn text_comes_before(a: &str, b: &str) -> (r: bool)
    ensures
        r == text_before(a@, b@),
{
    let left = a.as_bytes();
    let right = b.as_bytes();
    let mut i: usize = 0;
    assert(left@.skip(0) =~= left@);
    assert(right@.skip(0) =~= right@);
    while i < left.len() && i < right.len()
        invariant
            left@ == encode_utf8(a@),
            right@ == encode_utf8(b@),
            i <= left@.len(),
            i <= right@.len(),
            bytes_before(left@, right@) == bytes_before(left@.skip(i as int), right@.skip(i as int)),
        decreases left@.len() - i,
    {
        if left[i] != right[i] {
            return left[i] < right[i];
        }
        assert(left@.skip(i as int).skip(1) =~= left@.skip(i + 1));
        assert(right@.skip(i as int).skip(1) =~= right@.skip(i + 1));
        i += 1;
    }
    i < right.len()
}

impl SortKey for String {
    type Shape = Seq<char>;

    open spec fn shape(&self) -> Seq<char> {
        self@
    }

    open spec fn before(a: Seq<char>, b: Seq<char>) -> bool {
        text_before(a, b)
    }

    proof fn irreflexive(a: Seq<char>) {
        lemma_bytes_irreflexive(encode_utf8(a));
    }

    proof fn transitive(a: Seq<char>, b: Seq<char>, c: Seq<char>) {
        lemma_bytes_transitive(encode_utf8(a), encode_utf8(b), encode_utf8(c));
    }

    proof fn total(a: Seq<char>, b: Seq<char>) {
        lemma_bytes_total(encode_utf8(a), encode_utf8(b));
        vstd::utf8::encode_utf8_decode_utf8(a);
        vstd::utf8::encode_utf8_decode_utf8(b);
    }

    fn comes_before(&self, other: &String) -> (r: bool) {
        text_comes_before(self.as_str(), other.as_str())
    }
}

/// A name within a namespace. Names are ordered by their namespaces first.
pub struct ScopedName {
    pub namespace: String,
    pub name: String,
}

impl SortKey for ScopedName {
    type Shape = (Seq<char>, Seq<char>);

    open spec fn shape(&self) -> (Seq<char>, Seq<char>) {
        (self.namespace@, self.name@)
    }

    open spec fn before(a: (Seq<char>, Seq<char>), b: (Seq<char>, Seq<char>)) -> bool {
        text_before(a.0, b.0) || (a.0 == b.0 && text_before(a.1, b.1))
    }

    proof fn irreflexive(a: (Seq<char>, Seq<char>)) {
        String::irreflexive(a.0);
        String::irreflexive(a.1);
    }

    proof fn transitive(
        a: (Seq<char>, Seq<char>),
        b: (Seq<char>, Seq<char>),
        c: (Seq<char>, Seq<char>),
    ) {
        if text_before(a.0, b.0) && text_before(b.0, c.0) {
            String::transitive(a.0, b.0, c.0);
        }
        if text_before(a.1, b.1) && text_before(b.1, c.1) {
            String::transitive(a.1, b.1, c.1);
        }
    }

    proof fn total(a: (Seq<char>, Seq<char>), b: (Seq<char>, Seq<char>)) {
        String::total(a.0, b.0);
        String::total(a.1, b.1);
    }

    fn comes_before(&self, other: &ScopedName) -> (r: bool) {
        if self.namespace.comes_before(&other.namespace) {
            return true;
        }
        if other.namespace.comes_before(&self.namespace) {
            proof {
                if self.namespace@ == other.namespace@ {
                    String::irreflexive(self.namespace@);
                }
            }
            return false;
        }
        proof {
            String::total(self.namespace@, other.namespace@);
        }
        self.name.comes_before(&other.name)
    }
}

/// The keys of a list of pairs stand in strictly rising order.
pub open spec fn sorted_keys<K: SortKey, V>(pairs: Seq<(K::Shape, V)>) -> bool {
    forall|i: int, j: int|
        0 <= i < j < pairs.len() ==> K::before((#[trigger] pairs[i]).0, (#[trigger] pairs[j]).0)
}

/// `pairs` lists the entries of `map`, each once, in the order of their keys.
pub open spec fn is_listing<K: SortKey, V>(pairs: Seq<(K::Shape, V)>, map: Map<K::Shape, V>) -> bool {
    sorted_keys::<K, V>(pairs) && as_map(pairs) == map
}

/// The pairs of a list, with the shapes of their keys.
pub open spec fn shapes<K: SortKey, V>(pairs: Seq<(K, V)>) -> Seq<(K::Shape, V)> {
    pairs.map_values(|pair: (K, V)| (pair.0.shape(), pair.1))
}

/// Keys in strictly rising order are all different.
pub proof fn lemma_sorted_unique<K: SortKey, V>(pairs: Seq<(K::Shape, V)>)
    requires
        sorted_keys::<K, V>(pairs),
    ensures
        unique_keys(pairs),
{
    assert forall|i: int, j: int| 0 <= i < j < pairs.len() implies (#[trigger] pairs[i]).0 != (
    #[trigger] pairs[j]).0 by {
        K::irreflexive(pairs[i].0);
    }
}

/// A map has one listing only.
pub proof fn law_listing_unique<K: SortKey, V>(
    a: Seq<(K::Shape, V)>,
    b: Seq<(K::Shape, V)>,
    map: Map<K::Shape, V>,
)
    requires
        is_listing::<K, V>(a, map),
        is_listing::<K, V>(b, map),
    ensures
        a == b,
    decreases a.len(),
{
    lemma_sorted_unique::<K, V>(a);
    lemma_sorted_unique::<K, V>(b);
    lemma_as_map(a);
    lemma_as_map(b);
    assert(a.len() == b.len());
    if a.len() > 0 {
        let n = a.len() - 1;
        assert(has_key(b, a[n].0));
        assert(has_key(a, b[n].0));
        let i = choose|i: int| key_at(b, i, a[n].0);
        let j = choose|j: int| key_at(a, j, b[n].0);
        assert(a[n].0 == b[n].0) by {
            if i < n && j < n {
                assert(K::before(b[i].0, b[n].0));
                assert(K::before(a[j].0, a[n].0));
                K::transitive(a[n].0, b[n].0, a[n].0);
                K::irreflexive(a[n].0);
            }
        }
        assert(a[n].1 == b[n].1);
        let rest = map.remove(a[n].0);
        assert(a.remove(n) =~= a.drop_last());
        assert(b.remove(n) =~= b.drop_last());
        lemma_remove(a, n);
        lemma_remove(b, n);
        assert(sorted_keys::<K, V>(a.drop_last()));
        assert(sorted_keys::<K, V>(b.drop_last()));
        law_listing_unique::<K, V>(a.drop_last(), b.drop_last(), rest);
        assert(a =~= a.drop_last().push(a[n]));
        assert(b =~= b.drop_last().push(b[n]));
    }
}

/// A table that keeps its entries in the order of their keys.
pub struct SortedTable<K: SortKey, V> {
    entries: Vec<(K, V)>,
}

impl<K: SortKey, V> View for SortedTable<K, V> {
    type V = Map<K::Shape, V>;

    closed spec fn view(&self) -> Map<K::Shape, V> {
        as_map(shapes::<K, V>(self.entries@))
    }
}

proof fn lemma_insert_sorted<K: SortKey, V>(
    pairs: Seq<(K::Shape, V)>,
    at: int,
    key: K::Shape,
    value: V,
)
    requires
        sorted_keys::<K, V>(pairs),
        0 <= at <= pairs.len(),
        forall|i: int| 0 <= i < at ==> K::before((#[trigger] pairs[i]).0, key),
        forall|i: int| at <= i < pairs.len() ==> K::before(key, (#[trigger] pairs[i]).0),
    ensures
        sorted_keys::<K, V>(pairs.insert(at, (key, value))),
        as_map(pairs.insert(at, (key, value))) == as_map(pairs).insert(key, value),
{
    let after = pairs.insert(at, (key, value));
    assert(sorted_keys::<K, V>(after)) by {
        assert forall|i: int, j: int| 0 <= i < j < after.len() implies K::before(
            (#[trigger] after[i]).0,
            (#[trigger] after[j]).0,
        ) by {
            let a = if i < at { i } else { i - 1 };
            let b = if j < at { j } else { j - 1 };
            if i != at {
                assert(after[i] == pairs[a]);
            }
            if j != at {
                assert(after[j] == pairs[b]);
            }
        }
    }
    lemma_sorted_unique::<K, V>(after);
    lemma_sorted_unique::<K, V>(pairs);
    lemma_remove(after, at);
    assert(after.remove(at) =~= pairs);
    lemma_as_map(after);
    assert(after[at] == (key, value));
    assert(as_map(after) =~= as_map(pairs).insert(key, value));
}

impl<K: SortKey, V> SortedTable<K, V> {
    /// The entries stand in the order of their keys.
    pub closed spec fn wf(&self) -> bool {
        sorted_keys::<K, V>(shapes::<K, V>(self.entries@))
    }

    /// An empty table.
    pub fn new() -> (r: SortedTable<K, V>)
        ensures
            r.wf(),
            r@ == Map::<K::Shape, V>::empty(),
    {
        let r = SortedTable { entries: Vec::new() };
        assert(shapes::<K, V>(r.entries@) =~= seq![]);
        r
    }

    /// Where the key belongs: the number of keys that come before it.
    fn place(&self, key: &K) -> (at: usize)
        requires
            self.wf(),
        ensures
            at <= self.entries@.len(),
            forall|i: int|
                0 <= i < at ==> K::before((#[trigger] shapes::<K, V>(self.entries@)[i]).0, key.shape()),
            forall|i: int|
                at <= i < self.entries@.len() ==> !K::before(
                    (#[trigger] shapes::<K, V>(self.entries@)[i]).0,
                    key.shape(),
                ),
    {
        let ghost pairs = shapes::<K, V>(self.entries@);
        let mut at: usize = 0;
        while at < self.entries.len() && self.entries[at].0.comes_before(key)
            invariant
                pairs == shapes::<K, V>(self.entries@),
                at <= self.entries.len(),
                forall|i: int| 0 <= i < at ==> K::before((#[trigger] pairs[i]).0, key.shape()),
            decreases self.entries.len() - at,
        {
            assert(pairs[at as int].0 == self.entries@[at as int].0.shape());
            at += 1;
        }
        assert forall|i: int| at <= i < self.entries@.len() implies !K::before(
            (#[trigger] pairs[i]).0,
            key.shape(),
        ) by {
            assert(pairs[at as int].0 == self.entries@[at as int].0.shape());
            if i > at && K::before(pairs[i].0, key.shape()) {
                K::transitive(pairs[at as int].0, pairs[i].0, key.shape());
            }
        }
        at
    }

    /// The position of the entry with the given key.
    fn position(&self, key: &K) -> (r: (bool, usize))
        requires
            self.wf(),
        ensures
            r.1 <= self.entries@.len(),
            r.0 == self@.contains_key(key.shape()),
            r.0 ==> r.1 < self.entries@.len() && shapes::<K, V>(self.entries@)[r.1 as int].0
                == key.shape() && self@[key.shape()] == self.entries@[r.1 as int].1,
            !r.0 ==> (forall|i: int|
                0 <= i < r.1 ==> K::before((#[trigger] shapes::<K, V>(self.entries@)[i]).0, key.shape()))
                && (forall|i: int|
                r.1 <= i < self.entries@.len() ==> K::before(
                    key.shape(),
                    (#[trigger] shapes::<K, V>(self.entries@)[i]).0,
                )),
    {
        let ghost pairs = shapes::<K, V>(self.entries@);
        proof {
            lemma_sorted_unique::<K, V>(pairs);
            lemma_as_map(pairs);
        }
        let at = self.place(key);
        let found = at < self.entries.len() && !key.comes_before(&self.entries[at].0);
        proof {
            if at < self.entries@.len() {
                assert(pairs[at as int].0 == self.entries@[at as int].0.shape());
                K::total(pairs[at as int].0, key.shape());
            }
            if found {
                assert(key_at(pairs, at as int, key.shape()));
                assert(self@[pairs[at as int].0] == pairs[at as int].1);
            } else {
                assert forall|i: int| at <= i < self.entries@.len() implies K::before(
                    key.shape(),
                    (#[trigger] pairs[i]).0,
                ) by {
                    if i > at {
                        K::transitive(key.shape(), pairs[at as int].0, pairs[i].0);
                    }
                }
                if has_key(pairs, key.shape()) {
                    let i = choose|i: int| key_at(pairs, i, key.shape());
                    K::irreflexive(key.shape());
                    assert(pairs[i].0 == key.shape());
                }
            }
        }
        (found, at)
    }

    /// Whether the table has an entry for the key.
    pub fn contains(&self, key: &K) -> (r: bool)
        requires
            self.wf(),
        ensures
            r == self@.contains_key(key.shape()),
    {
        self.position(key).0
    }

    /// The value of a key.
    pub fn get(&self, key: &K) -> (r: Option<&V>)
        requires
            self.wf(),
        ensures
            match r {
                Some(value) => self@.contains_key(key.shape()) && *value == self@[key.shape()],
                None => !self@.contains_key(key.shape()),
            },
    {
        let (found, at) = self.position(key);
        if found {
            Some(&self.entries[at].1)
        } else {
            None
        }
    }

    /// Gives a key a value, in place of the one it had.
    pub fn put(&mut self, key: K, value: V)
        requires
            old(self).wf(),
        ensures
            final(self).wf(),
            final(self)@ == old(self)@.insert(key.shape(), value),
    {
        let ghost pairs = shapes::<K, V>(self.entries@);
        let (found, at) = self.position(&key);
        if found {
            proof {
                lemma_sorted_unique::<K, V>(pairs);
                lemma_update(pairs, at as int, value);
            }
            self.entries.set(at, (key, value));
            let ghost after = shapes::<K, V>(self.entries@);
            assert(after =~= pairs.update(at as int, (pairs[at as int].0, value)));
            assert(sorted_keys::<K, V>(after)) by {
                assert forall|i: int, j: int| 0 <= i < j < after.len() implies K::before(
                    (#[trigger] after[i]).0,
                    (#[trigger] after[j]).0,
                ) by {
                    assert(after[i].0 == pairs[i].0 && after[j].0 == pairs[j].0);
                }
            }
        } else {
            proof {
                lemma_insert_sorted::<K, V>(pairs, at as int, key.shape(), value);
            }
            self.entries.insert(at, (key, value));
            assert(shapes::<K, V>(self.entries@) =~= pairs.insert(at as int, (key.shape(), value)));
        }
    }

    /// Takes the entry of a key out.
    pub fn take(&mut self, key: &K) -> (r: Option<V>)
        requires
            old(self).wf(),
        ensures
            final(self).wf(),
            final(self)@ == old(self)@.remove(key.shape()),
            match r {
                Some(value) => old(self)@.contains_key(key.shape()) && value
                    == old(self)@[key.shape()],
                None => !old(self)@.contains_key(key.shape()),
            },
    {
        let ghost pairs = shapes::<K, V>(self.entries@);
        let (found, at) = self.position(key);
        if found {
            proof {
                lemma_sorted_unique::<K, V>(pairs);
                lemma_remove(pairs, at as int);
            }
            let (_, value) = self.entries.remove(at);
            let ghost after = shapes::<K, V>(self.entries@);
            assert(after =~= pairs.remove(at as int));
            assert(sorted_keys::<K, V>(after)) by {
                assert forall|i: int, j: int| 0 <= i < j < after.len() implies K::before(
                    (#[trigger] after[i]).0,
                    (#[trigger] after[j]).0,
                ) by {
                    let a = if i < at { i } else { i + 1 };
                    let b = if j < at { j } else { j + 1 };
                    assert(after[i].0 == pairs[a].0 && after[j].0 == pairs[b].0);
                }
            }
            Some(value)
        } else {
            assert(self@.remove(key.shape()) =~= self@);
            None
        }
    }

    /// The entries, in the order of their keys.
    pub fn into_entries(self) -> (r: Vec<(K, V)>)
        requires
            self.wf(),
        ensures
            is_listing::<K, V>(shapes::<K, V>(r@), self@),
    {
        self.entries
    }

    /// The entries, in the order of their keys, borrowed.
    pub fn entries(&self) -> (r: &Vec<(K, V)>)
        requires
            self.wf(),
        ensures
            is_listing::<K, V>(shapes::<K, V>(r@), self@),
    {
        &self.entries
    }
}

/// The texts stand in strictly rising order.
pub open spec fn sorted_texts(list: Seq<Seq<char>>) -> bool {
    forall|i: int, j: int|
        0 <= i < j < list.len() ==> text_before(#[trigger] list[i], #[trigger] list[j])
}

/// A sorted set of texts.
pub type TextSet = SortedTable<String, ()>;

/// The texts of a set, in order.
pub fn sorted_list(set: TextSet) -> (r: Vec<String>)
    requires
        set.wf(),
    ensures
        sorted_texts(texts(r@)),
        texts(r@).to_set() == set@.dom(),
{
    let ghost map = set@;
    let mut entries = set.into_entries();
    let ghost all = entries@;
    let ghost pairs = shapes::<String, ()>(all);
    let mut r: Vec<String> = Vec::new();
    while entries.len() > 0
        invariant
            r@.len() + entries@.len() == all.len(),
            entries@ == all.skip(r@.len() as int),
            forall|j: int| 0 <= j < r@.len() ==> (#[trigger] r@[j])@ == all[j].0@,
        decreases entries.len(),
    {
        let (text, _) = entries.remove(0);
        r.push(text);
    }
    proof {
        let list = texts(r@);
        lemma_sorted_unique::<String, ()>(pairs);
        lemma_as_map(pairs);
        assert(sorted_texts(list)) by {
            assert forall|i: int, j: int| 0 <= i < j < list.len() implies text_before(
                #[trigger] list[i],
                #[trigger] list[j],
            ) by {
                assert(String::before(pairs[i].0, pairs[j].0));
            }
        }
        assert forall|text: Seq<char>| list.to_set().contains(text) <==> map.dom().contains(
            text,
        ) by {
            if list.to_set().contains(text) {
                let i = choose|i: int| 0 <= i < list.len() && list[i] == text;
                assert(map.contains_key(pairs[i].0));
            }
            if map.contains_key(text) {
                assert(has_key(pairs, text));
                let i = choose|i: int| key_at(pairs, i, text);
                assert(list[i] == text);
            }
        }
        assert(list.to_set() =~= map.dom());
    }
    r
}

} // verus!
