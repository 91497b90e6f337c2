//! A container that holds at most one item for each key.

use vstd::prelude::*;
use crate::model::key::Key;
use crate::parser::Sealed;

verus! {

/// An item that is told from others by a key.
pub trait KeyEq: Sealed {
    /// The segments of the key of the item.
    spec fn key_view(&self) -> Seq<Seq<char>>;

    /// The key of the item.
    fn key(&self) -> (key: &Key<'_>)
        ensures
            key@ == self.key_view(),
    ;
}

/// Whether the two items have the same key, whatever else they hold.
pub fn key_eq<A: KeyEq, B: KeyEq>(a: &A, b: &B) -> (same: bool)
    ensures
        same == (a.key_view() == b.key_view()),
{
    a.key().same(b.key())
}

/// Whether some item of `items` has the key `k`.
pub open spec fn has_key<T: KeyEq>(items: Seq<T>, k: Seq<Seq<char>>) -> bool {
    exists|i: int| 0 <= i < items.len() && (#[trigger] items[i]).key_view() == k
}

/// Whether no two items of `items` have the same key.
pub open spec fn distinct_keys<T: KeyEq>(items: Seq<T>) -> bool {
    forall|i: int, j: int|
        0 <= i < j < items.len() ==> (#[trigger] items[i]).key_view() != (
        #[trigger] items[j]).key_view()
}

/// `items` after an attempt to add `item`: with `item` at its end, unless
/// an item of `items` has its key already.
pub open spec fn inserted<T: KeyEq>(items: Seq<T>, item: T) -> Seq<T> {
    if has_key(items, item.key_view()) {
        items
    } else {
        items.push(item)
    }
}

/// How many items of `items` have the key `k`.
pub open spec fn key_count<T: KeyEq>(items: Seq<T>, k: Seq<Seq<char>>) -> nat
    decreases items.len(),
{
    if items.len() == 0 {
        0
    } else {
        key_count(items.drop_last(), k) + (if items.last().key_view() == k {
            1nat
        } else {
            0nat
        })
    }
}

/// Adding an item keeps the keys distinct.
pub proof fn lemma_inserted_distinct<T: KeyEq>(items: Seq<T>, item: T)
    requires
        distinct_keys(items),
    ensures
        distinct_keys(inserted(items, item)),
        has_key(inserted(items, item), item.key_view()),
{
    let after = inserted(items, item);
    if !has_key(items, item.key_view()) {
        assert(after[items.len() as int].key_view() == item.key_view());
    }
}

/// Where the keys are distinct, a key that an item has is the key of one
/// item, and any other key is the key of none.
pub proof fn lemma_key_count<T: KeyEq>(items: Seq<T>, k: Seq<Seq<char>>)
    requires
        distinct_keys(items),
    ensures
        key_count(items, k) == (if has_key(items, k) {
            1nat
        } else {
            0nat
        }),
    decreases items.len(),
{
    if items.len() > 0 {
        let front = items.drop_last();
        lemma_key_count(front, k);
        if has_key(front, k) {
            // the item of `front` with the key `k` is an item of `items`, and not the last
            let i = choose|i: int| 0 <= i < front.len() && (#[trigger] front[i]).key_view() == k;
            assert(items[i].key_view() == k);
        } else if items.last().key_view() != k && has_key(items, k) {
            // an item of `items` with the key `k` that is not the last is an item of `front`
            let i = choose|i: int| 0 <= i < items.len() && (#[trigger] items[i]).key_view() == k;
            assert(front[i].key_view() == k);
        }
    }
}

/// Adding two items with the same key, one after the other, leaves exactly
/// one item with that key: the second is refused as a duplicate and changes
/// nothing, whatever else the two items hold.
pub proof fn lemma_insert_twice<T: KeyEq>(items: Seq<T>, first: T, second: T)
    requires
        distinct_keys(items),
        first.key_view() == second.key_view(),
    ensures
        has_key(inserted(items, first), second.key_view()),
        inserted(inserted(items, first), second) == inserted(items, first),
        key_count(inserted(inserted(items, first), second), first.key_view()) == 1,
{
    lemma_inserted_distinct(items, first);
    lemma_key_count(inserted(items, first), first.key_view());
}

/// A set of items with distinct keys. Its view is the sequence of its items
/// in the order in which they were added.
#[derive(Debug)]
pub struct KeyedSet<T: KeyEq> {
    inner: Vec<T>,
}

impl<T: KeyEq> View for KeyedSet<T> {
    type V = Seq<T>;

    closed spec fn view(&self) -> Seq<T> {
        self.inner@
    }
}

impl<T: KeyEq> KeyedSet<T> {
    /// What holds of every set: no two of its items have the same key.
    #[verifier::type_invariant]
    pub open spec fn wf(self) -> bool {
        distinct_keys(self@)
    }

    /// The empty set.
    pub fn new() -> (set: Self)
        ensures
            set@ == Seq::<T>::empty(),
    {
        Self { inner: Vec::new() }
    }

    /// The number of items in the set.
    pub fn len(&self) -> (n: usize)
        ensures
            n == self@.len(),
    {
        self.inner.len()
    }

    /// Where the item with the key `key` stands, if there is one.
    fn position(&self, key: &Key<'_>) -> (at: Option<usize>)
        ensures
            match at {
                Some(i) => i < self@.len() && self@[i as int].key_view() == key@,
                None => !has_key(self@, key@),
            },
    {
        let mut i: usize = 0;
        while i < self.inner.len()
            invariant
                0 <= i <= self.inner.len(),
                forall|j: int| 0 <= j < i ==> (#[trigger] self@[j]).key_view() != key@,
            decreases self.inner.len() - i,
        {
            if self.inner[i].key().same(key) {
                return Some(i);
            }
            i = i + 1;
        }
        None
    }

    /// The item with the key `key`, if there is one.
    pub fn get<'a>(&'a self, key: Key<'a>) -> (found: Option<&'a T>)
        ensures
            match found {
                Some(item) => self@.contains(*item) && item.key_view() == key@,
                None => !has_key(self@, key@),
            },
    {
        match self.position(&key) {
            Some(i) => Some(&self.inner[i]),
            None => None,
        }
    }

    /// Whether an item has the key `key`.
    pub fn contains(&self, key: Key<'_>) -> (found: bool)
        ensures
            found == has_key(self@, key@),
    {
        self.position(&key).is_some()
    }

    /// Adds `item` unless an item with its key is there already, and says
    /// whether it was added. An item that is not added is dropped; the one
    /// that was there stays as it is.
    pub fn insert(&mut self, item: T) -> (added: bool)
        ensures
            added == !has_key(old(self)@, item.key_view()),
            final(self)@ == inserted(old(self)@, item),
    {
        proof {
            use_type_invariant(&*self);
        }
        if self.position(item.key()).is_some() {
            false
        } else {
            let mut items: Vec<T> = Vec::new();
            std::mem::swap(&mut items, &mut self.inner);
            items.push(item);
            self.inner = items;
            true
        }
    }

    /// The items of the set, in the order in which they were added.
    pub fn iter(&self) -> (it: Iter<'_, T>)
        ensures
            it@ == self@,
    {
        let it = Iter { items: &self.inner, position: 0 };
        it
    }

    /// The items of the set, in the order in which they were added; the set
    /// is used up.
    pub fn into_iter(self) -> (it: IntoIter<T>)
        ensures
            it@ == self@,
    {
        let mut items = self.inner;
        let ghost all = items@;
        let mut stack: Vec<T> = Vec::new();
        while items.len() > 0
            invariant
                items@.len() + stack@.len() == all.len(),
                items@ == all.take(items@.len() as int),
                forall|i: int| 0 <= i < stack@.len() ==> stack@[i] == all[all.len() - 1 - i],
            decreases items@.len(),
        {
            match items.pop() {
                Some(item) => {
                    stack.push(item);
                },
                None => {},
            }
        }
        IntoIter { stack }
    }
}

impl<T: KeyEq> Default for KeyedSet<T> {
    fn default() -> (set: Self)
        ensures
            set@ == Seq::<T>::empty(),
    {
        Self::new()
    }
}

/// The items of a set that have not been handed out yet, by reference.
pub struct Iter<'set, T> {
    items: &'set Vec<T>,
    position: usize,
}

impl<'set, T> View for Iter<'set, T> {
    type V = Seq<T>;

    /// The items that are left.
    closed spec fn view(&self) -> Seq<T> {
        self.items@.skip(self.position as int)
    }
}

impl<'set, T> Iter<'set, T> {
    #[verifier::type_invariant]
    closed spec fn wf(self) -> bool {
        self.position <= self.items@.len()
    }

    /// Hands out the next item, if one is left.
    pub fn next(&mut self) -> (item: Option<&'set T>)
        ensures
            match item {
                Some(it) => old(self)@.len() > 0 && *it == old(self)@[0] && final(self)@ == old(
                    self,
                )@.drop_first(),
                None => old(self)@.len() == 0 && final(self)@ == old(self)@,
            },
    {
        proof {
            use_type_invariant(&*self);
        }
        if self.position < self.items.len() {
            let item = &self.items[self.position];
            self.position = self.position + 1;
            Some(item)
        } else {
            None
        }
    }
}

/// The items of a set that have not been handed out yet, by value.
pub struct IntoIter<T> {
    /// The items that are left, the next one last.
    stack: Vec<T>,
}

impl<T> View for IntoIter<T> {
    type V = Seq<T>;

    /// The items that are left.
    closed spec fn view(&self) -> Seq<T> {
        self.stack@.reverse()
    }
}

impl<T> IntoIter<T> {
    /// Hands out the next item, if one is left.
    pub fn next(&mut self) -> (item: Option<T>)
        ensures
            match item {
                Some(it) => old(self)@.len() > 0 && it == old(self)@[0] && final(self)@ == old(
                    self,
                )@.drop_first(),
                None => old(self)@.len() == 0 && final(self)@ == old(self)@,
            },
    {
        let item = self.stack.pop();
        item
    }
}

} // verus!
