//! Dotted keys.

use vstd::prelude::*;
use crate::grammar::is_key;
use crate::rendering::{join, key_text, lemma_join_step, upper_text, var_name};
use crate::model::ident::Ident;
use crate::text::push_upper;

mod parse;

pub use parse::Error as ParseError;

verus! {

/// A non-empty sequence of identifiers, written with `.` between them.
#[derive(Hash, Debug)]
pub struct Key<'id> {
    segments: Vec<Ident<'id>>,
}

impl<'id> View for Key<'id> {
    type V = Seq<Seq<char>>;

    /// The segments of the key, each as its text.
    closed spec fn view(&self) -> Seq<Seq<char>> {
        self.segments@.map_values(|id: Ident<'id>| id@)
    }
}

impl<'a> Key<'a> {
    /// What stands between two segments.
    pub const SEPARATOR: char = '.';

    /// What holds of every key: it has a segment, and each segment is an
    /// identifier.
    #[verifier::type_invariant]
    pub open spec fn wf(self) -> bool {
        is_key(self@)
    }

    /// The last segment of the key.
    pub fn last_segment(&self) -> (id: &Ident<'a>)
        ensures
            self@.len() > 0,
            id@ == self@.last(),
    {
        proof {
            use_type_invariant(self);
        }
        &self.segments[self.segments.len() - 1]
    }

    /// The first segment of the key.
    pub fn first_segment(&self) -> (id: &Ident<'a>)
        ensures
            self@.len() > 0,
            id@ == self@.first(),
    {
        proof {
            use_type_invariant(self);
        }
        &self.segments[0]
    }

    /// The segments of the key, from the first to the last.
    pub fn segments(&self) -> (it: Segments<'_>)
        ensures
            it@ == self@,
    {
        Segments::from_path(self)
    }

    /// The name of the variable that the key stands for: each segment in
    /// capitals, with `_` between them.
    pub fn var_name(&self) -> (name: String)
        ensures
            name@ == var_name(self@),
    {
        let ghost parts = self@.map_values(|s: Seq<char>| upper_text(s));
        let mut name = String::new();
        let mut i: usize = 0;
        while i < self.segments.len()
            invariant
                0 <= i <= self.segments.len(),
                parts == self@.map_values(|s: Seq<char>| upper_text(s)),
                name@ == join(parts.take(i as int), '_'),
            decreases self.segments.len() - i,
        {
            if i > 0 {
                name.push('_');
            }
            let text = self.segments[i].as_str();
            push_upper(&mut name, text);
            proof {
                lemma_join_step(parts, '_', i as int);
            }
            i = i + 1;
        }
        proof {
            assert(parts.take(i as int) =~= parts);
        }
        name
    }

    /// The key whose segments are those of `self` followed by those of
    /// `next`.
    pub fn chain(&'a self, next: &'a Self) -> (chained: Self)
        ensures
            chained@ == self@ + next@,
    {
        proof {
            use_type_invariant(self);
            use_type_invariant(next);
        }
        let mut segments: Vec<Ident<'a>> = Vec::new();
        let mut i: usize = 0;
        while i < self.segments.len()
            invariant
                0 <= i <= self.segments.len(),
                is_key(self@),
                segments@.map_values(|id: Ident<'a>| id@) == self@.take(i as int),
            decreases self.segments.len() - i,
        {
            segments.push(self.segments[i]);
            proof {
                assert(self@.take(i + 1) =~= self@.take(i as int).push(self@[i as int]));
            }
            i = i + 1;
        }
        let mut j: usize = 0;
        while j < next.segments.len()
            invariant
                0 <= j <= next.segments.len(),
                is_key(self@),
                is_key(next@),
                segments@.map_values(|id: Ident<'a>| id@) == self@ + next@.take(j as int),
            decreases next.segments.len() - j,
        {
            segments.push(next.segments[j]);
            proof {
                assert(self@ + next@.take(j + 1) =~= (self@ + next@.take(j as int)).push(
                    next@[j as int],
                ));
            }
            j = j + 1;
        }
        Self { segments }
    }

    /// The key as it is written: its segments with `.` between them.
    pub fn to_string(&self) -> (text: String)
        ensures
            text@ == key_text(self@),
    {
        let mut text = String::new();
        let mut i: usize = 0;
        while i < self.segments.len()
            invariant
                0 <= i <= self.segments.len(),
                text@ == join(self@.take(i as int), '.'),
            decreases self.segments.len() - i,
        {
            if i > 0 {
                text.push(Self::SEPARATOR);
            }
            text.append(self.segments[i].as_str());
            proof {
                lemma_join_step(self@, '.', i as int);
            }
            i = i + 1;
        }
        proof {
            assert(self@.take(i as int) =~= self@);
        }
        text
    }
}

impl<'id> Clone for Key<'id> {
    fn clone(&self) -> (copy: Self)
        ensures
            copy@ == self@,
    {
        proof {
            use_type_invariant(self);
        }
        let mut segments: Vec<Ident<'id>> = Vec::new();
        let mut i: usize = 0;
        while i < self.segments.len()
            invariant
                0 <= i <= self.segments.len(),
                is_key(self@),
                segments@.map_values(|id: Ident<'id>| id@) == self@.take(i as int),
            decreases self.segments.len() - i,
        {
            segments.push(self.segments[i]);
            proof {
                assert(self@.take(i + 1) =~= self@.take(i as int).push(self@[i as int]));
            }
            i = i + 1;
        }
        Self { segments }
    }
}

impl<'id> Key<'id> {
    /// Whether the two keys have the same segments in the same order.
    pub fn same(&self, other: &Self) -> (same: bool)
        ensures
            same == (self@ == other@),
    {
        if self.segments.len() != other.segments.len() {
            assert(self@.len() != other@.len());
            return false;
        }
        let mut i: usize = 0;
        while i < self.segments.len()
            invariant
                0 <= i <= self.segments.len(),
                self.segments.len() == other.segments.len(),
                forall|j: int| 0 <= j < i ==> self@[j] == other@[j],
            decreases self.segments.len() - i,
        {
            if !self.segments[i].same(&other.segments[i]) {
                assert(self@[i as int] != other@[i as int]);
                return false;
            }
            i = i + 1;
        }
        assert(self@ =~= other@);
        true
    }
}

impl<'id> PartialEq for Key<'id> {
    fn eq(&self, other: &Self) -> (same: bool) {
        self.same(other)
    }
}

impl<'id> Eq for Key<'id> {

}

impl<'id> vstd::std_specs::cmp::PartialEqSpecImpl for Key<'id> {
    open spec fn obeys_eq_spec() -> bool {
        true
    }

    open spec fn eq_spec(&self, other: &Self) -> bool {
        self@ == other@
    }
}

/// The segments of a key that have not been handed out yet.
pub struct Segments<'path> {
    items: &'path Vec<Ident<'path>>,
    position: usize,
}

impl<'path> View for Segments<'path> {
    type V = Seq<Seq<char>>;

    /// The segments that are left, each as its text.
    closed spec fn view(&self) -> Seq<Seq<char>> {
        self.items@.map_values(|id: Ident<'path>| id@).skip(self.position as int)
    }
}

impl<'path> Segments<'path> {
    #[verifier::type_invariant]
    closed spec fn wf(self) -> bool {
        self.position <= self.items@.len()
    }

    fn from_path(path: &'path Key<'path>) -> (it: Self)
        ensures
            it@ == path@,
    {
        let it = Self { items: &path.segments, position: 0 };
        it
    }

    /// Hands out the next segment, if one is left.
    pub fn next(&mut self) -> (id: Option<Ident<'path>>)
        ensures
            match id {
                Some(segment) => old(self)@.len() > 0 && segment@ == old(self)@[0] && final(self)@
                    == old(self)@.drop_first(),
                None => old(self)@.len() == 0 && final(self)@ == old(self)@,
            },
    {
        proof {
            use_type_invariant(&*self);
        }
        if self.position < self.items.len() {
            let segment = self.items[self.position];
            self.position = self.position + 1;
            Some(segment)
        } else {
            None
        }
    }
}

} // verus!
