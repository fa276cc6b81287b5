//! Going through a list one item after the other.

use vstd::prelude::*;

verus! {

/// A list and how many of its items are done.
pub struct Cursor<T> {
    items: Vec<T>,
    at: usize,
}

impl<T> Cursor<T> {
    #[verifier::type_invariant]
    spec fn within(self) -> bool {
        self.at <= self.items@.len()
    }

    /// All items of the list.
    pub closed spec fn items(self) -> Seq<T> {
        self.items@
    }

    /// How many of the items are done.
    pub closed spec fn done(self) -> int {
        self.at as int
    }

    /// Starts with the first item.
    pub fn new(items: Vec<T>) -> (r: Self)
        ensures
            r.items() == items@,
            r.done() == 0,
    {
        Cursor { items, at: 0 }
    }

    /// All items of the list.
    pub fn all(&self) -> (r: &Vec<T>)
        ensures
            r@ == self.items(),
            0 <= self.done() <= self.items().len(),
    {
        proof {
            use_type_invariant(self);
        }
        &self.items
    }

    /// The next item, if one is left.
    pub fn current(&self) -> (r: Option<&T>)
        ensures
            0 <= self.done() <= self.items().len(),
            match r {
                Some(item) => self.done() < self.items().len() && *item
                    == self.items()[self.done()],
                None => self.done() == self.items().len(),
            },
    {
        proof {
            use_type_invariant(self);
        }
        if self.at < self.items.len() {
            Some(&self.items[self.at])
        } else {
            None
        }
    }

    /// Goes on to the next item, if one is left.
    pub fn advance(&mut self)
        ensures
            final(self).items() == old(self).items(),
            0 <= old(self).done() <= old(self).items().len(),
            final(self).done() == if old(self).done() < old(self).items().len() {
                old(self).done() + 1
            } else {
                old(self).done()
            },
    {
        proof {
            use_type_invariant(&*self);
        }
        let count: usize = self.items.len();
        if self.at < count {
            self.at = self.at + 1;
        }
    }
}

} // verus!
