//! A table of values by name, in the order in which the names came up.
use vstd::prelude::*;

verus! {

/// Values by name. No name occurs twice; a new one goes to the end.
pub struct Table<S> {
    names: Vec<String>,
    values: Vec<S>,
}

/// `names` with `name` at the end, unless it is there already.
pub open spec fn with_name(names: Seq<Seq<char>>, name: Seq<char>) -> Seq<Seq<char>> {
    if names.contains(name) {
        names
    } else {
        names.push(name)
    }
}

impl<S> Table<S> {
    /// The names, in the order in which they came up.
    pub closed spec fn names(&self) -> Seq<Seq<char>> {
        self.names@.map_values(|s: String| s@)
    }

    /// The values, in the order of the names.
    pub closed spec fn values(&self) -> Seq<S> {
        self.values@
    }

    /// One value for each name, and no name twice.
    pub open spec fn wf(&self) -> bool {
        &&& self.names().len() == self.values().len()
        &&& self.names().no_duplicates()
    }

    /// An empty table.
    pub fn new() -> (r: Table<S>)
        ensures
            r.wf(),
            r.names() == Seq::<Seq<char>>::empty(),
            r.values() == Seq::<S>::empty(),
    {
        let r: Table<S> = Table { names: Vec::new(), values: Vec::new() };
        assert(r.names() =~= Seq::empty());
        r
    }

    /// The number of names.
    pub fn len(&self) -> (r: usize)
        requires
            self.wf(),
        ensures
            r == self.names().len(),
    {
        self.names.len()
    }

    /// The name at position `i`.
    pub fn name(&self, i: usize) -> (r: &String)
        requires
            self.wf(),
            i < self.names().len(),
        ensures
            r@ == self.names()[i as int],
    {
        &self.names[i]
    }

    /// The value at position `i`.
    pub fn value(&self, i: usize) -> (r: &S)
        requires
            self.wf(),
            i < self.names().len(),
        ensures
            *r == self.values()[i as int],
    {
        &self.values[i]
    }

    /// The value at position `i`, to be changed.
    pub fn value_mut(&mut self, i: usize) -> (r: &mut S)
        requires
            old(self).wf(),
            i < old(self).names().len(),
        ensures
            *r == old(self).values()[i as int],
            final(self).names() == old(self).names(),
            final(self).values() == old(self).values().update(i as int, *final(r)),
            final(self).wf(),
    {
        &mut self.values[i]
    }

    /// The position of `name`, if it is in the table.
    pub fn position(&self, name: &String) -> (r: Option<usize>)
        requires
            self.wf(),
        ensures
            match r {
                Some(i) => i < self.names().len() && self.names()[i as int] == name@,
                None => !self.names().contains(name@),
            },
    {
        let mut i: usize = 0;
        while i < self.names.len()
            invariant
                i <= self.names@.len(),
                forall|j: int| 0 <= j < i ==> #[trigger] self.names()[j] != name@,
            decreases self.names@.len() - i,
        {
            if self.names[i] == *name {
                return Some(i);
            }
            i += 1;
        }
        None
    }

    /// The position of `name`, which is put at the end with the value `fresh` where it is new.
    pub fn entry(&mut self, name: &String, fresh: S) -> (r: usize)
        requires
            old(self).wf(),
        ensures
            final(self).wf(),
            final(self).names() == with_name(old(self).names(), name@),
            final(self).values() == (if old(self).names().contains(name@) {
                old(self).values()
            } else {
                old(self).values().push(fresh)
            }),
            r < final(self).names().len(),
            final(self).names()[r as int] == name@,
            r < old(self).names().len() ==> final(self).names() == old(self).names()
                && final(self).values() == old(self).values(),
            r >= old(self).names().len() ==> final(self).names() == old(self).names().push(name@)
                && final(self).values() == old(self).values().push(fresh),
    {
        match self.position(name) {
            Some(i) => i,
            None => {
                let ghost before = self.names();
                let i: usize = self.names.len();
                self.names.push(name.clone());
                self.values.push(fresh);
                assert(self.names() =~= before.push(name@));
                i
            },
        }
    }
}

} // verus!
