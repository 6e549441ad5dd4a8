use vstd::prelude::*;

verus! {

/// The identifier reserved for the listening socket.
pub const SERVER_TOKEN: usize = 0;

/// The live entries, keyed by identifier, and the last identifier handed
/// out. Identifiers are allocated in increasing order above
/// `SERVER_TOKEN`.
pub struct Registry<T> {
    entries: Vec<(usize, T)>,
    counter: usize,
}

impl<T> Registry<T> {
    /// The live entries, in no particular order.
    pub closed spec fn entries(&self) -> Seq<(usize, T)> {
        self.entries@
    }

    /// The last identifier handed out.
    pub closed spec fn counter(&self) -> nat {
        self.counter as nat
    }

    pub open spec fn contains(&self, id: usize) -> bool {
        exists|i: int| 0 <= i < self.entries().len() && (#[trigger] self.entries()[i]).0 == id
    }

    /// Each live identifier is held once, and was handed out.
    pub open spec fn wf(&self) -> bool {
        &&& 1 <= self.counter() <= usize::MAX
        &&& forall|i: int|
            0 <= i < self.entries().len() ==> SERVER_TOKEN < #[trigger] self.entries()[i].0
                <= self.counter()
        &&& forall|i: int, j: int|
            0 <= i < self.entries().len() && 0 <= j < self.entries().len() && i != j
                ==> #[trigger] self.entries()[i].0 != #[trigger] self.entries()[j].0
    }

    pub fn new() -> (r: Self)
        ensures
            r.wf(),
            r.entries() == Seq::<(usize, T)>::empty(),
            r.counter() == 1,
    {
        Registry { entries: Vec::new(), counter: 1 }
    }

    /// A fresh identifier, or `None` once every `usize` was handed out.
    /// A fresh identifier is held by no live entry.
    pub fn allocate(&mut self) -> (r: Option<usize>)
        requires
            old(self).wf(),
        ensures
            final(self).wf(),
            final(self).entries() == old(self).entries(),
            old(self).counter() < usize::MAX ==> r == Some((old(self).counter() + 1) as usize)
                && final(self).counter() == old(self).counter() + 1,
            old(self).counter() == usize::MAX ==> r is None && final(self).counter()
                == old(self).counter(),
            r matches Some(id) ==> id != SERVER_TOKEN && !old(self).contains(id) && id
                == final(self).counter(),
    {
        if self.counter == usize::MAX {
            return None;
        }
        self.counter = self.counter + 1;
        assert forall|i: int| 0 <= i < self.entries().len() implies SERVER_TOKEN
            < #[trigger] self.entries()[i].0 <= self.counter() by {
            assert(old(self).entries()[i] == self.entries()[i]);
        }
        assert forall|i: int, j: int|
            0 <= i < self.entries().len() && 0 <= j < self.entries().len() && i != j
                implies #[trigger] self.entries()[i].0 != #[trigger] self.entries()[j].0 by {
            assert(old(self).entries()[i] == self.entries()[i]);
            assert(old(self).entries()[j] == self.entries()[j]);
        }
        Some(self.counter)
    }

    /// Adds an entry under an identifier that was handed out and is not
    /// live.
    pub fn insert(&mut self, id: usize, value: T)
        requires
            old(self).wf(),
            SERVER_TOKEN < id <= old(self).counter(),
            !old(self).contains(id),
        ensures
            final(self).wf(),
            final(self).entries() == old(self).entries().push((id, value)),
            final(self).counter() == old(self).counter(),
    {
        self.entries.push((id, value));
        assert forall|i: int| 0 <= i < self.entries().len() implies SERVER_TOKEN
            < #[trigger] self.entries()[i].0 <= self.counter() by {
            if i < old(self).entries().len() {
                assert(old(self).entries()[i] == self.entries()[i]);
            }
        }
        assert forall|i: int, j: int|
            0 <= i < self.entries().len() && 0 <= j < self.entries().len() && i != j
                implies #[trigger] self.entries()[i].0 != #[trigger] self.entries()[j].0 by {
            if i < old(self).entries().len() && j < old(self).entries().len() {
                assert(old(self).entries()[i] == self.entries()[i]);
                assert(old(self).entries()[j] == self.entries()[j]);
            } else if i < old(self).entries().len() {
                assert(old(self).entries()[i] == self.entries()[i]);
            } else if j < old(self).entries().len() {
                assert(old(self).entries()[j] == self.entries()[j]);
            }
        }
    }

    fn position(&self, id: usize) -> (r: Option<usize>)
        ensures
            match r {
                Some(i) => i < self.entries().len() && self.entries()[i as int].0 == id,
                None => !self.contains(id),
            },
    {
        let mut i: usize = 0;
        while i < self.entries.len()
            invariant
                i <= self.entries@.len(),
                forall|j: int| 0 <= j < i ==> self.entries@[j].0 != id,
            decreases self.entries@.len() - i,
        {
            if self.entries[i].0 == id {
                return Some(i);
            }
            i = i + 1;
        }
        None
    }

    pub fn len(&self) -> (r: usize)
        ensures
            r == self.entries().len(),
    {
        self.entries.len()
    }

    pub fn contains_id(&self, id: usize) -> (r: bool)
        ensures
            r == self.contains(id),
    {
        self.position(id).is_some()
    }

    /// The entry under `id`, if live.
    pub fn get(&self, id: usize) -> (r: Option<&T>)
        ensures
            r is Some <==> self.contains(id),
            r matches Some(v) ==> exists|i: int|
                0 <= i < self.entries().len() && self.entries()[i] == (id, *v),
    {
        match self.position(id) {
            Some(i) => Some(&self.entries[i].1),
            None => None,
        }
    }

    /// Takes the entry under `id` out; every other entry stays as it was.
    pub fn remove(&mut self, id: usize) -> (r: Option<T>)
        requires
            old(self).wf(),
        ensures
            final(self).wf(),
            final(self).counter() == old(self).counter(),
            !final(self).contains(id),
            r is Some <==> old(self).contains(id),
            r is None ==> final(self).entries() == old(self).entries(),
            r matches Some(v) ==> exists|i: int|
                0 <= i < old(self).entries().len() && old(self).entries()[i] == (id, v)
                    && final(self).entries() == old(self).entries().remove(i),
    {
        match self.position(id) {
            Some(i) => {
                let e = self.entries.remove(i);
                assert(forall|j: int| 0 <= j < self.entries@.len() ==> #[trigger] self.entries@[j]
                    == old(self).entries@[if j < i { j } else { j + 1 }]);
                Some(e.1)
            },
            None => None,
        }
    }
}

/// An identifier that the registry hands out is held by no live entry and
/// is not the listening socket's, whatever entries were added or taken out
/// before.
pub proof fn law_fresh_identifiers<T>(reg: Registry<T>, id: usize)
    requires
        reg.wf(),
        id > reg.counter(),
    ensures
        !reg.contains(id),
        id != SERVER_TOKEN,
{
}

} // verus!
