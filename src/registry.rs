//! The connection registry: the outbound handle of each joined actor.
use vstd::prelude::*;

verus! {

/// Outbound handles keyed by actor id, in the order they were registered.
pub struct Registry<H> {
    entries: Vec<(u64, H)>,
}

impl<H> View for Registry<H> {
    type V = Seq<(u64, H)>;

    closed spec fn view(&self) -> Seq<(u64, H)> {
        self.entries@
    }
}

/// The ids of a sequence of entries, in order.
pub open spec fn entry_ids<H>(s: Seq<(u64, H)>) -> Seq<u64> {
    s.map_values(|e: (u64, H)| e.0)
}

impl<H> Registry<H> {
    /// The registered ids, in order.
    pub open spec fn ids(&self) -> Seq<u64> {
        entry_ids(self@)
    }

    /// No id is registered twice.
    pub open spec fn wf(&self) -> bool {
        self.ids().no_duplicates()
    }

    /// An empty registry.
    pub fn new() -> (r: Registry<H>)
        ensures
            r.wf(),
            r@ == Seq::<(u64, H)>::empty(),
    {
        let r = Registry { entries: Vec::new() };
        assert(r.ids() =~= Seq::<u64>::empty());
        r
    }

    /// The number of registered handles.
    pub fn len(&self) -> (r: usize)
        ensures
            r == self@.len(),
    {
        self.entries.len()
    }

    /// The index of the entry for `id`, if there is one.
    pub fn find(&self, id: u64) -> (r: Option<usize>)
        requires
            self.wf(),
        ensures
            r.is_some() == self.ids().contains(id),
            r.is_some() ==> r.unwrap() < self@.len() && self@[r.unwrap() as int].0 == id,
    {
        let mut i: usize = 0;
        while i < self.entries.len()
            invariant
                0 <= i <= self.entries@.len(),
                forall|k: int| 0 <= k < i ==> (#[trigger] self.entries@[k]).0 != id,
            decreases self.entries@.len() - i,
        {
            if self.entries[i].0 == id {
                assert(self.ids()[i as int] == id);
                return Some(i);
            }
            i = i + 1;
        }
        assert forall|k: int| 0 <= k < self.ids().len() implies self.ids()[k] != id by {
            assert(self.entries@[k].0 != id);
        }
        None
    }

    /// Registers `handle` as the outbound handle of `id`, last in order.
    pub fn register(&mut self, id: u64, handle: H)
        requires
            old(self).wf(),
            !old(self).ids().contains(id),
        ensures
            final(self).wf(),
            final(self)@ == old(self)@.push((id, handle)),
            final(self).ids() == old(self).ids().push(id),
    {
        self.entries.push((id, handle));
        assert(self.ids() =~= old(self).ids().push(id));
        assert(self.ids().no_duplicates()) by {
            let s = self.ids();
            assert forall|i: int, j: int| 0 <= i < s.len() && 0 <= j < s.len() && i != j implies s[i] != s[j] by {
                if i == s.len() - 1 {
                    assert(old(self).ids()[j] == s[j]);
                } else if j == s.len() - 1 {
                    assert(old(self).ids()[i] == s[i]);
                }
            }
        }
    }

    /// Removes the entry of `id` and hands back its handle; changes nothing
    /// where `id` is not registered.
    pub fn deregister(&mut self, id: u64) -> (r: Option<H>)
        requires
            old(self).wf(),
        ensures
            final(self).wf(),
            r.is_some() == old(self).ids().contains(id),
            !final(self).ids().contains(id),
            r.is_none() ==> final(self)@ == old(self)@,
            r.is_some() ==> final(self)@ == old(self)@.remove(old(self).ids().index_of(id))
                && r.unwrap() == old(self)@[old(self).ids().index_of(id)].1,
    {
        match self.find(id) {
            Some(i) => {
                let e = self.entries.remove(i);
                proof {
                    let o = old(self).ids();
                    let s = self.ids();
                    assert(o[i as int] == id);
                    o.index_of_first_ensures(id);
                    assert(o.index_of(id) == i as int) by {
                        let j = o.index_of(id);
                        if j != i as int {
                            assert(o[j] == id);
                        }
                    }
                    assert(s =~= o.remove(i as int));
                    assert forall|a: int, b: int| 0 <= a < s.len() && 0 <= b < s.len() && a != b implies s[a] != s[b] by {
                        let a2 = if a < i { a } else { a + 1 };
                        let b2 = if b < i { b } else { b + 1 };
                        assert(s[a] == o[a2] && s[b] == o[b2]);
                    }
                    assert forall|k: int| 0 <= k < s.len() implies s[k] != id by {
                        let k2 = if k < i { k } else { k + 1 };
                        assert(s[k] == o[k2]);
                    }
                }
                Some(e.1)
            },
            None => None,
        }
    }

    /// The registered ids, in order: the targets of a broadcast.
    pub fn targets(&self) -> (r: Vec<u64>)
        ensures
            r@ == self.ids(),
    {
        let mut out: Vec<u64> = Vec::new();
        let mut i: usize = 0;
        while i < self.entries.len()
            invariant
                0 <= i <= self.entries@.len(),
                out@ == entry_ids(self.entries@).subrange(0, i as int),
            decreases self.entries@.len() - i,
        {
            out.push(self.entries[i].0);
            i = i + 1;
            assert(out@ =~= entry_ids(self.entries@).subrange(0, i as int));
        }
        assert(out@ =~= self.ids());
        out
    }

    /// The handle at index `i`.
    pub fn handle_at(&self, i: usize) -> (r: &H)
        requires
            i < self@.len(),
        ensures
            *r == self@[i as int].1,
    {
        &self.entries[i].1
    }
}

} // verus!
