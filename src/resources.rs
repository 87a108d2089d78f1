//! Integer-keyed table of host-owned resources.
//!
//! A resource id is handed out once: the counter only grows, so an id that was
//! closed or removed is never issued again by the same table.
use std::collections::HashMap;
use std::collections::hash_map::Entry;
use crate::error::CoreError;
use vstd::prelude::*;

verus! {

broadcast use vstd::std_specs::hash::group_hash_axioms;

/// Handle of a resource held by a [`ResourceTable`].
pub type ResourceId = u32;

/// Table of resources of type `R`, each stored with a descriptive tag.
///
/// Callers that keep resources of several kinds use an enum for `R` and match
/// on it where they need one kind in particular.
pub struct ResourceTable<R> {
    map: HashMap<ResourceId, (String, R)>,
    next_id: u32,
}

impl<R> ResourceTable<R> {
    /// The live resources: id to (tag, value).
    pub closed spec fn contents(&self) -> Map<ResourceId, (Seq<char>, R)> {
        Map::new(
            |k: ResourceId| self.map@.contains_key(k),
            |k: ResourceId| (self.map@[k].0@, self.map@[k].1),
        )
    }

    /// The id that the next `add` hands out.
    pub closed spec fn next_id(&self) -> nat {
        self.next_id as nat
    }

    /// Every live id was issued before, i.e. lies below the counter.
    pub closed spec fn wf(&self) -> bool {
        forall|k: ResourceId| #[trigger] self.map@.contains_key(k) ==> (k as nat) < self.next_id
    }

    /// An empty table whose first id is 0.
    pub fn new() -> (t: Self)
        ensures
            t.wf(),
            t.contents() == Map::<ResourceId, (Seq<char>, R)>::empty(),
            t.next_id() == 0,
    {
        let t = ResourceTable { map: HashMap::new(), next_id: 0 };
        assert(t.contents() =~= Map::<ResourceId, (Seq<char>, R)>::empty());
        t
    }

    /// The id that the next `add` hands out.
    pub fn upcoming_id(&self) -> (r: u32)
        ensures
            r as nat == self.next_id(),
    {
        self.next_id
    }

    /// Number of live resources.
    pub fn len(&self) -> (n: usize)
        ensures
            n == self.contents().len(),
    {
        proof {
            assert(self.contents().dom() =~= self.map@.dom());
        }
        self.map.len()
    }

    /// Whether `rid` names a live resource.
    pub fn has(&self, rid: ResourceId) -> (b: bool)
        ensures
            b == self.contents().contains_key(rid),
    {
        self.map.contains_key(&rid)
    }

    /// The resource stored under `rid`, if it is live.
    pub fn get(&self, rid: ResourceId) -> (r: Option<&R>)
        ensures
            match r {
                Some(v) => self.contents().contains_key(rid) && *v == self.contents()[rid].1,
                None => !self.contents().contains_key(rid),
            },
    {
        match self.map.get(&rid) {
            Some(entry) => Some(&entry.1),
            None => None,
        }
    }

    /// The resource stored under `rid`, or a not-found error naming `rid`.
    pub fn get_checked(&self, rid: ResourceId) -> (r: Result<&R, CoreError>)
        ensures
            match r {
                Ok(v) => self.contents().contains_key(rid) && *v == self.contents()[rid].1,
                Err(e) => !self.contents().contains_key(rid) && e == CoreError::ResourceNotFound { rid },
            },
    {
        match self.get(rid) {
            Some(v) => Ok(v),
            None => Err(CoreError::ResourceNotFound { rid }),
        }
    }

    /// Mutable access to the resource stored under `rid`, if it is live; the
    /// tag and every other entry stay as they were.
    pub fn get_mut(&mut self, rid: ResourceId) -> (r: Option<&mut R>)
        ensures
            final(self).next_id() == old(self).next_id(),
            match r {
                Some(v) => {
                    &&& old(self).contents().contains_key(rid)
                    &&& *v == old(self).contents()[rid].1
                    &&& final(self).contents() == old(self).contents().insert(
                        rid,
                        (old(self).contents()[rid].0, *final(v)),
                    )
                },
                None => {
                    &&& !old(self).contents().contains_key(rid)
                    &&& final(self).contents() == old(self).contents()
                },
            },
            old(self).wf() ==> final(self).wf(),
    {
        match self.map.entry(rid) {
            Entry::Occupied(e) => {
                let entry = e.into_mut();
                Some(&mut entry.1)
            },
            Entry::Vacant(_) => None,
        }
    }

    /// Issues the next id and advances the counter.
    fn next_rid(&mut self) -> (rid: ResourceId)
        requires
            old(self).next_id() < u32::MAX,
        ensures
            rid as nat == old(self).next_id(),
            final(self).next_id() == old(self).next_id() + 1,
            final(self).map@ == old(self).map@,
    {
        let rid = self.next_id;
        self.next_id = self.next_id + 1;
        rid
    }

    /// Stores `resource` under a fresh id, tagged with `name`, and returns the id.
    pub fn add(&mut self, name: &str, resource: R) -> (rid: ResourceId)
        requires
            old(self).wf(),
            old(self).next_id() < u32::MAX,
        ensures
            final(self).wf(),
            rid as nat == old(self).next_id(),
            final(self).next_id() == old(self).next_id() + 1,
            !old(self).contents().contains_key(rid),
            final(self).contents() == old(self).contents().insert(rid, (name@, resource)),
    {
        let rid = self.next_rid();
        let tag = name.to_owned();
        let _ = self.map.insert(rid, (tag, resource));
        proof {
            assert(final(self).contents() =~= old(self).contents().insert(rid, (name@, resource)));
        }
        rid
    }

    /// The tag of every live resource, by id.
    pub fn entries(&self) -> (r: HashMap<ResourceId, String>)
        requires
            self.wf(),
        ensures
            r@.dom() == self.contents().dom(),
            forall|k: ResourceId| #[trigger] r@.contains_key(k) ==> r@[k]@ == self.contents()[k].0,
    {
        let mut r: HashMap<ResourceId, String> = HashMap::new();
        let mut i: u32 = 0;
        while i < self.next_id
            invariant
                self.wf(),
                i <= self.next_id,
                forall|k: ResourceId| #[trigger] r@.contains_key(k) <==> (k < i && self.map@.contains_key(k)),
                forall|k: ResourceId| #[trigger] r@.contains_key(k) ==> r@[k]@ == self.map@[k].0@,
            decreases self.next_id - i,
        {
            match self.map.get(&i) {
                Some(entry) => {
                    r.insert(i, entry.0.clone());
                },
                None => {},
            }
            i = i + 1;
        }
        proof {
            assert(r@.dom() =~= self.contents().dom());
        }
        r
    }

    /// Drops the resource under `rid`; `None` when no resource is live there,
    /// including when it was closed before.
    pub fn close(&mut self, rid: ResourceId) -> (r: Option<()>)
        ensures
            r is Some <==> old(self).contents().contains_key(rid),
            final(self).contents() == old(self).contents().remove(rid),
            final(self).next_id() == old(self).next_id(),
            old(self).wf() ==> final(self).wf(),
    {
        let removed = self.map.remove(&rid);
        proof {
            assert(final(self).contents() =~= old(self).contents().remove(rid));
        }
        match removed {
            Some(_) => Some(()),
            None => None,
        }
    }

    /// Takes the resource under `rid` out of the table and hands it to the
    /// caller; `None` when no resource is live there.
    pub fn remove(&mut self, rid: ResourceId) -> (r: Option<R>)
        ensures
            match r {
                Some(v) => old(self).contents().contains_key(rid) && v == old(self).contents()[rid].1,
                None => !old(self).contents().contains_key(rid),
            },
            final(self).contents() == old(self).contents().remove(rid),
            final(self).next_id() == old(self).next_id(),
            old(self).wf() ==> final(self).wf(),
    {
        let removed = self.map.remove(&rid);
        proof {
            assert(final(self).contents() =~= old(self).contents().remove(rid));
        }
        match removed {
            Some(entry) => Some(entry.1),
            None => None,
        }
    }
}

impl<R> Default for ResourceTable<R> {
    fn default() -> (t: Self)
        ensures
            t.wf(),
            t.contents() == Map::<ResourceId, (Seq<char>, R)>::empty(),
            t.next_id() == 0,
    {
        Self::new()
    }
}

/// After `close` or `remove` on `rid` (both leave `contents().remove(rid)`),
/// `get` and `has` on `rid` find nothing.
pub proof fn lemma_absent_after_close<R>(before: ResourceTable<R>, after: ResourceTable<R>, rid: ResourceId)
    requires
        after.contents() == before.contents().remove(rid),
    ensures
        !after.contents().contains_key(rid),
{
}

/// An id is handed out once: every id a table issued lies below its counter,
/// the counter never goes down, and `add` issues the counter's value; so a
/// later `add` never issues an id issued before.
pub proof fn lemma_ids_never_repeat<R>(
    earlier: ResourceTable<R>,
    later: ResourceTable<R>,
    issued: ResourceId,
)
    requires
        (issued as nat) < earlier.next_id(),
        earlier.next_id() <= later.next_id(),
    ensures
        issued as nat != later.next_id(),
{
}

/// A live id was issued: it lies below the counter.
pub proof fn lemma_live_ids_were_issued<R>(t: ResourceTable<R>, rid: ResourceId)
    requires
        t.wf(),
        t.contents().contains_key(rid),
    ensures
        (rid as nat) < t.next_id(),
{
}

} // verus!
