//! Bookkeeping kept between dispatch turns: unhandled promise rejections,
//! oldest first, and the queue of dynamic imports that script asked for.
use crate::error::CoreError;
use crate::modules::ModuleId;
use std::collections::VecDeque;
use vstd::prelude::*;

verus! {

/// Identity of a promise, as the engine reports it.
pub type PromiseId = i32;

/// The ids of `entries`, in order.
pub open spec fn ids_of<E>(entries: Seq<(PromiseId, E)>) -> Seq<PromiseId> {
    entries.map_values(|e: (PromiseId, E)| e.0)
}

/// `entries` after a rejection of `p` with `value` that no handler saw: the
/// value of an entry already kept for `p` is replaced in place, otherwise a new
/// entry goes last.
pub open spec fn with_rejection<E>(entries: Seq<(PromiseId, E)>, p: PromiseId, value: E) -> Seq<(PromiseId, E)> {
    if ids_of(entries).contains(p) {
        entries.update(ids_of(entries).index_of(p), (p, value))
    } else {
        entries.push((p, value))
    }
}

/// `entries` without the entry of `p`.
pub open spec fn without_promise<E>(entries: Seq<(PromiseId, E)>, p: PromiseId) -> Seq<(PromiseId, E)> {
    if ids_of(entries).contains(p) {
        entries.remove(ids_of(entries).index_of(p))
    } else {
        entries
    }
}

/// Unhandled rejections, oldest first, at most one per promise.
pub struct PendingRejections<E> {
    entries: Vec<(PromiseId, E)>,
}

impl<E> PendingRejections<E> {
    pub closed spec fn view(&self) -> Seq<(PromiseId, E)> {
        self.entries@
    }

    /// No promise has two entries.
    pub closed spec fn wf(&self) -> bool {
        ids_of(self.entries@).no_duplicates()
    }

    pub fn new() -> (r: Self)
        ensures
            r.wf(),
            r.view() == Seq::<(PromiseId, E)>::empty(),
    {
        PendingRejections { entries: Vec::new() }
    }

    pub fn len(&self) -> (n: usize)
        ensures
            n == self.view().len(),
    {
        self.entries.len()
    }

    fn position(&self, p: PromiseId) -> (r: Option<usize>)
        requires
            self.wf(),
        ensures
            match r {
                Some(i) => {
                    &&& i < self.view().len()
                    &&& self.view()[i as int].0 == p
                    &&& ids_of(self.view()).contains(p)
                    &&& ids_of(self.view()).index_of(p) == i
                },
                None => !ids_of(self.view()).contains(p),
            },
    {
        let mut i: usize = 0;
        while i < self.entries.len()
            invariant
                self.wf(),
                i <= self.entries@.len(),
                forall|j: int| 0 <= j < i ==> self.entries@[j].0 != p,
            decreases self.entries@.len() - i,
        {
            if self.entries[i].0 == p {
                proof {
                    let ids = ids_of(self.entries@);
                    assert(ids[i as int] == p);
                    assert(ids.contains(p));
                    let k = ids.index_of(p);
                    assert(0 <= k < ids.len() && ids[k] == p);
                }
                return Some(i);
            }
            i = i + 1;
        }
        proof {
            let ids = ids_of(self.entries@);
            if ids.contains(p) {
                let j = choose|j: int| 0 <= j < ids.len() && #[trigger] ids[j] == p;
                assert(self.entries@[j].0 == p);
            }
        }
        None
    }

    /// Whether an entry for `p` is kept.
    pub fn contains(&self, p: PromiseId) -> (r: bool)
        requires
            self.wf(),
        ensures
            r == ids_of(self.view()).contains(p),
    {
        self.position(p).is_some()
    }

    /// A promise was rejected and no handler saw it.
    pub fn rejected_without_handler(&mut self, p: PromiseId, value: E)
        requires
            old(self).wf(),
        ensures
            final(self).wf(),
            final(self).view() == with_rejection(old(self).view(), p, value),
    {
        match self.position(p) {
            Some(i) => {
                self.entries.set(i, (p, value));
                proof {
                    assert(ids_of(self.entries@) =~= ids_of(old(self).entries@));
                }
            },
            None => {
                self.entries.push((p, value));
                proof {
                    assert(ids_of(self.entries@) =~= ids_of(old(self).entries@).push(p));
                }
            },
        }
    }

    /// A handler was attached to `p`, or `p` resolved: its entry goes.
    pub fn handled(&mut self, p: PromiseId)
        requires
            old(self).wf(),
        ensures
            final(self).wf(),
            final(self).view() == without_promise(old(self).view(), p),
            !ids_of(final(self).view()).contains(p),
    {
        match self.position(p) {
            Some(i) => {
                let _ = self.entries.remove(i);
                proof {
                    let ids = ids_of(old(self).entries@);
                    assert(ids_of(self.entries@) =~= ids.remove(i as int));
                    assert forall|a: int, b: int| 0 <= a < b < ids.remove(i as int).len() implies ids.remove(i as int)[a] != ids.remove(i as int)[b] by {
                        let a2 = if a < i { a } else { a + 1 };
                        let b2 = if b < i { b } else { b + 1 };
                        assert(ids.remove(i as int)[a] == ids[a2]);
                        assert(ids.remove(i as int)[b] == ids[b2]);
                    }
                    if ids_of(self.entries@).contains(p) {
                        let j = choose|j: int| 0 <= j < ids_of(self.entries@).len() && ids_of(self.entries@)[j] == p;
                        let j2 = if j < i { j } else { j + 1 };
                        assert(ids[j2] == p);
                    }
                }
            },
            None => {},
        }
    }

    /// Takes the oldest entry, which the end of a dispatch turn surfaces as
    /// an error.
    pub fn take_oldest(&mut self) -> (r: Option<(PromiseId, E)>)
        requires
            old(self).wf(),
        ensures
            final(self).wf(),
            old(self).view().len() == 0 ==> r is None && final(self).view() == old(self).view(),
            old(self).view().len() > 0 ==> r == Some(old(self).view()[0]) && final(self).view()
                == old(self).view().drop_first(),
    {
        if self.entries.len() == 0 {
            None
        } else {
            let e = self.entries.remove(0);
            proof {
                let ids = ids_of(old(self).entries@);
                assert(ids_of(self.entries@) =~= ids.drop_first());
                assert(self.entries@ =~= old(self).entries@.drop_first());
                assert forall|a: int, b: int| 0 <= a < b < ids.drop_first().len() implies ids.drop_first()[a] != ids.drop_first()[b] by {
                    assert(ids.drop_first()[a] == ids[a + 1]);
                    assert(ids.drop_first()[b] == ids[b + 1]);
                }
            }
            Some(e)
        }
    }
}

/// A rejection of `p` that a handler sees before the turn ends leaves no
/// entry behind, so the end of the turn does not surface it.
pub proof fn lemma_handled_rejection_is_dropped<E>(
    before: Seq<(PromiseId, E)>,
    p: PromiseId,
    value: E,
)
    requires
        ids_of(before).no_duplicates(),
    ensures
        !ids_of(without_promise(with_rejection(before, p, value), p)).contains(p),
{
    let mid = with_rejection(before, p, value);
    let ids = ids_of(mid);
    if ids_of(before).contains(p) {
        let k = ids_of(before).index_of(p);
        assert(ids_of(before)[k] == p);
        assert(ids =~= ids_of(before));
        assert(ids[k] == p);
    } else {
        assert(ids =~= ids_of(before).push(p));
        assert(ids[ids.len() - 1] == p);
        assert forall|a: int, b: int| 0 <= a < ids.len() && 0 <= b < ids.len() && a != b implies ids[a] != ids[b] by {
            if a == ids.len() - 1 {
                assert(ids_of(before)[b] == ids[b]);
            } else if b == ids.len() - 1 {
                assert(ids_of(before)[a] == ids[a]);
            }
        }
    }
    assert(ids.contains(p));
    let i = ids.index_of(p);
    let after = mid.remove(i);
    if ids_of(after).contains(p) {
        let j = choose|j: int| 0 <= j < ids_of(after).len() && #[trigger] ids_of(after)[j] == p;
        let j2 = if j < i { j } else { j + 1 };
        assert(ids[j2] == p);
    }
}

/// A rejection that no handler sees surfaces once: when it is the oldest
/// entry, taking the oldest hands it out and leaves no entry for it.
pub proof fn lemma_unhandled_rejection_surfaces_once<E>(entries: Seq<(PromiseId, E)>, p: PromiseId)
    requires
        ids_of(entries).no_duplicates(),
        entries.len() > 0,
        entries[0].0 == p,
    ensures
        !ids_of(entries.drop_first()).contains(p),
{
    let ids = ids_of(entries);
    if ids_of(entries.drop_first()).contains(p) {
        let j = choose|j: int| 0 <= j < ids_of(entries.drop_first()).len() && #[trigger] ids_of(entries.drop_first())[j] == p;
        assert(ids[j + 1] == p);
        assert(ids[0] == p);
    }
}

/// A dynamic import that script asked for: the promise resolver to settle,
/// the specifier, and the name of the module that asked.
pub struct DynImport<R> {
    pub resolver: R,
    pub specifier: String,
    pub referrer: String,
}

/// Dynamic imports waiting for the end of the dispatch turn, oldest first.
pub struct DynImportQueue<R> {
    items: VecDeque<DynImport<R>>,
}

impl<R> DynImportQueue<R> {
    /// The waiting imports, oldest first.
    pub closed spec fn view(&self) -> Seq<DynImport<R>> {
        self.items@
    }

    pub fn new() -> (r: Self)
        ensures
            r.view() == Seq::<DynImport<R>>::empty(),
    {
        DynImportQueue { items: VecDeque::new() }
    }

    /// Script asked for a dynamic import: it only waits here, nothing loads yet.
    pub fn push(&mut self, resolver: R, specifier: &str, referrer: &str)
        ensures
            final(self).view().len() == old(self).view().len() + 1,
            final(self).view().drop_last() == old(self).view(),
            final(self).view().last().resolver == resolver,
            final(self).view().last().specifier@ == specifier@,
            final(self).view().last().referrer@ == referrer@,
    {
        self.items.push_back(DynImport { resolver, specifier: specifier.to_owned(), referrer: referrer.to_owned() });
        proof {
            assert(final(self).view().drop_last() =~= old(self).view());
        }
    }

    /// Hands out the oldest waiting import; the drain at the end of a turn
    /// calls this until it returns `None`.
    pub fn take_next(&mut self) -> (r: Option<DynImport<R>>)
        ensures
            old(self).view().len() == 0 ==> r is None && final(self).view() == old(self).view(),
            old(self).view().len() > 0 ==> r == Some(old(self).view()[0]) && final(self).view()
                == old(self).view().drop_first(),
    {
        self.items.pop_front()
    }
}

/// How the promise of a dynamic import is settled.
pub enum Settlement<X> {
    /// Fulfilled with the namespace of this module.
    Resolve(ModuleId),
    /// Rejected with the exception the engine captured.
    RejectWithException(X),
    /// Rejected with an error built from this failure.
    RejectWithError(CoreError),
}

/// The settlement of a dynamic import whose load gave `outcome`: success
/// fulfils the promise with the loaded module; a failure always rejects it,
/// with the captured exception when there is one, else with the failure.
pub fn settle_dyn_import<X>(outcome: Result<ModuleId, CoreError>, exception: Option<X>) -> (r: Settlement<X>)
    ensures
        match outcome {
            Ok(id) => r == Settlement::<X>::Resolve(id),
            Err(e) => match exception {
                Some(x) => r == Settlement::<X>::RejectWithException(x),
                None => r == Settlement::<X>::RejectWithError(e),
            },
        },
{
    match outcome {
        Ok(id) => Settlement::Resolve(id),
        Err(e) => match exception {
            Some(x) => Settlement::RejectWithException(x),
            None => Settlement::RejectWithError(e),
        },
    }
}

} // verus!
