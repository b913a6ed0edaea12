//! Integer-id resource handles backed by an arena.
//!
//! An entry stays in the arena until it has been released through its owning
//! [`Handle`] and a later [`HandleTracker::prune`] sweeps it out. Weak handles
//! name an entry without keeping it alive; lookups through a weak handle
//! simply miss once the entry is pruned. The liveness flag kept next to each
//! entry plays the role of a reference count of at most one: a handle is not
//! cloneable, so an entry is live exactly while its one owning handle exists.

use vstd::prelude::*;
use core::marker::PhantomData;

verus! {

/// Identifier shared by a handle and the tracker entry it refers to.
pub type BaseId = u32;

/// Owning handle: the entry it names stays in the arena, marked live, until
/// the handle is given back to [`HandleTracker::release`].
/// `ID` is a unit marker type naming the family of handles.
#[derive(Debug)]
pub struct Handle<ID> {
    id: BaseId,
    marker: PhantomData<ID>,
}

/// Non-owning handle: names an entry but does not keep it live.
#[derive(Debug)]
pub struct WeakHandle<ID> {
    id: BaseId,
    marker: PhantomData<ID>,
}

/// One arena slot: the entry's id, whether its owning handle still exists,
/// and the user's data.
pub struct HandleEntry<T> {
    pub id: BaseId,
    pub live: bool,
    pub data: T,
}

/// Arena of entries addressed by integer ids handed out in insertion order.
pub struct HandleTracker<ID, T> {
    id_counter: BaseId,
    entries: Vec<HandleEntry<T>>,
    marker: PhantomData<ID>,
}

impl<ID> Handle<ID> {
    /// The id this handle carries.
    pub closed spec fn spec_id(&self) -> BaseId {
        self.id
    }

    /// A weak handle naming the same entry.
    pub fn make_weak(&self) -> (r: WeakHandle<ID>)
        ensures
            r.spec_id() == self.spec_id(),
    {
        WeakHandle { id: self.id, marker: PhantomData }
    }
}

impl<ID> WeakHandle<ID> {
    /// The id this handle carries.
    pub closed spec fn spec_id(&self) -> BaseId {
        self.id
    }
}

/// The first entry of `s` carrying `id`, if any. Trackers keep ids unique,
/// so the first match is the only one.
pub open spec fn spec_find<T>(s: Seq<HandleEntry<T>>, id: BaseId) -> Option<HandleEntry<T>>
    decreases s.len(),
{
    if s.len() == 0 {
        None
    } else if s[0].id == id {
        Some(s[0])
    } else {
        spec_find(s.drop_first(), id)
    }
}

impl<ID, T> HandleTracker<ID, T> {
    /// The arena contents, oldest entry first.
    pub closed spec fn view(&self) -> Seq<HandleEntry<T>> {
        self.entries@
    }

    /// The id the next `put` will hand out.
    pub closed spec fn spec_counter(&self) -> BaseId {
        self.id_counter
    }

    /// Entries carry strictly increasing ids, all below the counter.
    pub open spec fn wf(&self) -> bool {
        &&& forall|i: int, j: int|
            0 <= i < j < self.view().len() ==> self.view()[i].id < self.view()[j].id
        &&& forall|i: int| 0 <= i < self.view().len() ==> self.view()[i].id < self.spec_counter()
    }

    /// An empty tracker.
    pub fn new() -> (r: HandleTracker<ID, T>)
        ensures
            r.wf(),
            r.view().len() == 0,
            r.spec_counter() == 0,
    {
        HandleTracker { id_counter: 0, entries: Vec::new(), marker: PhantomData }
    }

    /// Store `user_data` as a fresh live entry and return its owning handle.
    pub fn put(&mut self, user_data: T) -> (r: Handle<ID>)
        requires
            old(self).wf(),
            old(self).spec_counter() < u32::MAX,
        ensures
            final(self).wf(),
            r.spec_id() == old(self).spec_counter(),
            final(self).spec_counter() == old(self).spec_counter() + 1,
            final(self).view().len() == old(self).view().len() + 1,
            final(self).view() == old(self).view().push(
                HandleEntry { id: r.spec_id(), live: true, data: user_data },
            ),
            forall|i: int| 0 <= i < old(self).view().len() ==> old(self).view()[i].id != r.spec_id(),
    {
        let base_id = self.id_counter;
        self.id_counter = self.id_counter + 1;
        self.entries.push(HandleEntry { id: base_id, live: true, data: user_data });
        Handle { id: base_id, marker: PhantomData }
    }

    /// Look up the entry a weak handle names; misses once the entry is pruned.
    pub fn get(&self, handle: &WeakHandle<ID>) -> (r: Option<&T>)
        ensures
            match r {
                Some(d) => {
                    &&& spec_find(self.view(), handle.spec_id()) is Some
                    &&& *d == spec_find(self.view(), handle.spec_id())->0.data
                },
                None => spec_find(self.view(), handle.spec_id()) is None,
            },
    {
        let mut i: usize = 0;
        assert(self.entries@.skip(0) =~= self.entries@);
        while i < self.entries.len()
            invariant
                0 <= i <= self.entries@.len(),
                spec_find(self.entries@.skip(i as int), handle.spec_id()) == spec_find(
                    self.entries@,
                    handle.spec_id(),
                ),
            decreases self.entries@.len() - i,
        {
            assert(self.entries@.skip(i as int)[0] == self.entries@[i as int]);
            assert(self.entries@.skip(i as int).drop_first() =~= self.entries@.skip(i + 1));
            if self.entries[i].id == handle.id {
                return Some(&self.entries[i].data);
            }
            i = i + 1;
        }
        assert(self.entries@.skip(i as int) =~= Seq::<HandleEntry<T>>::empty());
        None
    }

    /// Mutable counterpart of [`HandleTracker::get`].
    pub fn get_mut(&mut self, handle: &WeakHandle<ID>) -> (r: Option<&mut T>)
        requires
            old(self).wf(),
        ensures
            final(self).wf(),
            final(self).spec_counter() == old(self).spec_counter(),
            final(self).view().len() == old(self).view().len(),
            match r {
                Some(d) => {
                    &&& spec_find(old(self).view(), handle.spec_id()) is Some
                    &&& *d == (spec_find(old(self).view(), handle.spec_id())->0).data
                    &&& forall|k: int|
                        0 <= k < old(self).view().len() ==> {
                            let o = old(self).view()[k];
                            #[trigger] final(self).view()[k] == (if o.id == handle.spec_id() {
                                HandleEntry { id: o.id, live: o.live, data: *final(d) }
                            } else {
                                o
                            })
                        }
                },
                None => {
                    &&& spec_find(old(self).view(), handle.spec_id()) is None
                    &&& final(self).view() == old(self).view()
                },
            },
    {
        let ghost orig = self.entries@;
        let mut i: usize = 0;
        assert(orig.skip(0) =~= orig);
        while i < self.entries.len()
            invariant
                0 <= i <= self.entries@.len(),
                self.entries@ == orig,
                orig == old(self).view(),
                old(self).wf(),
                self.id_counter == old(self).spec_counter(),
                spec_find(orig.skip(i as int), handle.spec_id()) == spec_find(
                    orig,
                    handle.spec_id(),
                ),
            decreases self.entries@.len() - i,
        {
            assert(orig.skip(i as int)[0] == orig[i as int]);
            assert(orig.skip(i as int).drop_first() =~= orig.skip(i + 1));
            if self.entries[i].id == handle.id {
                proof {
                    assert(spec_find(orig, handle.spec_id()) == Some(orig[i as int]));
                    assert forall|k: int|
                        0 <= k < orig.len() && k != i implies orig[k].id
                        != handle.spec_id() by {
                        if k < i {
                            assert(orig[k].id < orig[i as int].id);
                        } else {
                            assert(orig[i as int].id < orig[k].id);
                        }
                    }
                }
                let d = &mut self.entries[i].data;
                return Some(d);
            }
            i = i + 1;
        }
        assert(orig.skip(i as int) =~= Seq::<HandleEntry<T>>::empty());
        None
    }

    /// Give an owning handle back, marking its entry dead so that the next
    /// sweep can drop it. The entry's data is untouched until then.
    pub fn release(&mut self, handle: Handle<ID>)
        ensures
            final(self).view().len() == old(self).view().len(),
            forall|i: int|
                0 <= i < old(self).view().len() ==> {
                    let o = old(self).view()[i];
                    #[trigger] final(self).view()[i] == (if o.id == handle.spec_id() {
                        HandleEntry { id: o.id, live: false, data: o.data }
                    } else {
                        o
                    })
                },
            old(self).wf() ==> final(self).wf(),
            final(self).spec_counter() == old(self).spec_counter(),
    {
        let n = self.entries.len();
        let mut i: usize = 0;
        while i < n
            invariant
                0 <= i <= n,
                n == self.entries@.len(),
                self.entries@.len() == old(self).view().len(),
                self.id_counter == old(self).spec_counter(),
                forall|k: int|
                    0 <= k < n ==> {
                        let o = old(self).view()[k];
                        #[trigger] self.entries@[k] == (if k < i && o.id == handle.spec_id() {
                            HandleEntry { id: o.id, live: false, data: o.data }
                        } else {
                            o
                        })
                    },
            decreases n - i,
        {
            if self.entries[i].id == handle.id {
                let e = &mut self.entries[i];
                e.live = false;
            }
            i = i + 1;
        }
    }

    /// Sweep out every entry whose owning handle has been released.
    pub fn prune(&mut self)
        ensures
            final(self).view() == old(self).view().filter(|e: HandleEntry<T>| e.live),
            old(self).wf() ==> final(self).wf(),
            final(self).spec_counter() == old(self).spec_counter(),
    {
        let ghost orig = old(self).view();
        let ghost n = orig.len() as int;
        let ghost mut p: int = 0;
        let mut i: usize = 0;
        proof {
            assert(orig.take(0).filter(|e: HandleEntry<T>| e.live) =~= Seq::<HandleEntry<T>>::empty());
            assert(orig.skip(0) =~= orig);
        }
        while i < self.entries.len()
            invariant
                0 <= p <= n,
                n == orig.len(),
                i as int == orig.take(p).filter(|e: HandleEntry<T>| e.live).len(),
                self.entries@ =~= orig.take(p).filter(|e: HandleEntry<T>| e.live) + orig.skip(p),
                self.id_counter == old(self).spec_counter(),
            decreases n - p,
        {
            proof {
                assert(orig.skip(p).len() > 0);
                assert(self.entries@[i as int] == orig.skip(p)[0]);
                assert(orig.skip(p)[0] == orig[p]);
                reveal_with_fuel(Seq::filter, 2);
                assert(orig.take(p + 1).drop_last() =~= orig.take(p));
                assert(orig.take(p + 1).last() == orig[p]);
                assert(orig.skip(p).drop_first() =~= orig.skip(p + 1));
            }
            if self.entries[i].live {
                proof {
                    assert(orig.take(p + 1).filter(|e: HandleEntry<T>| e.live) =~= orig.take(
                        p,
                    ).filter(|e: HandleEntry<T>| e.live).push(orig[p]));
                    assert(self.entries@ =~= orig.take(p + 1).filter(
                        |e: HandleEntry<T>| e.live,
                    ) + orig.skip(p + 1));
                }
                i = i + 1;
            } else {
                self.entries.remove(i);
                proof {
                    assert(orig.take(p + 1).filter(|e: HandleEntry<T>| e.live) =~= orig.take(
                        p,
                    ).filter(|e: HandleEntry<T>| e.live));
                    assert(self.entries@ =~= orig.take(p + 1).filter(
                        |e: HandleEntry<T>| e.live,
                    ) + orig.skip(p + 1));
                }
            }
            proof {
                p = p + 1;
            }
        }
        proof {
            assert(orig.skip(p).len() == 0);
            assert(p == n);
            assert(orig.take(n) =~= orig);
            assert(self.entries@ =~= orig.filter(|e: HandleEntry<T>| e.live));
            if old(self).wf() {
                filter_preserves_sorted(orig, self.id_counter);
            }
        }
    }
}

/// Filtering entries keeps ids strictly increasing and below the counter;
/// every surviving entry was an entry of the original sequence.
proof fn filter_preserves_sorted<T>(s: Seq<HandleEntry<T>>, counter: BaseId)
    requires
        forall|i: int, j: int| 0 <= i < j < s.len() ==> s[i].id < s[j].id,
        forall|i: int| 0 <= i < s.len() ==> s[i].id < counter,
    ensures
        ({
            let f = s.filter(|e: HandleEntry<T>| e.live);
            &&& forall|i: int, j: int| 0 <= i < j < f.len() ==> f[i].id < f[j].id
            &&& forall|i: int| 0 <= i < f.len() ==> f[i].id < counter
            &&& forall|i: int|
                0 <= i < f.len() ==> exists|w: int| 0 <= w < s.len() && #[trigger] f[i] == s[w]
        }),
    decreases s.len(),
{
    reveal_with_fuel(Seq::filter, 2);
    let f = s.filter(|e: HandleEntry<T>| e.live);
    if s.len() > 0 {
        let prefix = s.drop_last();
        assert(forall|i: int, j: int| 0 <= i < j < prefix.len() ==> prefix[i].id < prefix[j].id);
        assert(forall|i: int| 0 <= i < prefix.len() ==> prefix[i].id < counter);
        filter_preserves_sorted(prefix, counter);
        let fp = prefix.filter(|e: HandleEntry<T>| e.live);
        if s.last().live {
            assert(f =~= fp.push(s.last()));
            assert forall|i: int|
                0 <= i < f.len() implies exists|w: int|
                0 <= w < s.len() && #[trigger] f[i] == s[w] by {
                if i < fp.len() {
                    let w = choose|w: int| 0 <= w < prefix.len() && #[trigger] fp[i] == prefix[w];
                    assert(f[i] == s[w]);
                } else {
                    assert(f[i] == s[s.len() - 1]);
                }
            }
            assert forall|i: int, j: int| 0 <= i < j < f.len() implies f[i].id < f[j].id by {
                if j < fp.len() {
                } else {
                    let w = choose|w: int| 0 <= w < prefix.len() && #[trigger] fp[i] == prefix[w];
                    assert(s[w].id < s.last().id);
                }
            }
        } else {
            assert(f =~= fp);
            assert forall|i: int|
                0 <= i < f.len() implies exists|w: int|
                0 <= w < s.len() && #[trigger] f[i] == s[w] by {
                let w = choose|w: int| 0 <= w < prefix.len() && #[trigger] fp[i] == prefix[w];
                assert(f[i] == s[w]);
            }
        }
    }
}

} // verus!
