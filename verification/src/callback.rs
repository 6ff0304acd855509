//! The pre-render callback registry.
//!
//! Callbacks are opaque values of an owner-chosen type `F` (typically boxed
//! closures over the owning router), keyed by ids that only ever grow. The
//! registry is re-entrant by a detach / invoke / reattach protocol: the
//! caller detaches the current set with [`CallbackHolder::get_functions`],
//! invokes each entry, and reattaches with
//! [`CallbackHolder::set_functions`]. Additions and removals asked for while
//! the set is detached are queued and committed on reattachment, so a
//! callback may add or remove callbacks on the very registry it is being
//! invoked from.

use vstd::prelude::*;

verus! {

/// Keeps the entries whose id was not queued for removal.
pub open spec fn live_pred<F>(removals: Seq<usize>) -> spec_fn((usize, F)) -> bool {
    |e: (usize, F)| !removals.contains(e.0)
}

/// Keeps the entries registered under any id but `id`.
pub open spec fn keep_pred<F>(id: usize) -> spec_fn((usize, F)) -> bool {
    |e: (usize, F)| e.0 != id
}

/// The set that reattaching a detached snapshot yields: the snapshot and
/// the additions queued meanwhile, in insertion order, less every entry
/// whose removal was queued meanwhile.
pub open spec fn committed<F>(
    snapshot: Seq<(usize, F)>,
    adds: Seq<(usize, F)>,
    removals: Seq<usize>,
) -> Seq<(usize, F)> {
    (snapshot + adds).filter(live_pred(removals))
}

/// Appending an element to a sequence extends its filtered form by that
/// element exactly when the element passes the filter.
proof fn lemma_filter_step<A>(s: Seq<A>, x: A, p: spec_fn(A) -> bool)
    ensures
        s.push(x).filter(p) == (if p(x) {
            s.filter(p).push(x)
        } else {
            s.filter(p)
        }),
{
    reveal(Seq::filter);
    assert(s.push(x).drop_last() =~= s);
    assert(s.push(x).last() == x);
}

/// A sequence whose ids all lie in `1 ..= hi` keeps that property under any
/// filtering.
proof fn lemma_filter_ids_bounded<F>(s: Seq<(usize, F)>, p: spec_fn((usize, F)) -> bool, hi: usize)
    requires
        forall|j: int| 0 <= j < s.len() ==> 1 <= (#[trigger] s[j]).0 <= hi,
    ensures
        forall|j: int| 0 <= j < s.filter(p).len() ==> 1 <= (#[trigger] s.filter(p)[j]).0 <= hi,
{
    assert forall|j: int| 0 <= j < s.filter(p).len() implies 1 <= (#[trigger] s.filter(p)[j]).0
        <= hi by {
        let e = s.filter(p)[j];
        assert(s.filter(p).contains(e));
        s.lemma_filter_contains_rev(p, e);
        let k = choose|k: int| 0 <= k < s.len() && s[k] == e;
        assert(1 <= s[k].0 <= hi);
    }
}

/// Whether an id occurs in a list of ids.
fn contains_id(ids: &Vec<usize>, id: usize) -> (r: bool)
    ensures
        r == ids@.contains(id),
{
    let mut j: usize = 0;
    while j < ids.len()
        invariant
            j <= ids@.len(),
            forall|k: int| 0 <= k < j ==> ids@[k] != id,
        decreases ids@.len() - j,
    {
        if ids[j] == id {
            proof {
                assert(ids@[j as int] == id);
            }
            return true;
        }
        j = j + 1;
    }
    false
}

/// The entries registered under any id but `id`, in order.
fn without_id<F>(source: Vec<(usize, F)>, id: usize) -> (r: Vec<(usize, F)>)
    ensures
        r@ == source@.filter(keep_pred(id)),
{
    let ghost orig = source@;
    let ghost p = keep_pred::<F>(id);
    let mut rest = source;
    let mut out: Vec<(usize, F)> = Vec::new();
    proof {
        reveal(Seq::filter);
        assert(rest@ =~= orig.skip(0));
        assert(orig.take(0) =~= Seq::<(usize, F)>::empty());
        assert(orig.take(0).filter(p) =~= Seq::<(usize, F)>::empty());
    }
    while rest.len() > 0
        invariant
            p == keep_pred::<F>(id),
            rest@.len() <= orig.len(),
            rest@ == orig.skip(orig.len() - rest@.len()),
            out@ == orig.take(orig.len() - rest@.len()).filter(p),
        decreases rest@.len(),
    {
        let ghost k: int = orig.len() - rest@.len();
        let e = rest.remove(0);
        proof {
            assert(e == orig[k]);
            assert(rest@ =~= orig.skip(k + 1));
            assert(orig.take(k + 1) =~= orig.take(k).push(orig[k]));
            lemma_filter_step(orig.take(k), orig[k], p);
        }
        if e.0 != id {
            proof {
                assert(p(orig[k]));
            }
            out.push(e);
        } else {
            proof {
                assert(!p(orig[k]));
            }
        }
    }
    proof {
        assert(orig.take(orig.len() as int) =~= orig);
    }
    out
}

/// The entries whose id is on none of the queued removals, in order.
fn without_removed<F>(source: Vec<(usize, F)>, removed: &Vec<usize>) -> (r: Vec<(usize, F)>)
    ensures
        r@ == source@.filter(live_pred(removed@)),
{
    let ghost orig = source@;
    let ghost p = live_pred::<F>(removed@);
    let mut rest = source;
    let mut out: Vec<(usize, F)> = Vec::new();
    proof {
        reveal(Seq::filter);
        assert(rest@ =~= orig.skip(0));
        assert(orig.take(0) =~= Seq::<(usize, F)>::empty());
        assert(orig.take(0).filter(p) =~= Seq::<(usize, F)>::empty());
    }
    while rest.len() > 0
        invariant
            p == live_pred::<F>(removed@),
            rest@.len() <= orig.len(),
            rest@ == orig.skip(orig.len() - rest@.len()),
            out@ == orig.take(orig.len() - rest@.len()).filter(p),
        decreases rest@.len(),
    {
        let ghost k: int = orig.len() - rest@.len();
        let e = rest.remove(0);
        proof {
            assert(e == orig[k]);
            assert(rest@ =~= orig.skip(k + 1));
            assert(orig.take(k + 1) =~= orig.take(k).push(orig[k]));
            lemma_filter_step(orig.take(k), orig[k], p);
        }
        if !contains_id(removed, e.0) {
            proof {
                assert(p(orig[k]));
            }
            out.push(e);
        } else {
            proof {
                assert(!p(orig[k]));
            }
        }
    }
    proof {
        assert(orig.take(orig.len() as int) =~= orig);
    }
    out
}

/// The registry of pre-render callbacks of an owner. `F` is the stored
/// callback representation; the registry never looks inside it.
pub struct CallbackHolder<F> {
    functions: Option<Vec<(usize, F)>>,
    added: Vec<(usize, F)>,
    removed: Vec<usize>,
    i: usize,
}

impl<F> CallbackHolder<F> {
    /// Whether the callback set is currently attached to the registry
    /// (it is, except between a detach and the matching reattach).
    pub closed spec fn is_attached(self) -> bool {
        self.functions is Some
    }

    /// The attached entries, in insertion order.
    pub closed spec fn entries(self) -> Seq<(usize, F)> {
        match self.functions {
            Some(v) => v@,
            None => Seq::empty(),
        }
    }

    /// The additions queued while the set is detached, in insertion order.
    pub closed spec fn queued_adds(self) -> Seq<(usize, F)> {
        self.added@
    }

    /// The removals queued while the set is detached.
    pub closed spec fn queued_removals(self) -> Seq<usize> {
        self.removed@
    }

    /// The largest id issued so far; ids start at 1.
    pub closed spec fn counter(self) -> usize {
        self.i
    }

    /// Every stored id was issued (so lies in `1 ..= counter`), and nothing
    /// is queued while the set is attached.
    pub open spec fn wf(self) -> bool {
        &&& forall|j: int|
            0 <= j < self.entries().len() ==> 1 <= (#[trigger] self.entries()[j]).0
                <= self.counter()
        &&& forall|j: int|
            0 <= j < self.queued_adds().len() ==> 1 <= (#[trigger] self.queued_adds()[j]).0
                <= self.counter()
        &&& self.is_attached() ==> self.queued_adds().len() == 0 && self.queued_removals().len()
            == 0
    }

    /// An empty registry: attached, no entries, no id issued yet.
    pub fn new() -> (holder: Self)
        ensures
            holder.wf(),
            holder.is_attached(),
            holder.entries() == Seq::<(usize, F)>::empty(),
            holder.counter() == 0,
    {
        let holder = CallbackHolder {
            functions: Some(Vec::new()),
            added: Vec::new(),
            removed: Vec::new(),
            i: 0,
        };
        proof {
            assert(holder.entries() =~= Seq::<(usize, F)>::empty());
        }
        holder
    }

    /// Issues the next id: ids are handed out in order, starting at 1.
    pub fn increment(&mut self) -> (id: usize)
        requires
            old(self).wf(),
            old(self).counter() < usize::MAX,
        ensures
            final(self).wf(),
            id == old(self).counter() + 1,
            final(self).counter() == id,
            final(self).is_attached() == old(self).is_attached(),
            final(self).entries() == old(self).entries(),
            final(self).queued_adds() == old(self).queued_adds(),
            final(self).queued_removals() == old(self).queued_removals(),
    {
        self.i = self.i + 1;
        proof {
            assert forall|j: int| 0 <= j < self.entries().len() implies 1 <= (
            #[trigger] self.entries()[j]).0 <= self.counter() by {
                assert(self.entries()[j] == old(self).entries()[j]);
            }
            assert forall|j: int| 0 <= j < self.queued_adds().len() implies 1 <= (
            #[trigger] self.queued_adds()[j]).0 <= self.counter() by {
                assert(self.queued_adds()[j] == old(self).queued_adds()[j]);
            }
        }
        self.i
    }

    /// Detaches the callback set and hands it to the caller, who will
    /// invoke the entries and reattach with [`Self::set_functions`].
    pub fn get_functions(&mut self) -> (snapshot: Vec<(usize, F)>)
        requires
            old(self).wf(),
            old(self).is_attached(),
        ensures
            final(self).wf(),
            !final(self).is_attached(),
            snapshot@ == old(self).entries(),
            final(self).counter() == old(self).counter(),
            final(self).queued_adds().len() == 0,
            final(self).queued_removals().len() == 0,
    {
        self.functions.take().unwrap()
    }

    /// Reattaches a detached callback set and commits whatever was queued
    /// while it was out: queued additions are appended in insertion order,
    /// and every entry whose removal was queued is dropped.
    pub fn set_functions(&mut self, funcs: Vec<(usize, F)>)
        requires
            old(self).wf(),
            !old(self).is_attached(),
            forall|j: int| 0 <= j < funcs@.len() ==> 1 <= (#[trigger] funcs@[j]).0 <= old(
                self,
            ).counter(),
        ensures
            final(self).wf(),
            final(self).is_attached(),
            final(self).entries() == committed(
                funcs@,
                old(self).queued_adds(),
                old(self).queued_removals(),
            ),
            final(self).counter() == old(self).counter(),
    {
        let ghost adds = self.added@;
        let ghost removals = self.removed@;
        let ghost p = live_pred::<F>(removals);
        let mut queued: Vec<(usize, F)> = Vec::new();
        std::mem::swap(&mut queued, &mut self.added);
        let mut live = without_removed(funcs, &self.removed);
        let mut live_queued = without_removed(queued, &self.removed);
        live.append(&mut live_queued);
        proof {
            Seq::filter_distributes_over_add(funcs@, adds, p);
            let joined = funcs@ + adds;
            assert(adds == old(self).queued_adds());
            assert forall|j: int| 0 <= j < joined.len() implies 1 <= (#[trigger] joined[j]).0
                <= self.i by {
                if j < funcs@.len() {
                    assert(joined[j] == funcs@[j]);
                } else {
                    assert(joined[j] == old(self).queued_adds()[j - funcs@.len()]);
                }
            }
            lemma_filter_ids_bounded(joined, p, self.i);
        }
        self.functions = Some(live);
        self.removed = Vec::new();
        proof {
            let joined = funcs@ + adds;
            assert forall|j: int| 0 <= j < self.entries().len() implies 1 <= (
            #[trigger] self.entries()[j]).0 <= self.counter() by {
                assert(self.entries()[j] == joined.filter(p)[j]);
            }
        }
    }

    /// Registers a callback and returns its id, which is strictly greater
    /// than every id the registry has issued before. While the set is
    /// detached the addition is queued; it joins the set on reattachment.
    pub fn add_callback(&mut self, callback: F) -> (id: usize)
        requires
            old(self).wf(),
            old(self).counter() < usize::MAX,
        ensures
            final(self).wf(),
            id == old(self).counter() + 1,
            final(self).counter() == id,
            final(self).is_attached() == old(self).is_attached(),
            old(self).is_attached() ==> final(self).entries() == old(self).entries().push(
                (id, callback),
            ),
            !old(self).is_attached() ==> final(self).queued_adds() == old(
                self,
            ).queued_adds().push((id, callback)) && final(self).entries() == old(self).entries(),
            final(self).queued_removals() == old(self).queued_removals(),
            forall|j: int|
                0 <= j < old(self).entries().len() ==> (#[trigger] old(self).entries()[j]).0 < id,
            forall|j: int|
                0 <= j < old(self).queued_adds().len() ==> (#[trigger] old(
                    self,
                ).queued_adds()[j]).0 < id,
    {
        let id = self.increment();
        match &mut self.functions {
            Some(v) => {
                v.push((id, callback));
            },
            None => {
                self.added.push((id, callback));
            },
        }
        id
    }

    /// Removes the callback registered under `id`; an id that is not
    /// present is ignored. While the set is detached the removal is queued
    /// and takes effect on reattachment, so a callback can remove any
    /// callback — itself included — during invocation.
    pub fn remove_callback(&mut self, id: usize)
        requires
            old(self).wf(),
        ensures
            final(self).wf(),
            final(self).counter() == old(self).counter(),
            final(self).is_attached() == old(self).is_attached(),
            old(self).is_attached() ==> final(self).entries() == old(self).entries().filter(
                keep_pred(id),
            ),
            !old(self).is_attached() ==> final(self).queued_removals() == old(
                self,
            ).queued_removals().push(id) && final(self).queued_adds() == old(self).queued_adds(),
    {
        let set = self.functions.take();
        match set {
            Some(v) => {
                let ghost p = keep_pred::<F>(id);
                proof {
                    assert(v@ == old(self).entries());
                    assert forall|j: int| 0 <= j < v@.len() implies 1 <= (#[trigger] v@[j]).0
                        <= self.i by {
                        assert(v@[j] == old(self).entries()[j]);
                    }
                    lemma_filter_ids_bounded(v@, p, self.i);
                }
                let live = without_id(v, id);
                self.functions = Some(live);
                proof {
                    assert(old(self).is_attached());
                    assert(self.queued_adds() == old(self).queued_adds());
                    assert(self.queued_removals() == old(self).queued_removals());
                    assert forall|j: int| 0 <= j < self.entries().len() implies 1 <= (
                    #[trigger] self.entries()[j]).0 <= self.counter() by {
                        assert(self.entries()[j] == v@.filter(p)[j]);
                    }
                }
            },
            None => {
                self.removed.push(id);
                proof {
                    assert(self.entries() == old(self).entries());
                    assert(self.queued_adds() == old(self).queued_adds());
                    assert forall|j: int| 0 <= j < self.queued_adds().len() implies 1 <= (
                    #[trigger] self.queued_adds()[j]).0 <= self.counter() by {
                        assert(self.queued_adds()[j] == old(self).queued_adds()[j]);
                    }
                }
            },
        }
    }
}

/// A removal queued while the set was detached takes effect on
/// reattachment: no entry under the removed id survives the commit.
pub proof fn lemma_commit_drops_removed<F>(
    snapshot: Seq<(usize, F)>,
    adds: Seq<(usize, F)>,
    removals: Seq<usize>,
    id: usize,
)
    requires
        removals.contains(id),
    ensures
        forall|j: int|
            0 <= j < committed(snapshot, adds, removals).len() ==> (#[trigger] committed(
                snapshot,
                adds,
                removals,
            )[j]).0 != id,
{
    let joined = snapshot + adds;
    let p = live_pred::<F>(removals);
    assert forall|j: int| 0 <= j < joined.filter(p).len() implies (#[trigger] joined.filter(
        p,
    )[j]).0 != id by {
        joined.lemma_filter_pred(p, j);
    }
}

/// Reattachment introduces no entry of its own: an id absent from the
/// snapshot and from the queued additions is absent from the committed set,
/// so a removed callback never comes back on a later pass.
pub proof fn lemma_commit_adds_nothing<F>(
    snapshot: Seq<(usize, F)>,
    adds: Seq<(usize, F)>,
    removals: Seq<usize>,
    id: usize,
)
    requires
        forall|j: int| 0 <= j < snapshot.len() ==> (#[trigger] snapshot[j]).0 != id,
        forall|j: int| 0 <= j < adds.len() ==> (#[trigger] adds[j]).0 != id,
    ensures
        forall|j: int|
            0 <= j < committed(snapshot, adds, removals).len() ==> (#[trigger] committed(
                snapshot,
                adds,
                removals,
            )[j]).0 != id,
{
    let joined = snapshot + adds;
    let p = live_pred::<F>(removals);
    assert forall|j: int| 0 <= j < joined.filter(p).len() implies (#[trigger] joined.filter(
        p,
    )[j]).0 != id by {
        let e = joined.filter(p)[j];
        assert(joined.filter(p).contains(e));
        joined.lemma_filter_contains_rev(p, e);
        let k = choose|k: int| 0 <= k < joined.len() && joined[k] == e;
        if k < snapshot.len() {
            assert(joined[k] == snapshot[k]);
        } else {
            assert(joined[k] == adds[k - snapshot.len()]);
        }
    }
}

} // verus!
