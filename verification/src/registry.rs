//! The adapter registry: which adapter stands for which runtime.
//!
//! A runtime has at most one adapter. The adapters are kept in the order in
//! which their runtimes were first registered; that order decides where a
//! lookup by capability has the choice.

use vstd::prelude::*;
use vstd::string::*;
use std::sync::Arc;
use crate::runtime::{canonical_order, ClawAdapter, ClawRuntime, RuntimeMetadata, RuntimeMetadataView};
use crate::seqs::{
    first_where, lemma_filter_empty, lemma_filter_step, lemma_first_where, lemma_first_where_is,
    views,
};
use crate::text::ascii_lower;

verus! {

/// The entries for a given runtime.
pub open spec fn registered_as<A: ClawAdapter + ?Sized>(runtime: ClawRuntime) -> spec_fn(
    (ClawRuntime, Arc<A>),
) -> bool {
    |e: (ClawRuntime, Arc<A>)| e.0 == runtime
}

/// The place of the entry for a runtime, or the number of entries where
/// the runtime has none.
pub open spec fn adapter_index<A: ClawAdapter + ?Sized>(
    entries: Seq<(ClawRuntime, Arc<A>)>,
    runtime: ClawRuntime,
) -> int {
    first_where(entries, registered_as::<A>(runtime))
}

/// The adapter of a runtime, if it has one.
pub open spec fn adapter_of<A: ClawAdapter + ?Sized>(
    entries: Seq<(ClawRuntime, Arc<A>)>,
    runtime: ClawRuntime,
) -> Option<Arc<A>> {
    let at = adapter_index(entries, runtime);
    if at < entries.len() {
        Some(entries[at].1)
    } else {
        None
    }
}

/// The runtimes of the entries, in their order.
pub open spec fn entry_runtimes<A: ClawAdapter + ?Sized>(entries: Seq<(ClawRuntime, Arc<A>)>) -> Seq<
    ClawRuntime,
> {
    Seq::new(entries.len(), |i: int| entries[i].0)
}

/// The entries after an adapter is registered for a runtime: in the place
/// of the adapter that the runtime had, or behind all others.
pub open spec fn with_adapter<A: ClawAdapter + ?Sized>(
    entries: Seq<(ClawRuntime, Arc<A>)>,
    runtime: ClawRuntime,
    adapter: Arc<A>,
) -> Seq<(ClawRuntime, Arc<A>)> {
    let at = adapter_index(entries, runtime);
    if at < entries.len() {
        entries.update(at, (runtime, adapter))
    } else {
        entries.push((runtime, adapter))
    }
}

/// The entries after the adapter of a runtime is taken out.
pub open spec fn without_adapter<A: ClawAdapter + ?Sized>(
    entries: Seq<(ClawRuntime, Arc<A>)>,
    runtime: ClawRuntime,
) -> Seq<(ClawRuntime, Arc<A>)> {
    let at = adapter_index(entries, runtime);
    if at < entries.len() {
        entries.remove(at)
    } else {
        entries
    }
}

/// The runtimes that have an adapter.
pub open spec fn has_adapter<A: ClawAdapter + ?Sized>(entries: Seq<(ClawRuntime, Arc<A>)>) -> spec_fn(
    ClawRuntime,
) -> bool {
    |runtime: ClawRuntime| adapter_index(entries, runtime) < entries.len()
}

/// What the adapters declare, in the order of the entries.
pub open spec fn declared<A: ClawAdapter + ?Sized>(entries: Seq<(ClawRuntime, Arc<A>)>) -> Seq<
    RuntimeMetadataView,
> {
    Seq::new(entries.len(), |i: int| entries[i].1.spec_metadata())
}

/// The declarations that name a given runtime.
pub open spec fn declared_by(runtime: ClawRuntime) -> spec_fn(RuntimeMetadataView) -> bool {
    |m: RuntimeMetadataView| m.runtime == runtime
}

/// The declarations that name one of the first `n` runtimes of the
/// canonical order, in that order. Declarations that name the same runtime
/// keep their order.
pub open spec fn by_runtime(declarations: Seq<RuntimeMetadataView>, n: int) -> Seq<
    RuntimeMetadataView,
>
    decreases n,
{
    if n <= 0 {
        Seq::empty()
    } else {
        by_runtime(declarations, n - 1) + declarations.filter(
            declared_by(canonical_order()[n - 1]),
        )
    }
}

/// Whether a declaration lists a capability, letters of either case taken
/// as the same.
pub open spec fn offers(declaration: RuntimeMetadataView, capability: Seq<char>) -> bool {
    exists|k: int|
        0 <= k < declaration.capabilities.len() && ascii_lower(
            #[trigger] declaration.capabilities[k],
        ) == ascii_lower(capability)
}

/// The entries whose adapter offers a capability.
pub open spec fn serves<A: ClawAdapter + ?Sized>(capability: Seq<char>) -> spec_fn(
    (ClawRuntime, Arc<A>),
) -> bool {
    |e: (ClawRuntime, Arc<A>)| offers(e.1.spec_metadata(), capability)
}

/// The adapters of a fleet, one for each registered runtime.
pub struct AdapterRegistry<A: ClawAdapter + ?Sized> {
    adapters: Vec<(ClawRuntime, Arc<A>)>,
}

impl<A: ClawAdapter + ?Sized> View for AdapterRegistry<A> {
    type V = Seq<(ClawRuntime, Arc<A>)>;

    closed spec fn view(&self) -> Seq<(ClawRuntime, Arc<A>)> {
        self.adapters@
    }
}

fn offers_capability(declaration: &RuntimeMetadata, capability: &str) -> (yes: bool)
    ensures
        yes == offers(declaration@, capability@),
{
    let ghost listed = views(declaration.capabilities@);
    let mut k: usize = 0;
    while k < declaration.capabilities.len()
        invariant
            k <= declaration.capabilities.len(),
            listed == views(declaration.capabilities@),
            forall|j: int|
                0 <= j < k ==> ascii_lower(#[trigger] listed[j]) != ascii_lower(capability@),
        decreases declaration.capabilities.len() - k,
    {
        if declaration.capabilities[k].as_str().eq_ignore_ascii_case(capability) {
            assert(declaration@.capabilities == listed);
            assert(ascii_lower(declaration@.capabilities[k as int]) == ascii_lower(capability@));
            return true;
        }
        k += 1;
    }
    false
}

impl<A: ClawAdapter + ?Sized> AdapterRegistry<A> {
    /// The invariant of the registry: no runtime has two entries.
    pub open spec fn wf(&self) -> bool {
        entry_runtimes(self@).no_duplicates()
    }

    /// A registry without adapters.
    pub fn new() -> (registry: Self)
        ensures
            registry.wf(),
            registry@.len() == 0,
    {
        AdapterRegistry { adapters: Vec::new() }
    }

    fn find(&self, runtime: ClawRuntime) -> (at: usize)
        ensures
            at as int == adapter_index(self@, runtime),
            at <= self@.len(),
            at < self@.len() ==> self@[at as int].0 == runtime,
    {
        let ghost p = registered_as::<A>(runtime);
        let mut i: usize = 0;
        while i < self.adapters.len()
            invariant
                i <= self.adapters.len(),
                p == registered_as::<A>(runtime),
                forall|j: int| 0 <= j < i ==> !p(#[trigger] self.adapters@[j]),
            decreases self.adapters.len() - i,
        {
            if self.adapters[i].0 == runtime {
                proof {
                    assert(p(self.adapters@[i as int]));
                    lemma_first_where_is(self.adapters@, p, i as int);
                }
                return i;
            }
            i += 1;
        }
        proof {
            lemma_first_where_is(self.adapters@, p, i as int);
        }
        i
    }

    /// Registers an adapter for a runtime, in place of the adapter that the
    /// runtime had. Says whether it had one. A lookup of the runtime finds
    /// the new adapter from now on.
    pub fn register_dynamic(&mut self, runtime: ClawRuntime, adapter: Arc<A>) -> (replaced: bool)
        requires
            old(self).wf(),
        ensures
            final(self).wf(),
            replaced == (adapter_of(old(self)@, runtime) is Some),
            final(self)@ == with_adapter(old(self)@, runtime, adapter),
            adapter_of(final(self)@, runtime) == Some(adapter),
            forall|other: ClawRuntime|
                other != runtime ==> #[trigger] adapter_of(final(self)@, other) == adapter_of(
                    old(self)@,
                    other,
                ),
    {
        let ghost before = self.adapters@;
        let at = self.find(runtime);
        let replaced = at < self.adapters.len();
        if replaced {
            self.adapters[at] = (runtime, adapter);
        } else {
            self.adapters.push((runtime, adapter));
        }
        proof {
            let after = self.adapters@;
            let p = registered_as::<A>(runtime);
            lemma_first_where(before, p);
            assert(after =~= with_adapter(before, runtime, adapter));
            assert forall|j: int| 0 <= j < at implies !p(#[trigger] after[j]) by {
                assert(after[j] == before[j]);
            }
            lemma_first_where_is(after, p, at as int);
            if replaced {
                assert(entry_runtimes(after) =~= entry_runtimes(before));
            } else {
                assert forall|i: int, j: int|
                    0 <= i < after.len() && 0 <= j < after.len() && i != j implies entry_runtimes(
                    after,
                )[i] != entry_runtimes(after)[j] by {
                    if i < before.len() && j < before.len() {
                        assert(entry_runtimes(before)[i] != entry_runtimes(before)[j]);
                    } else if i < before.len() {
                        assert(!p(before[i]));
                    } else {
                        assert(!p(before[j]));
                    }
                }
            }
            assert forall|other: ClawRuntime| other != runtime implies #[trigger] adapter_of(
                after,
                other,
            ) == adapter_of(before, other) by {
                let q = registered_as::<A>(other);
                lemma_first_where(before, q);
                let i = adapter_index(before, other);
                if i < before.len() {
                    assert(q(before[i]));
                    assert(i != at);
                    assert forall|j: int| 0 <= j < i implies !q(#[trigger] after[j]) by {
                        if j != at {
                            assert(after[j] == before[j]);
                        }
                    }
                    assert(after[i] == before[i]);
                    lemma_first_where_is(after, q, i);
                } else {
                    assert forall|j: int| 0 <= j < after.len() implies !q(#[trigger] after[j]) by {
                        if j < before.len() && j != at {
                            assert(after[j] == before[j]);
                        }
                    }
                    lemma_first_where_is(after, q, after.len() as int);
                }
            }
        }
        replaced
    }

    /// Registers an adapter for a runtime, in place of the adapter that the
    /// runtime had.
    pub fn register(&mut self, runtime: ClawRuntime, adapter: Arc<A>)
        requires
            old(self).wf(),
        ensures
            final(self).wf(),
            final(self)@ == with_adapter(old(self)@, runtime, adapter),
            adapter_of(final(self)@, runtime) == Some(adapter),
    {
        let _ = self.register_dynamic(runtime, adapter);
    }

    /// Takes the adapter of a runtime out. Says whether it had one.
    pub fn unregister(&mut self, runtime: &ClawRuntime) -> (existed: bool)
        requires
            old(self).wf(),
        ensures
            final(self).wf(),
            existed == (adapter_of(old(self)@, *runtime) is Some),
            final(self)@ == without_adapter(old(self)@, *runtime),
            adapter_of(final(self)@, *runtime) is None,
    {
        let ghost before = self.adapters@;
        let at = self.find(*runtime);
        if at < self.adapters.len() {
            self.adapters.remove(at);
            proof {
                let after = self.adapters@;
                let p = registered_as::<A>(*runtime);
                assert forall|i: int, j: int|
                    0 <= i < after.len() && 0 <= j < after.len() && i != j implies entry_runtimes(
                    after,
                )[i] != entry_runtimes(after)[j] by {
                    let a = if i < at { i } else { i + 1 };
                    let b = if j < at { j } else { j + 1 };
                    assert(entry_runtimes(before)[a] != entry_runtimes(before)[b]);
                }
                assert forall|j: int| 0 <= j < after.len() implies !p(#[trigger] after[j]) by {
                    let b = if j < at { j } else { j + 1 };
                    assert(entry_runtimes(before)[b] != entry_runtimes(before)[at as int]);
                }
                lemma_first_where_is(after, p, after.len() as int);
            }
            true
        } else {
            false
        }
    }

    /// The adapter of a runtime.
    pub fn get(&self, runtime: &ClawRuntime) -> (adapter: Option<Arc<A>>)
        ensures
            adapter == adapter_of(self@, *runtime),
    {
        let at = self.find(*runtime);
        if at < self.adapters.len() {
            Some(Arc::clone(&self.adapters[at].1))
        } else {
            None
        }
    }

    /// Says whether a runtime has an adapter.
    pub fn has(&self, runtime: &ClawRuntime) -> (yes: bool)
        ensures
            yes == (adapter_of(self@, *runtime) is Some),
    {
        self.find(*runtime) < self.adapters.len()
    }

    /// All entries, in the order in which their runtimes were registered.
    pub fn adapters_map(&self) -> (entries: Vec<(ClawRuntime, Arc<A>)>)
        ensures
            entries@ == self@,
    {
        let mut entries: Vec<(ClawRuntime, Arc<A>)> = Vec::new();
        let mut i: usize = 0;
        while i < self.adapters.len()
            invariant
                i <= self.adapters.len(),
                entries@ == self.adapters@.take(i as int),
            decreases self.adapters.len() - i,
        {
            entries.push((self.adapters[i].0, Arc::clone(&self.adapters[i].1)));
            assert(self.adapters@.take(i + 1) =~= self.adapters@.take(i as int).push(
                self.adapters@[i as int],
            ));
            i += 1;
        }
        assert(self.adapters@.take(i as int) =~= self.adapters@);
        entries
    }

    /// The registered runtimes, in the canonical order.
    pub fn list(&self) -> (runtimes: Vec<ClawRuntime>)
        ensures
            runtimes@ == canonical_order().filter(has_adapter(self@)),
    {
        let order = ClawRuntime::all();
        let ghost all = order@;
        let ghost p = has_adapter(self@);
        let mut runtimes: Vec<ClawRuntime> = Vec::new();
        let mut i: usize = 0;
        proof {
            lemma_filter_empty(all.take(0), p);
            assert(runtimes@ =~= all.take(0).filter(p));
        }
        while i < order.len()
            invariant
                i <= order.len(),
                all == order@,
                p == has_adapter(self@),
                runtimes@ == all.take(i as int).filter(p),
            decreases order.len() - i,
        {
            proof {
                lemma_filter_step(all, p, i as int);
            }
            if self.has(&order[i]) {
                runtimes.push(order[i]);
            }
            i += 1;
        }
        assert(all.take(i as int) =~= all);
        runtimes
    }

    /// What every adapter declares, in the order in which the runtimes were
    /// registered.
    pub fn detect_available(&self) -> (declarations: Vec<RuntimeMetadata>)
        ensures
            views(declarations@) == declared(self@),
    {
        let mut declarations: Vec<RuntimeMetadata> = Vec::new();
        let mut i: usize = 0;
        while i < self.adapters.len()
            invariant
                i <= self.adapters.len(),
                declarations@.len() == i,
                forall|k: int|
                    0 <= k < i ==> (#[trigger] declarations@[k])@
                        == self.adapters@[k].1.spec_metadata(),
            decreases self.adapters.len() - i,
        {
            declarations.push(self.adapters[i].1.metadata());
            i += 1;
        }
        assert(views(declarations@) =~= declared(self@));
        declarations
    }

    /// What every adapter declares, ordered by the canonical name of the
    /// runtime that the declaration names.
    pub fn list_metadata(&self) -> (declarations: Vec<RuntimeMetadata>)
        ensures
            views(declarations@) == by_runtime(declared(self@), canonical_order().len() as int),
    {
        let found = self.detect_available();
        let ghost all = views(found@);
        let order = ClawRuntime::all();
        let mut declarations: Vec<RuntimeMetadata> = Vec::new();
        let mut r: usize = 0;
        while r < order.len()
            invariant
                r <= order.len(),
                order@ == canonical_order(),
                all == views(found@),
                views(declarations@) == by_runtime(all, r as int),
            decreases order.len() - r,
        {
            let ghost before = views(declarations@);
            let ghost p = declared_by(order@[r as int]);
            let mut i: usize = 0;
            proof {
                lemma_filter_empty(all.take(0), p);
                assert(views(declarations@) =~= before + all.take(0).filter(p));
            }
            while i < found.len()
                invariant
                    i <= found.len(),
                    r < order.len(),
                    all == views(found@),
                    p == declared_by(order@[r as int]),
                    views(declarations@) == before + all.take(i as int).filter(p),
                decreases found.len() - i,
            {
                proof {
                    lemma_filter_step(all, p, i as int);
                }
                if found[i].runtime == order[r] {
                    let ghost so_far = views(declarations@);
                    declarations.push(found[i].clone());
                    assert(views(declarations@) =~= so_far.push(all[i as int]));
                }
                assert(views(declarations@) =~= before + all.take(i + 1).filter(p));
                i += 1;
            }
            assert(all.take(i as int) =~= all);
            r += 1;
        }
        declarations
    }

    /// A runtime whose adapter offers a capability: of several, the one
    /// that was registered first. Letters of either case are taken as the
    /// same.
    pub fn detect_runtime_for_capability(&self, capability: &str) -> (runtime: Option<
        ClawRuntime,
    >)
        ensures
            ({
                let at = first_where(self@, serves::<A>(capability@));
                match runtime {
                    Some(r) => at < self@.len() && r == self@[at].0,
                    None => at == self@.len(),
                }
            }),
    {
        let ghost p = serves::<A>(capability@);
        let mut i: usize = 0;
        while i < self.adapters.len()
            invariant
                i <= self.adapters.len(),
                p == serves::<A>(capability@),
                forall|j: int| 0 <= j < i ==> !p(#[trigger] self.adapters@[j]),
            decreases self.adapters.len() - i,
        {
            let declaration = self.adapters[i].1.metadata();
            if offers_capability(&declaration, capability) {
                proof {
                    assert(p(self.adapters@[i as int]));
                    lemma_first_where_is(self.adapters@, p, i as int);
                }
                return Some(self.adapters[i].0);
            }
            assert(!p(self.adapters@[i as int]));
            i += 1;
        }
        proof {
            lemma_first_where_is(self.adapters@, p, i as int);
        }
        None
    }
}

impl<A: ClawAdapter + ?Sized> Default for AdapterRegistry<A> {
    fn default() -> (registry: Self)
        ensures
            registry.wf(),
            registry@.len() == 0,
    {
        AdapterRegistry::new()
    }
}

} // verus!
