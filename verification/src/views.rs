//! The view projector: it derives the host-facing view from the state
//! container, and runs only the bindings whose dependencies were written.
//!
//! A binding declares the states that it reads and knows how to write what
//! it derives from them into the view. The projector starts from a default
//! view and walks the bindings in the order in which they were registered. A
//! binding one of whose dependencies is in the touched set gets the slots
//! that it declared, and those only, and changes the view in place, so that
//! a later binding sees what an earlier one wrote. A binding none of whose
//! dependencies was written is not run.
use crate::states::MistyStateId;
use crate::states::MistyStateManager;
use crate::states::StateManagerView;
use vstd::prelude::*;

verus! {

/// The slots behind a list of references.
pub open spec fn slots_of<S>(refs: Seq<&S>) -> Seq<S> {
    refs.map_values(|r: &S| *r)
}

/// The slots of the states `deps`, in that order.
pub open spec fn dep_slots<S>(states: Map<u64, S>, deps: Seq<MistyStateId>) -> Seq<S> {
    Seq::new(deps.len(), |k: int| states[deps[k].0])
}

/// A projection from states to the view `R`.
pub trait MistyViewModel<R, S>: Send + Sync {
    /// What the binding may do to the view, given the slots of its
    /// dependencies. A binding that says nothing may do anything.
    open spec fn projects(&self, states: Seq<S>, before: R, after: R) -> bool {
        true
    }

    /// Writes into `s` what the binding derives from `states`, the slots of
    /// its dependencies in the order in which they were declared.
    fn update(&self, states: &Vec<&S>, s: &mut R)
        ensures
            self.projects(slots_of(states@), *old(s), *final(s)),
    ;
}

/// A binding with the dependencies that it declared.
#[verifier::reject_recursive_types(R)]
#[verifier::reject_recursive_types(S)]
pub struct BoxedMistyViewModel<R, S> {
    deps: Vec<MistyStateId>,
    inner: Box<dyn MistyViewModel<R, S>>,
}

impl<R, S> BoxedMistyViewModel<R, S> {
    /// The states that the binding reads.
    pub closed spec fn deps(&self) -> Seq<MistyStateId> {
        self.deps@
    }

    /// What the binding may do to the view, given the slots of its
    /// dependencies.
    pub closed spec fn projects(&self, states: Seq<S>, before: R, after: R) -> bool {
        self.inner.projects(states, before, after)
    }

    /// One step of the projector: a binding that is due changes the view as
    /// it says, one that is not leaves it alone.
    pub open spec fn step(&self, cx: StateManagerView<S>, before: R, after: R) -> bool {
        if cx.touches(self.deps()) {
            self.projects(dep_slots(cx.states, self.deps()), before, after)
        } else {
            after == before
        }
    }

    pub fn new<T: MistyViewModel<R, S> + 'static>(deps: Vec<MistyStateId>, view_model: T) -> (r:
        Self)
        ensures
            r.deps() == deps@,
    {
        let inner: Box<dyn MistyViewModel<R, S>> = Box::new(view_model);
        BoxedMistyViewModel { deps, inner }
    }

    pub fn state_ids(&self) -> (ids: &Vec<MistyStateId>)
        ensures
            ids@ == self.deps(),
    {
        &self.deps
    }

    /// Whether the binding is due: one of its dependencies was written.
    pub fn should_update(&self, cx: &MistyStateManager<S>) -> (due: bool)
        ensures
            due == cx@.touches(self.deps()),
    {
        cx.contains_updated_state(&self.deps)
    }

    /// Runs the binding on the slots of its dependencies.
    pub fn update(&self, cx: &MistyStateManager<S>, s: &mut R)
        requires
            cx@.covers(self.deps()),
        ensures
            self.projects(dep_slots(cx@.states, self.deps()), *old(s), *final(s)),
    {
        let mut slots: Vec<&S> = Vec::new();
        let mut k: usize = 0;
        while k < self.deps.len()
            invariant
                k <= self.deps@.len(),
                cx@.covers(self.deps@),
                slots@.len() == k,
                forall|j: int| 0 <= j < k ==> *(#[trigger] slots@[j]) == cx@.states[self.deps@[j].0],
            decreases self.deps@.len() - k,
        {
            let slot = cx.get(self.deps[k]);
            slots.push(slot);
            k = k + 1;
        }
        proof {
            assert(slots_of(slots@) =~= dep_slots(cx@.states, self.deps()));
        }
        self.inner.update(&slots, s);
    }
}

/// Every state that a binding reads is registered.
pub open spec fn bindings_covered<R, S>(
    bindings: Seq<BoxedMistyViewModel<R, S>>,
    states: Map<u64, S>,
) -> bool {
    forall|i: int, k: int|
        0 <= i < bindings.len() && 0 <= k < bindings[i].deps().len() ==> states.contains_key(
            (#[trigger] bindings[i].deps()[k]).0,
        )
}

/// `trace` holds the view before the first binding and after each binding:
/// it starts from a default view, and every binding makes its step on what
/// the one before it left.
pub open spec fn is_projection<R: Default, S>(
    bindings: Seq<BoxedMistyViewModel<R, S>>,
    cx: StateManagerView<S>,
    trace: Seq<R>,
) -> bool {
    &&& trace.len() == bindings.len() + 1
    &&& call_ensures(R::default, (), trace[0])
    &&& forall|i: int|
        0 <= i < bindings.len() ==> (#[trigger] bindings[i]).step(cx, trace[i], trace[i + 1])
}

/// `view` is what the bindings make of a default view, given what was
/// written.
pub open spec fn is_view_of<R: Default, S>(
    bindings: Seq<BoxedMistyViewModel<R, S>>,
    cx: StateManagerView<S>,
    view: R,
) -> bool {
    exists|trace: Seq<R>| #[trigger] is_projection(bindings, cx, trace) && view == trace.last()
}

/// The bindings of a projector, while they are being registered.
#[verifier::reject_recursive_types(R)]
#[verifier::reject_recursive_types(S)]
pub struct MistyViewModelManagerBuilder<R, S> {
    models: Vec<BoxedMistyViewModel<R, S>>,
}

/// The bindings of a projector, in the order of registration.
#[verifier::reject_recursive_types(R)]
#[verifier::reject_recursive_types(S)]
pub struct MistyViewModelManager<R, S> {
    models: Vec<BoxedMistyViewModel<R, S>>,
}

impl<R, S> View for MistyViewModelManagerBuilder<R, S> {
    type V = Seq<BoxedMistyViewModel<R, S>>;

    closed spec fn view(&self) -> Seq<BoxedMistyViewModel<R, S>> {
        self.models@
    }
}

impl<R, S> View for MistyViewModelManager<R, S> {
    type V = Seq<BoxedMistyViewModel<R, S>>;

    closed spec fn view(&self) -> Seq<BoxedMistyViewModel<R, S>> {
        self.models@
    }
}

impl<R, S> MistyViewModelManagerBuilder<R, S> {
    pub fn new() -> (r: Self)
        ensures
            r@.len() == 0,
    {
        MistyViewModelManagerBuilder { models: Vec::new() }
    }

    /// Registers `view_model` over the states `deps`, after the bindings
    /// that were registered before.
    pub fn register<V: MistyViewModel<R, S> + 'static>(
        self,
        deps: Vec<MistyStateId>,
        view_model: V,
    ) -> (r: Self)
        ensures
            r@.len() == self@.len() + 1,
            r@.drop_last() == self@,
            r@.last().deps() == deps@,
    {
        let mut builder = self;
        let model = BoxedMistyViewModel::new(deps, view_model);
        builder.models.push(model);
        proof {
            assert(builder.models@.drop_last() =~= self.models@);
        }
        builder
    }

    pub fn build(self) -> (r: MistyViewModelManager<R, S>)
        ensures
            r@ == self@,
    {
        MistyViewModelManager { models: self.models }
    }
}

impl<R, S> MistyViewModelManager<R, S> {
    pub fn builder() -> (r: MistyViewModelManagerBuilder<R, S>)
        ensures
            r@.len() == 0,
    {
        MistyViewModelManagerBuilder::new()
    }

    /// The number of bindings.
    pub fn len(&self) -> (n: usize)
        ensures
            n == self@.len(),
    {
        self.models.len()
    }

    /// Every state that a binding reads is registered.
    pub open spec fn covered_by(&self, states: Map<u64, S>) -> bool {
        bindings_covered(self@, states)
    }

    /// Whether every state that a binding reads is registered in `cx`.
    pub fn is_covered_by(&self, cx: &MistyStateManager<S>) -> (b: bool)
        ensures
            b == self.covered_by(cx@.states),
    {
        let mut i: usize = 0;
        while i < self.models.len()
            invariant
                i <= self@.len(),
                forall|j: int, k: int|
                    0 <= j < i && 0 <= k < self@[j].deps().len() ==> cx@.states.contains_key(
                        (#[trigger] self@[j].deps()[k]).0,
                    ),
            decreases self@.len() - i,
        {
            if !cx.states().contains_all(self.models[i].state_ids()) {
                proof {
                    let ids = self@[i as int].deps();
                    let k = choose|k: int|
                        0 <= k < ids.len() && !cx@.states.contains_key((#[trigger] ids[k]).0);
                    assert(!cx@.states.contains_key((self@[i as int].deps()[k]).0));
                }
                return false;
            }
            i = i + 1;
        }
        true
    }
}

impl<R: Default, S> MistyViewModelManager<R, S> {
    /// Builds the view: a default view on which every binding that is due
    /// has worked, in the order of registration.
    pub fn build_view(&self, cx: &MistyStateManager<S>) -> (view: R)
        requires
            self.covered_by(cx@.states),
        ensures
            is_view_of(self@, cx@, view),
    {
        let mut s = R::default();
        let ghost mut trace: Seq<R> = seq![s];
        let mut i: usize = 0;
        while i < self.models.len()
            invariant
                i <= self@.len(),
                self.covered_by(cx@.states),
                trace.len() == i + 1,
                call_ensures(R::default, (), trace[0]),
                trace.last() == s,
                forall|j: int| 0 <= j < i ==> (#[trigger] self@[j]).step(cx@, trace[j], trace[j + 1]),
            decreases self@.len() - i,
        {
            let ghost before = s;
            let model = &self.models[i];
            if model.should_update(cx) {
                proof {
                    assert forall|k: int| 0 <= k < model.deps().len() implies cx@.states.contains_key(
                        (#[trigger] model.deps()[k]).0,
                    ) by {
                        assert(cx@.states.contains_key((self@[i as int].deps()[k]).0));
                    }
                }
                model.update(cx, &mut s);
            }
            proof {
                let longer = trace.push(s);
                assert forall|j: int| 0 <= j < i + 1 implies (#[trigger] self@[j]).step(
                    cx@,
                    longer[j],
                    longer[j + 1],
                ) by {
                    if j < i {
                        assert(longer[j] == trace[j]);
                        assert(longer[j + 1] == trace[j + 1]);
                    } else {
                        assert(longer[j] == before);
                        assert(longer[j + 1] == s);
                    }
                }
                trace = longer;
            }
            i = i + 1;
        }
        proof {
            assert(is_projection(self@, cx@, trace));
        }
        s
    }
}

/// A binding none of whose dependencies was written is not run: the view
/// after its step is the view before it.
pub proof fn lemma_untouched_binding_is_skipped<R: Default, S>(
    bindings: Seq<BoxedMistyViewModel<R, S>>,
    cx: StateManagerView<S>,
    trace: Seq<R>,
    i: int,
)
    requires
        is_projection(bindings, cx, trace),
        0 <= i < bindings.len(),
        !cx.touches(bindings[i].deps()),
    ensures
        trace[i + 1] == trace[i],
{
    assert(bindings[i].step(cx, trace[i], trace[i + 1]));
}

/// A binding is skipped whenever the touched set and its dependencies have
/// no tag in common, whatever else was written.
pub proof fn lemma_disjoint_binding_is_skipped<R: Default, S>(
    bindings: Seq<BoxedMistyViewModel<R, S>>,
    cx: StateManagerView<S>,
    trace: Seq<R>,
    i: int,
)
    requires
        is_projection(bindings, cx, trace),
        0 <= i < bindings.len(),
        forall|k: int|
            0 <= k < bindings[i].deps().len() ==> !cx.touched.contains(
                (#[trigger] bindings[i].deps()[k]).0,
            ),
    ensures
        !cx.touches(bindings[i].deps()),
        trace[i + 1] == trace[i],
{
    assert(bindings[i].step(cx, trace[i], trace[i + 1]));
}

/// Where nothing was written no binding runs, and the view is the default
/// view from which the projector started.
pub proof fn lemma_nothing_touched_gives_default<R: Default, S>(
    bindings: Seq<BoxedMistyViewModel<R, S>>,
    cx: StateManagerView<S>,
    trace: Seq<R>,
)
    requires
        is_projection(bindings, cx, trace),
        cx.touched == Set::<u64>::empty(),
    ensures
        trace.last() == trace[0],
        call_ensures(R::default, (), trace.last()),
{
    lemma_trace_is_constant(bindings, cx, trace, bindings.len() as int);
}

proof fn lemma_trace_is_constant<R: Default, S>(
    bindings: Seq<BoxedMistyViewModel<R, S>>,
    cx: StateManagerView<S>,
    trace: Seq<R>,
    upto: int,
)
    requires
        is_projection(bindings, cx, trace),
        cx.touched == Set::<u64>::empty(),
        0 <= upto <= bindings.len(),
    ensures
        trace[upto] == trace[0],
    decreases upto,
{
    if upto > 0 {
        lemma_trace_is_constant(bindings, cx, trace, upto - 1);
        assert(bindings[upto - 1].step(cx, trace[upto - 1], trace[upto - 1 + 1]));
    }
}

} // verus!
