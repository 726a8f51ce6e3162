//! The state container: a registry of state slots, the mutation span that
//! makes writing to them legal, and the record of which slots were written
//! during the current invocation.
//!
//! Every registered state has a tag, a [`MistyStateId`], and a slot of the
//! application's slot type `S`, which is usually an enum with one variant for
//! each kind of state. A slot may be read at any time. It may be written only
//! while a mutation span is open, that is, while the depth counter is above
//! zero; each write adds the slot's tag to the touched set, from which the
//! view projector later decides which bindings to run.
use std::collections::HashMap;
use std::collections::HashSet;
use vstd::prelude::*;

verus! {

broadcast use vstd::std_specs::hash::group_hash_axioms;

/// Tag of a registered state.
#[derive(Debug, Clone, Copy, PartialEq, Eq, Hash, Structural)]
pub struct MistyStateId(pub u64);

impl MistyStateId {
    pub fn new(id: u64) -> (r: Self)
        ensures
            r.0 == id,
    {
        Self(id)
    }
}

/// The numbers behind a list of tags, as a set.
pub open spec fn tag_set(ids: Seq<MistyStateId>) -> Set<u64> {
    Set::new(|tag: u64| exists|i: int| 0 <= i < ids.len() && (#[trigger] ids[i]).0 == tag)
}

/// The registered slots, by tag.
pub struct States<S> {
    inner: HashMap<u64, S>,
}

impl<S> View for States<S> {
    type V = Map<u64, S>;

    closed spec fn view(&self) -> Map<u64, S> {
        self.inner@
    }
}

impl<S> States<S> {
    pub fn new() -> (r: Self)
        ensures
            r@ == Map::<u64, S>::empty(),
    {
        Self { inner: HashMap::new() }
    }

    /// Registers a state under `id` with its initial value. A state that was
    /// registered under the same tag before is replaced.
    pub fn register(&mut self, id: MistyStateId, initial: S)
        ensures
            final(self)@ == old(self)@.insert(id.0, initial),
    {
        self.inner.insert(id.0, initial);
    }

    pub fn contains(&self, id: MistyStateId) -> (b: bool)
        ensures
            b == self@.contains_key(id.0),
    {
        self.inner.contains_key(&id.0)
    }

    pub fn get(&self, id: MistyStateId) -> (slot: &S)
        requires
            self@.contains_key(id.0),
        ensures
            *slot == self@[id.0],
    {
        self.inner.get(&id.0).unwrap()
    }

    /// Whether every tag of `ids` is registered.
    pub fn contains_all(&self, ids: &Vec<MistyStateId>) -> (b: bool)
        ensures
            b == (forall|i: int| 0 <= i < ids@.len() ==> self@.contains_key((#[trigger] ids@[i]).0)),
    {
        let mut i: usize = 0;
        while i < ids.len()
            invariant
                i <= ids@.len(),
                forall|k: int| 0 <= k < i ==> self@.contains_key((#[trigger] ids@[k]).0),
            decreases ids@.len() - i,
        {
            if !self.inner.contains_key(&ids[i].0) {
                return false;
            }
            i = i + 1;
        }
        true
    }

    /// Puts `value` into the slot of `id`, which is registered, and hands
    /// out what was there.
    fn replace(&mut self, id: MistyStateId, value: S) -> (previous: S)
        requires
            old(self)@.contains_key(id.0),
        ensures
            previous == old(self)@[id.0],
            final(self)@ == old(self)@.insert(id.0, value),
    {
        self.inner.insert(id.0, value).unwrap()
    }

    /// Takes the slot of `id`, which is registered, out of the registry.
    fn take(&mut self, id: MistyStateId) -> (slot: S)
        requires
            old(self)@.contains_key(id.0),
        ensures
            slot == old(self)@[id.0],
            final(self)@ == old(self)@.remove(id.0),
    {
        self.inner.remove(&id.0).unwrap()
    }
}

/// Mathematical content of the state container.
#[verifier::ext_equal]
pub struct StateManagerView<S> {
    /// The registered slots.
    pub states: Map<u64, S>,
    /// The tags written since the touched set was last cleared.
    pub touched: Set<u64>,
    /// How many mutation spans are open, one inside the other.
    pub depth: nat,
}

impl<S> StateManagerView<S> {
    pub open spec fn can_update(self) -> bool {
        self.depth > 0
    }

    /// One more span is open.
    pub open spec fn entered(self) -> Self {
        StateManagerView { depth: self.depth + 1, ..self }
    }

    /// The innermost span is closed.
    pub open spec fn left(self) -> Self {
        StateManagerView { depth: (self.depth - 1) as nat, ..self }
    }

    /// Whether closing the innermost span closes the outermost one.
    pub open spec fn leaves_outermost(self) -> bool {
        self.depth == 1
    }

    /// `tag` is recorded as written.
    pub open spec fn marked(self, tag: u64) -> Self {
        StateManagerView { touched: self.touched.insert(tag), ..self }
    }

    /// The slot of `tag` holds `value`, and `tag` is recorded as written.
    pub open spec fn written(self, tag: u64, value: S) -> Self {
        StateManagerView {
            states: self.states.insert(tag, value),
            touched: self.touched.insert(tag),
            ..self
        }
    }

    /// Nothing is recorded as written.
    pub open spec fn cleared(self) -> Self {
        StateManagerView { touched: Set::empty(), ..self }
    }

    /// The bookkeeping is idle: no span is open and nothing is recorded as
    /// written. The slots are as they were.
    pub open spec fn idle(self) -> Self {
        StateManagerView { touched: Set::empty(), depth: 0, ..self }
    }

    /// Whether nothing is recorded as written.
    pub open spec fn nothing_touched(self) -> bool {
        self.touched =~= Set::<u64>::empty()
    }

    /// Whether one of `ids` is recorded as written.
    pub open spec fn touches(self, ids: Seq<MistyStateId>) -> bool {
        exists|i: int| 0 <= i < ids.len() && self.touched.contains((#[trigger] ids[i]).0)
    }

    /// Whether every tag of `ids` is registered.
    pub open spec fn covers(self, ids: Seq<MistyStateId>) -> bool {
        forall|i: int| 0 <= i < ids.len() ==> self.states.contains_key((#[trigger] ids[i]).0)
    }
}

pub struct MistyStateManager<S> {
    states: States<S>,
    updated_state: HashSet<u64>,
    depth: u32,
}

impl<S> View for MistyStateManager<S> {
    type V = StateManagerView<S>;

    closed spec fn view(&self) -> StateManagerView<S> {
        StateManagerView {
            states: self.states@,
            touched: self.updated_state@,
            depth: self.depth as nat,
        }
    }
}

impl<S> MistyStateManager<S> {
    /// A container over the registered slots, with no span open and nothing
    /// recorded as written.
    pub fn new(states: States<S>) -> (r: Self)
        ensures
            r@ == (StateManagerView { states: states@, touched: Set::empty(), depth: 0 }),
    {
        MistyStateManager { states, updated_state: HashSet::new(), depth: 0 }
    }

    pub fn states(&self) -> (states: &States<S>)
        ensures
            states@ == self@.states,
    {
        &self.states
    }

    /// The number of open spans.
    pub fn depth(&self) -> (d: u32)
        ensures
            d == self@.depth,
    {
        self.depth
    }

    /// Opens a mutation span inside the ones that are open.
    pub fn enter_mut_span(&mut self)
        requires
            old(self)@.depth < u32::MAX,
        ensures
            final(self)@ == old(self)@.entered(),
    {
        self.depth = self.depth + 1;
    }

    /// Closes the innermost span, and says whether it was the outermost one.
    pub fn leave_mut_span(&mut self) -> (is_depth_zero: bool)
        requires
            old(self)@.depth > 0,
        ensures
            final(self)@ == old(self)@.left(),
            is_depth_zero == old(self)@.leaves_outermost(),
    {
        self.depth = self.depth - 1;
        self.depth == 0
    }

    pub fn clear_updated_states(&mut self)
        ensures
            final(self)@ == old(self)@.cleared(),
    {
        self.updated_state.clear();
    }

    /// Brings the bookkeeping back to idle, whatever state it is in. The
    /// slots keep what was written to them.
    pub fn reset(&mut self)
        ensures
            final(self)@ == old(self)@.idle(),
    {
        self.updated_state.clear();
        self.depth = 0;
    }

    /// Whether a span is open, so that slots may be written.
    pub fn can_update(&self) -> (b: bool)
        ensures
            b == self@.can_update(),
    {
        self.depth > 0
    }

    pub fn add_update_state(&mut self, id: MistyStateId)
        ensures
            final(self)@ == old(self)@.marked(id.0),
    {
        self.updated_state.insert(id.0);
    }

    /// Whether one of `state_ids` was written since the touched set was last
    /// cleared.
    pub fn contains_updated_state(&self, state_ids: &Vec<MistyStateId>) -> (b: bool)
        ensures
            b == self@.touches(state_ids@),
    {
        let mut i: usize = 0;
        while i < state_ids.len()
            invariant
                i <= state_ids@.len(),
                forall|k: int| 0 <= k < i ==> !self@.touched.contains((#[trigger] state_ids@[k]).0),
            decreases state_ids@.len() - i,
        {
            if self.updated_state.contains(&state_ids[i].0) {
                return true;
            }
            i = i + 1;
        }
        false
    }

    /// Whether `id` is registered.
    pub fn is_registered(&self, id: MistyStateId) -> (b: bool)
        ensures
            b == self@.states.contains_key(id.0),
    {
        self.states.contains(id)
    }

    /// The slot of `id`.
    pub fn get(&self, id: MistyStateId) -> (slot: &S)
        requires
            self@.states.contains_key(id.0),
        ensures
            *slot == self@.states[id.0],
    {
        self.states.get(id)
    }

    /// Applies `func` to the slot of `id` and returns what it returns. No
    /// span is needed.
    pub fn read<R, F: FnOnce(&S) -> R>(&self, id: MistyStateId, func: F) -> (ret: R)
        requires
            self@.states.contains_key(id.0),
            call_requires(func, (&self@.states[id.0],)),
        ensures
            call_ensures(func, (&self@.states[id.0],), ret),
    {
        func(self.states.get(id))
    }

    /// Puts `value` into the slot of `id` and records the tag as written.
    /// Hands out what the slot held.
    pub fn set(&mut self, id: MistyStateId, value: S) -> (previous: S)
        requires
            old(self)@.can_update(),
            old(self)@.states.contains_key(id.0),
        ensures
            previous == old(self)@.states[id.0],
            final(self)@ == old(self)@.written(id.0, value),
    {
        self.updated_state.insert(id.0);
        self.states.replace(id, value)
    }

    /// Records the tag of `id` as written, applies `func` to its slot and
    /// returns what it returns. The slot holds afterwards what `func` left
    /// in it.
    pub fn update<R, F: FnOnce(&mut S) -> R>(&mut self, id: MistyStateId, func: F) -> (ret: R)
        requires
            old(self)@.can_update(),
            old(self)@.states.contains_key(id.0),
            forall|slot: &mut S|
                mut_ref_current(slot) == old(self)@.states[id.0] ==> call_requires(func, (slot,)),
        ensures
            exists|slot: &mut S|
                {
                    &&& mut_ref_current(slot) == old(self)@.states[id.0]
                    &&& call_ensures(func, (slot,), ret)
                    &&& final(self)@ == old(self)@.written(id.0, mut_ref_future(slot))
                },
    {
        self.updated_state.insert(id.0);
        let mut slot = self.states.take(id);
        let ret = func(&mut slot);
        self.states.register(id, slot);
        proof {
            assert(self@.states =~= old(self)@.states.insert(id.0, slot));
            assert(self@ =~= old(self)@.written(id.0, slot));
        }
        ret
    }
}

/// The flag of the scope guard that watches over one invocation. The guard
/// is armed when it is made and disarmed with [`Self::mark`] when the
/// invocation has come to its end in the ordinary way. What its owner does
/// when it lets go of the guard is [`Self::finish`].
pub struct GuardCleanupStatesForPanic {
    mark: bool,
}

impl GuardCleanupStatesForPanic {
    pub closed spec fn is_marked(&self) -> bool {
        self.mark
    }

    pub fn new() -> (r: GuardCleanupStatesForPanic)
        ensures
            !r.is_marked(),
    {
        GuardCleanupStatesForPanic { mark: false }
    }

    pub fn mark(&mut self)
        ensures
            final(self).is_marked(),
    {
        self.mark = true;
    }

    pub fn marked(&self) -> (b: bool)
        ensures
            b == self.is_marked(),
    {
        self.mark
    }

    /// Lets go of the guard. One that is still armed saw its invocation end
    /// out of the ordinary, and brings the bookkeeping back to idle; what was
    /// written to the slots stays written.
    pub fn finish<S>(self, state_manager: &mut MistyStateManager<S>)
        ensures
            final(state_manager)@ == if self.is_marked() {
                old(state_manager)@
            } else {
                old(state_manager)@.idle()
            },
    {
        if !self.mark {
            state_manager.reset();
        }
    }
}

/// After a reset no span is open and nothing is recorded as written, so the
/// next span that is opened is an outermost one, and it starts from an empty
/// touched set.
pub proof fn lemma_reset_makes_idle<S>(v: StateManagerView<S>)
    ensures
        v.idle().depth == 0,
        v.idle().touched == Set::<u64>::empty(),
        v.idle().states == v.states,
        v.idle().entered().leaves_outermost(),
        v.idle().entered().left() == v.idle(),
        forall|ids: Seq<MistyStateId>| !(#[trigger] v.idle().touches(ids)),
{
    assert(v.idle().entered().left() =~= v.idle());
}

/// Opening a span and closing it again leaves the bookkeeping as it was, and
/// closes the outermost span exactly when none was open before.
pub proof fn lemma_span_is_reentrant<S>(v: StateManagerView<S>)
    ensures
        v.entered().can_update(),
        v.entered().left() == v,
        v.entered().leaves_outermost() <==> v.depth == 0,
{
    assert(v.entered().left() =~= v);
}

/// A binding is due exactly when one of its dependencies was written.
pub proof fn lemma_touches_is_intersection<S>(v: StateManagerView<S>, ids: Seq<MistyStateId>)
    ensures
        v.touches(ids) <==> !v.touched.disjoint(tag_set(ids)),
{
    if v.touches(ids) {
        let i = choose|i: int| 0 <= i < ids.len() && v.touched.contains((#[trigger] ids[i]).0);
        assert(tag_set(ids).contains(ids[i].0));
    }
    if !v.touched.disjoint(tag_set(ids)) {
        let tag = choose|tag: u64| v.touched.contains(tag) && tag_set(ids).contains(tag);
        assert(v.touched.contains(tag) && tag_set(ids).contains(tag));
    }
}

} // verus!
