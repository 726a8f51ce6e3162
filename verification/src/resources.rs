//! Reference-counted ledger of binary resources.
//!
//! A resource is an immutable byte buffer with a numeric id that is never
//! handed out twice. The ledger counts the handles that exist for each
//! resource and records, per id, the net change since the last harvest: an
//! `Insert` for a resource that appeared, a `Remove` for one whose last handle
//! was released. An `Insert` that has not been harvested yet is cancelled by
//! the release of the last handle, so that a resource which came and went
//! between two harvests leaves no trace in either.
//!
//! Handles are released explicitly with [`MistyResourceManager::release`]; the
//! ledger itself never keeps a resource alive.
use std::collections::HashMap;
use vstd::prelude::*;
use vstd::std_specs::iter::IteratorSpec;

verus! {

broadcast use vstd::std_specs::hash::group_hash_axioms;

/// Identifier of a resource. `0` is reserved for "no resource".
#[derive(Clone, Copy, Debug, PartialEq, Eq, Hash, Structural)]
pub struct MistyResourceId(pub u64);

impl MistyResourceId {
    pub fn wrap(id: u64) -> (r: Self)
        ensures
            r.0 == id,
    {
        Self(id)
    }

    pub fn invalid() -> (r: Self)
        ensures
            r.0 == 0,
    {
        Self(0)
    }

    /// The number behind the identifier.
    pub fn value(&self) -> (v: u64)
        ensures
            v == self.0,
    {
        self.0
    }

    /// Whether this is anything but the reserved "no resource" identifier.
    pub fn is_valid(&self) -> (b: bool)
        ensures
            b == (self.0 != 0),
    {
        self.0 != 0
    }
}

impl Default for MistyResourceId {
    fn default() -> (r: Self)
        ensures
            r.0 == 0,
    {
        Self::invalid()
    }
}

/// What a harvest reports about one resource.
pub enum ResourceUpdateAction {
    Insert(MistyResourceId, Vec<u8>),
    Remove(MistyResourceId),
}

/// Mathematical content of a [`ResourceUpdateAction`].
pub enum ResourceUpdate {
    Insert(u64, Seq<u8>),
    Remove(u64),
}

impl ResourceUpdate {
    pub open spec fn id(self) -> u64 {
        match self {
            ResourceUpdate::Insert(id, _) => id,
            ResourceUpdate::Remove(id) => id,
        }
    }
}

impl View for ResourceUpdateAction {
    type V = ResourceUpdate;

    open spec fn view(&self) -> ResourceUpdate {
        match self {
            ResourceUpdateAction::Insert(id, buf) => ResourceUpdate::Insert(id.0, buf@),
            ResourceUpdateAction::Remove(id) => ResourceUpdate::Remove(id.0),
        }
    }
}

impl ResourceUpdateAction {
    /// The resource that the action is about.
    pub fn id(&self) -> (id: MistyResourceId)
        ensures
            id.0 == self@.id(),
    {
        match self {
            ResourceUpdateAction::Insert(id, _) => *id,
            ResourceUpdateAction::Remove(id) => *id,
        }
    }

    pub fn is_insert(&self) -> (b: bool)
        ensures
            b == (self@ is Insert),
    {
        match self {
            ResourceUpdateAction::Insert(_, _) => true,
            ResourceUpdateAction::Remove(_) => false,
        }
    }
}

/// The contents of a batch of actions, in order.
pub open spec fn action_views(actions: Seq<ResourceUpdateAction>) -> Seq<ResourceUpdate> {
    actions.map_values(|a: ResourceUpdateAction| a@)
}

/// The change that is waiting for the next harvest, for one id.
#[derive(Clone, Copy, Debug, PartialEq, Eq, Structural)]
pub enum ToFlushResourceAction {
    Insert,
    Remove,
}

/// A resource that has at least one handle.
pub struct LiveResource {
    pub bytes: Seq<u8>,
    pub refs: nat,
}

/// Mathematical content of the ledger.
#[verifier::ext_equal]
pub struct LedgerView {
    /// The id that the next insertion gets.
    pub next_id: nat,
    /// The resources that have a handle, with the number of their handles.
    pub live: Map<u64, LiveResource>,
    /// The net change since the last harvest.
    pub pending: Map<u64, ToFlushResourceAction>,
}

impl LedgerView {
    pub open spec fn initial() -> LedgerView {
        LedgerView { next_id: 1, live: Map::empty(), pending: Map::empty() }
    }

    pub open spec fn wf(self) -> bool {
        &&& 1 <= self.next_id <= u64::MAX
        &&& self.live.dom().finite()
        &&& self.pending.dom().finite()
        &&& forall|id: u64| #[trigger]
            self.live.contains_key(id) ==> 1 <= id < self.next_id && self.live[id].refs >= 1
        &&& forall|id: u64| #[trigger] self.pending.contains_key(id) ==> 1 <= id < self.next_id
        &&& forall|id: u64| #[trigger]
            self.pending.contains_key(id) ==> (self.pending[id] == ToFlushResourceAction::Insert
                <==> self.live.contains_key(id))
    }

    /// A new resource with one handle and a pending `Insert`.
    pub open spec fn inserted(self, bytes: Seq<u8>) -> LedgerView {
        let id = self.next_id as u64;
        LedgerView {
            next_id: self.next_id + 1,
            live: self.live.insert(id, LiveResource { bytes, refs: 1 }),
            pending: self.pending.insert(id, ToFlushResourceAction::Insert),
        }
    }

    /// One more handle for `id`, if it is live.
    pub open spec fn acquired(self, id: u64) -> LedgerView {
        if self.live.contains_key(id) {
            LedgerView {
                live: self.live.insert(
                    id,
                    LiveResource { bytes: self.live[id].bytes, refs: self.live[id].refs + 1 },
                ),
                ..self
            }
        } else {
            self
        }
    }

    /// One handle less for `id`. The last one takes the resource out of the
    /// ledger, and either cancels its pending `Insert` or records a `Remove`.
    pub open spec fn released(self, id: u64) -> LedgerView {
        if !self.live.contains_key(id) {
            self
        } else if self.live[id].refs > 1 {
            LedgerView {
                live: self.live.insert(
                    id,
                    LiveResource {
                        bytes: self.live[id].bytes,
                        refs: (self.live[id].refs - 1) as nat,
                    },
                ),
                ..self
            }
        } else {
            LedgerView {
                live: self.live.remove(id),
                pending: if self.pending.contains_key(id) {
                    self.pending.remove(id)
                } else {
                    self.pending.insert(id, ToFlushResourceAction::Remove)
                },
                ..self
            }
        }
    }

    /// The ledger after a harvest: nothing is pending.
    pub open spec fn harvested(self) -> LedgerView {
        LedgerView { pending: Map::empty(), ..self }
    }

    /// What a harvest reports for `id`, which has a pending change.
    pub open spec fn pending_update(self, id: u64) -> ResourceUpdate {
        match self.pending[id] {
            ToFlushResourceAction::Insert => ResourceUpdate::Insert(id, self.live[id].bytes),
            ToFlushResourceAction::Remove => ResourceUpdate::Remove(id),
        }
    }

    /// `actions` is a harvest of this ledger: one action for each id with a
    /// pending change, and no other. The order is not fixed.
    pub open spec fn is_harvest(self, actions: Seq<ResourceUpdate>) -> bool {
        &&& actions.len() == self.pending.dom().len()
        &&& forall|i: int|
            0 <= i < actions.len() ==> self.pending.contains_key(#[trigger] actions[i].id())
                && actions[i] == self.pending_update(actions[i].id())
        &&& forall|i: int, j: int|
            0 <= i < j < actions.len() ==> #[trigger] actions[i].id() != #[trigger] actions[j].id()
        &&& forall|id: u64| #[trigger]
            self.pending.contains_key(id) ==> exists|i: int|
                0 <= i < actions.len() && #[trigger] actions[i].id() == id
    }
}

/// Every operation keeps the ledger well formed.
pub proof fn lemma_ledger_steps_keep_wf(ledger: LedgerView, bytes: Seq<u8>, id: u64)
    requires
        ledger.wf(),
    ensures
        ledger.next_id < u64::MAX ==> ledger.inserted(bytes).wf(),
        ledger.acquired(id).wf(),
        ledger.released(id).wf(),
        ledger.harvested().wf(),
{
    assert(ledger.harvested().pending.dom() =~= Set::empty());
}

/// An id is handed out once: the resource that an insertion creates is
/// neither live nor pending before, and every later insertion gets a larger
/// id.
pub proof fn lemma_insert_takes_fresh_id(ledger: LedgerView, bytes: Seq<u8>)
    requires
        ledger.wf(),
        ledger.next_id < u64::MAX,
    ensures
        !ledger.live.contains_key(ledger.next_id as u64),
        !ledger.pending.contains_key(ledger.next_id as u64),
        ledger.inserted(bytes).next_id > ledger.next_id,
{
}

/// A resource that is inserted and loses its only handle before the next
/// harvest cancels out: the ledger is as if it had never been there, but for
/// the id that it used, and the next harvest has no action for it.
pub proof fn lemma_insert_then_release_cancels(
    ledger: LedgerView,
    bytes: Seq<u8>,
    actions: Seq<ResourceUpdate>,
)
    requires
        ledger.wf(),
        ledger.next_id < u64::MAX,
        ledger.inserted(bytes).released(ledger.next_id as u64).is_harvest(actions),
    ensures
        ledger.inserted(bytes).released(ledger.next_id as u64) == (LedgerView {
            next_id: ledger.next_id + 1,
            ..ledger
        }),
        forall|i: int| 0 <= i < actions.len() ==> (#[trigger] actions[i]).id() != ledger.next_id,
{
    let id = ledger.next_id as u64;
    let after = ledger.inserted(bytes).released(id);
    assert(after.live =~= ledger.live);
    assert(after.pending =~= ledger.pending);
    assert(after =~= LedgerView { next_id: ledger.next_id + 1, ..ledger });
    assert forall|i: int| 0 <= i < actions.len() implies (#[trigger] actions[i]).id()
        != ledger.next_id by {
        assert(after.pending.contains_key(actions[i].id()));
    }
}

/// A resource that is inserted, harvested and then loses its last handle is
/// reported by the next harvest with exactly one action, a `Remove`.
pub proof fn lemma_release_after_harvest_removes(
    ledger: LedgerView,
    bytes: Seq<u8>,
    actions: Seq<ResourceUpdate>,
)
    requires
        ledger.wf(),
        ledger.next_id < u64::MAX,
        ledger.inserted(bytes).harvested().released(ledger.next_id as u64).is_harvest(actions),
    ensures
        actions == seq![ResourceUpdate::Remove(ledger.next_id as u64)],
{
    let id = ledger.next_id as u64;
    let after = ledger.inserted(bytes).harvested().released(id);
    assert(after.pending =~= Map::<u64, ToFlushResourceAction>::empty().insert(
        id,
        ToFlushResourceAction::Remove,
    ));
    assert(after.pending.dom() =~= set![id]);
    assert(actions.len() == 1);
    assert(after.pending.contains_key(actions[0].id()));
    assert(actions[0] == after.pending_update(id));
    assert(actions =~= seq![ResourceUpdate::Remove(id)]);
}

/// The first harvest after an insertion reports the `Insert`, with the bytes
/// that were stored.
pub proof fn lemma_harvest_reports_insert(
    ledger: LedgerView,
    bytes: Seq<u8>,
    actions: Seq<ResourceUpdate>,
)
    requires
        ledger.wf(),
        ledger.next_id < u64::MAX,
        ledger.inserted(bytes).is_harvest(actions),
    ensures
        exists|i: int|
            0 <= i < actions.len() && #[trigger] actions[i] == ResourceUpdate::Insert(
                ledger.next_id as u64,
                bytes,
            ),
{
    let id = ledger.next_id as u64;
    let after = ledger.inserted(bytes);
    assert(after.pending.contains_key(id));
    let i = choose|i: int| 0 <= i < actions.len() && #[trigger] actions[i].id() == id;
    assert(actions[i] == after.pending_update(actions[i].id()));
}

/// What a host holds after it has applied a batch of actions, one after the
/// other, to what it held before.
pub open spec fn host_after(host: Map<u64, Seq<u8>>, actions: Seq<ResourceUpdate>) -> Map<
    u64,
    Seq<u8>,
>
    decreases actions.len(),
{
    if actions.len() == 0 {
        host
    } else {
        let before = host_after(host, actions.drop_last());
        match actions.last() {
            ResourceUpdate::Insert(id, bytes) => before.insert(id, bytes),
            ResourceUpdate::Remove(id) => before.remove(id),
        }
    }
}

impl LedgerView {
    /// The live resources with their bytes.
    pub open spec fn live_bytes(self) -> Map<u64, Seq<u8>> {
        Map::new(|id: u64| self.live.contains_key(id), |id: u64| self.live[id].bytes)
    }

    /// `host` is what a host holds that has applied every harvest so far:
    /// the live resources but for those whose `Insert` is still pending, and
    /// the resources whose `Remove` is still pending.
    pub open spec fn in_sync_with(self, host: Map<u64, Seq<u8>>) -> bool {
        &&& forall|id: u64| #[trigger]
            host.contains_key(id) <==> if self.pending.contains_key(id) {
                self.pending[id] == ToFlushResourceAction::Remove
            } else {
                self.live.contains_key(id)
            }
        &&& forall|id: u64|
            host.contains_key(id) && #[trigger] self.live.contains_key(id) ==> host[id]
                == self.live[id].bytes
    }
}

/// Whether one of the first `upto` actions is about the resource `id`.
spec fn reported(actions: Seq<ResourceUpdate>, upto: int, id: u64) -> bool {
    exists|i: int| 0 <= i < upto && #[trigger] actions[i].id() == id
}

/// Whether two hosts hold the same of the resource `id`.
spec fn same_at(one: Map<u64, Seq<u8>>, other: Map<u64, Seq<u8>>, id: u64) -> bool {
    &&& one.contains_key(id) <==> other.contains_key(id)
    &&& one.contains_key(id) ==> one[id] == other[id]
}

/// A host that has applied the first `upto` actions of a harvest holds, of
/// a resource that one of them is about, what is live, and of every other
/// resource what it held before.
spec fn settled(
    ledger: LedgerView,
    host: Map<u64, Seq<u8>>,
    actions: Seq<ResourceUpdate>,
    upto: int,
    id: u64,
) -> bool {
    if reported(actions, upto, id) {
        same_at(host_after(host, actions.take(upto)), ledger.live_bytes(), id)
    } else {
        same_at(host_after(host, actions.take(upto)), host, id)
    }
}

proof fn lemma_host_after_prefix(
    ledger: LedgerView,
    host: Map<u64, Seq<u8>>,
    actions: Seq<ResourceUpdate>,
    upto: int,
)
    requires
        ledger.wf(),
        ledger.is_harvest(actions),
        0 <= upto <= actions.len(),
    ensures
        forall|id: u64| #[trigger] settled(ledger, host, actions, upto, id),
    decreases upto,
{
    let prefix = actions.take(upto);
    if upto == 0 {
        assert(prefix.len() == 0);
        assert forall|id: u64| #[trigger] settled(ledger, host, actions, upto, id) by {
            assert(!reported(actions, upto, id));
        }
    } else {
        lemma_host_after_prefix(ledger, host, actions, upto - 1);
        let shorter = actions.take(upto - 1);
        assert(prefix.drop_last() =~= shorter);
        assert(prefix.last() == actions[upto - 1]);
        let last = actions[upto - 1];
        let before = host_after(host, shorter);
        let after = host_after(host, prefix);
        assert(ledger.pending.contains_key(last.id()));
        assert(last == ledger.pending_update(last.id()));
        assert forall|id: u64| #[trigger] settled(ledger, host, actions, upto, id) by {
            assert(settled(ledger, host, actions, upto - 1, id));
            if id == last.id() {
                assert(actions[upto - 1].id() == id);
                assert(reported(actions, upto, id));
            } else {
                if reported(actions, upto, id) {
                    let i = choose|i: int| 0 <= i < upto && #[trigger] actions[i].id() == id;
                    assert(0 <= i < upto - 1 && actions[i].id() == id);
                    assert(reported(actions, upto - 1, id));
                }
                if reported(actions, upto - 1, id) {
                    let i = choose|i: int| 0 <= i < upto - 1 && #[trigger] actions[i].id() == id;
                    assert(0 <= i < upto && actions[i].id() == id);
                    assert(reported(actions, upto, id));
                }
                assert(same_at(after, before, id));
            }
        }
    }
}

/// The ledger reports the net change and nothing else: a host that was in
/// step with the ledger, and that applies a harvest, holds exactly the
/// resources that are live, with their bytes. It is then in step with the
/// ledger after the harvest.
pub proof fn lemma_harvest_brings_host_in_step(
    ledger: LedgerView,
    host: Map<u64, Seq<u8>>,
    actions: Seq<ResourceUpdate>,
)
    requires
        ledger.wf(),
        ledger.in_sync_with(host),
        ledger.is_harvest(actions),
    ensures
        host_after(host, actions) == ledger.live_bytes(),
        ledger.harvested().in_sync_with(host_after(host, actions)),
{
    let n = actions.len() as int;
    lemma_host_after_prefix(ledger, host, actions, n);
    assert(actions.take(n) =~= actions);
    let after = host_after(host, actions);
    assert forall|id: u64| same_at(after, ledger.live_bytes(), id) by {
        assert(settled(ledger, host, actions, n, id));
        if ledger.pending.contains_key(id) {
            let i = choose|i: int| 0 <= i < actions.len() && #[trigger] actions[i].id() == id;
            assert(0 <= i < n && actions[i].id() == id);
            assert(reported(actions, n, id));
        } else {
            if reported(actions, n, id) {
                let i = choose|i: int| 0 <= i < n && #[trigger] actions[i].id() == id;
                assert(ledger.pending.contains_key(actions[i].id()));
            }
            assert(!reported(actions, n, id));
            assert(host.contains_key(id) <==> ledger.live.contains_key(id));
            if host.contains_key(id) {
                assert(ledger.live.contains_key(id));
            }
        }
    }
    assert(after =~= ledger.live_bytes()) by {
        assert forall|id: u64| after.contains_key(id) <==> ledger.live_bytes().contains_key(
            id,
        ) by {
            assert(same_at(after, ledger.live_bytes(), id));
        }
        assert forall|id: u64| #[trigger] after.contains_key(id) implies after[id]
            == ledger.live_bytes()[id] by {
            assert(same_at(after, ledger.live_bytes(), id));
        }
    }
}

/// Between two harvests the host holds what it held: inserting, taking
/// another handle and releasing a handle keep the ledger in step with a
/// host that changes nothing.
pub proof fn lemma_ledger_steps_keep_host_in_step(
    ledger: LedgerView,
    host: Map<u64, Seq<u8>>,
    bytes: Seq<u8>,
    id: u64,
)
    requires
        ledger.wf(),
        ledger.in_sync_with(host),
    ensures
        ledger.next_id < u64::MAX ==> ledger.inserted(bytes).in_sync_with(host),
        ledger.acquired(id).in_sync_with(host),
        ledger.released(id).in_sync_with(host),
{
    if ledger.next_id < u64::MAX {
        let after = ledger.inserted(bytes);
        assert(!host.contains_key(ledger.next_id as u64));
        assert(after.in_sync_with(host));
    }
    assert(ledger.acquired(id).in_sync_with(host));
    assert(ledger.released(id).in_sync_with(host));
}

/// Mathematical content of a handle.
pub struct HandleView {
    pub id: u64,
    pub bytes: Seq<u8>,
}

/// One reference to a live resource. It is given back to the ledger with
/// [`MistyResourceManager::release`], and copied with
/// [`MistyResourceManager::get_handle`]. A handle that is thrown away
/// without being given back keeps its resource live.
#[derive(Debug)]
pub struct MistyResourceHandle {
    id: MistyResourceId,
    buf: Vec<u8>,
}

impl View for MistyResourceHandle {
    type V = HandleView;

    closed spec fn view(&self) -> HandleView {
        HandleView { id: self.id.0, bytes: self.buf@ }
    }
}

impl MistyResourceHandle {
    pub fn id(&self) -> (id: MistyResourceId)
        ensures
            id.0 == self@.id,
    {
        self.id
    }

    pub fn load(&self) -> (buf: &Vec<u8>)
        ensures
            buf@ == self@.bytes,
    {
        &self.buf
    }
}

struct ResourceSlot {
    buf: Vec<u8>,
    refs: u64,
}

pub struct MistyResourceManager {
    next_id: u64,
    live: HashMap<u64, ResourceSlot>,
    pending: HashMap<u64, ToFlushResourceAction>,
}

impl View for MistyResourceManager {
    type V = LedgerView;

    closed spec fn view(&self) -> LedgerView {
        LedgerView {
            next_id: self.next_id as nat,
            live: Map::new(
                |id: u64| self.live@.contains_key(id),
                |id: u64|
                    LiveResource { bytes: self.live@[id].buf@, refs: self.live@[id].refs as nat },
            ),
            pending: self.pending@,
        }
    }
}

fn clone_bytes(buf: &Vec<u8>) -> (copy: Vec<u8>)
    ensures
        copy@ == buf@,
{
    let copy = buf.clone();
    assert(copy@ =~= buf@);
    copy
}

impl MistyResourceManager {
    /// The ledger's invariant: ids below the counter, at least one handle for
    /// each live resource, and a pending `Insert` exactly for the pending ids
    /// that are live.
    pub open spec fn wf(&self) -> bool {
        self@.wf()
    }

    pub fn new() -> (r: Self)
        ensures
            r.wf(),
            r@ == LedgerView::initial(),
    {
        let r = Self { next_id: 1, live: HashMap::new(), pending: HashMap::new() };
        assert(r@.live =~= Map::empty());
        assert(r@.pending =~= Map::empty());
        r
    }

    /// Whether another resource can still get an id.
    pub fn has_free_id(&self) -> (b: bool)
        ensures
            b == (self@.next_id < u64::MAX),
    {
        self.next_id < u64::MAX
    }

    /// The number of handles that exist for `id`; `0` if it is not live.
    pub fn ref_count(&self, id: MistyResourceId) -> (n: u64)
        ensures
            n == if self@.live.contains_key(id.0) {
                self@.live[id.0].refs
            } else {
                0
            },
    {
        match self.live.get(&id.0) {
            Some(slot) => slot.refs,
            None => 0,
        }
    }

    /// Whether a change is waiting for the next harvest, and which.
    pub fn pending_action(&self, id: MistyResourceId) -> (a: Option<ToFlushResourceAction>)
        ensures
            a == if self@.pending.contains_key(id.0) {
                Some(self@.pending[id.0])
            } else {
                None
            },
    {
        match self.pending.get(&id.0) {
            Some(a) => Some(*a),
            None => None,
        }
    }

    /// Stores `buf` under a new id, records a pending `Insert`, and returns
    /// the first handle.
    pub fn insert(&mut self, buf: Vec<u8>) -> (handle: MistyResourceHandle)
        requires
            old(self).wf(),
            old(self)@.next_id < u64::MAX,
        ensures
            final(self).wf(),
            final(self)@ == old(self)@.inserted(buf@),
            handle@.id == old(self)@.next_id,
            handle@.bytes == buf@,
    {
        let id = self.next_id;
        let copy = clone_bytes(&buf);
        self.next_id = id + 1;
        self.live.insert(id, ResourceSlot { buf: copy, refs: 1 });
        self.pending.insert(id, ToFlushResourceAction::Insert);
        proof {
            assert(self@.live =~= old(self)@.inserted(buf@).live);
            assert(self@ =~= old(self)@.inserted(buf@));
        }
        MistyResourceHandle { id: MistyResourceId(id), buf }
    }

    /// Another handle for `id`, if the resource is live.
    pub fn get_handle(&mut self, id: MistyResourceId) -> (handle: Option<MistyResourceHandle>)
        requires
            old(self).wf(),
            old(self)@.live.contains_key(id.0) ==> old(self)@.live[id.0].refs < u64::MAX,
        ensures
            final(self).wf(),
            final(self)@ == old(self)@.acquired(id.0),
            handle is Some <==> old(self)@.live.contains_key(id.0),
            handle matches Some(h) ==> h@.id == id.0 && h@.bytes == old(self)@.live[id.0].bytes,
    {
        match self.live.remove(&id.0) {
            Some(slot) => {
                let copy = clone_bytes(&slot.buf);
                self.live.insert(id.0, ResourceSlot { buf: slot.buf, refs: slot.refs + 1 });
                proof {
                    assert(self@.live =~= old(self)@.acquired(id.0).live);
                    assert(self@ =~= old(self)@.acquired(id.0));
                }
                Some(MistyResourceHandle { id, buf: copy })
            },
            None => {
                proof {
                    assert(self.live@ =~= old(self).live@);
                    assert(self@.live =~= old(self)@.live);
                    assert(self@ =~= old(self)@);
                }
                None
            },
        }
    }

    /// Gives a handle back. With the last handle the resource leaves the
    /// ledger: a pending `Insert` for it is cancelled, otherwise a `Remove`
    /// is recorded. A handle whose resource is not live changes nothing.
    pub fn release(&mut self, handle: MistyResourceHandle)
        requires
            old(self).wf(),
        ensures
            final(self).wf(),
            final(self)@ == old(self)@.released(handle@.id),
    {
        let id = handle.id.0;
        match self.live.remove(&id) {
            Some(slot) => {
                if slot.refs > 1 {
                    self.live.insert(id, ResourceSlot { buf: slot.buf, refs: slot.refs - 1 });
                } else if self.pending.contains_key(&id) {
                    self.pending.remove(&id);
                } else {
                    self.pending.insert(id, ToFlushResourceAction::Remove);
                }
                proof {
                    assert(self@.live =~= old(self)@.released(id).live);
                    assert(self@.pending =~= old(self)@.released(id).pending);
                    assert(self@ =~= old(self)@.released(id));
                }
            },
            None => {
                proof {
                    assert(self.live@ =~= old(self).live@);
                    assert(self@.live =~= old(self)@.live);
                    assert(self@ =~= old(self)@);
                }
            },
        }
    }

    /// Harvest: hands out the pending changes and leaves none pending.
    pub fn take_all_actions(&mut self) -> (actions: Vec<ResourceUpdateAction>)
        requires
            old(self).wf(),
        ensures
            final(self).wf(),
            final(self)@ == old(self)@.harvested(),
            old(self)@.is_harvest(action_views(actions@)),
    {
        let mut pending: HashMap<u64, ToFlushResourceAction> = HashMap::new();
        std::mem::swap(&mut self.pending, &mut pending);
        proof {
            assert(self@ =~= old(self)@.harvested());
        }
        let ghost ledger = old(self)@;
        let mut actions: Vec<ResourceUpdateAction> = Vec::new();
        for id in it: pending.keys()
            invariant
                pending@ == ledger.pending,
                ledger.wf(),
                self@ == ledger.harvested(),
                it.seq() == vstd::std_specs::hash::spec_keys_iter(&pending).remaining(),
                actions@.len() == it.index(),
                forall|k: int|
                    0 <= k < actions@.len() ==> (#[trigger] actions@[k])@.id() == *it.seq()[k]
                        && actions@[k]@ == ledger.pending_update(*it.seq()[k]),
        {
            assert(it.seq().unref().to_set().contains(*id)) by {
                assert(it.seq().unref()[it.index() as int] == *id);
            }
            let action = match pending.get(id) {
                Some(ToFlushResourceAction::Insert) => {
                    assert(self@.live.contains_key(*id));
                    let slot = self.live.get(id).unwrap();
                    ResourceUpdateAction::Insert(MistyResourceId(*id), clone_bytes(&slot.buf))
                },
                _ => ResourceUpdateAction::Remove(MistyResourceId(*id)),
            };
            actions.push(action);
        }
        proof {
            let keys = vstd::std_specs::hash::spec_keys_iter(&pending).remaining().unref();
            let views = action_views(actions@);
            assert(keys.to_set() == ledger.pending.dom());
            assert(keys.no_duplicates());
            assert forall|i: int| 0 <= i < views.len() implies ledger.pending.contains_key(
                #[trigger] views[i].id(),
            ) && views[i] == ledger.pending_update(views[i].id()) by {
                assert(views[i] == actions@[i]@);
                assert(keys[i] == views[i].id());
                assert(keys.to_set().contains(keys[i]));
            }
            assert forall|i: int, j: int| 0 <= i < j < views.len() implies #[trigger] views[i].id()
                != #[trigger] views[j].id() by {
                assert(views[i] == actions@[i]@);
                assert(views[j] == actions@[j]@);
                assert(keys[i] != keys[j]);
            }
            assert forall|id: u64| #[trigger] ledger.pending.contains_key(id) implies exists|i: int|
                0 <= i < views.len() && #[trigger] views[i].id() == id by {
                assert(keys.to_set().contains(id));
                let i = choose|i: int| 0 <= i < keys.len() && keys[i] == id;
                assert(views[i] == actions@[i]@);
                assert(views[i].id() == id);
            }
        }
        actions
    }
}

} // verus!
