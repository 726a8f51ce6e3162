//! The async task orchestrator: it keeps track of the background jobs that
//! the application has launched, grouped by kind.
//!
//! The jobs themselves run on a backend that the application supplies, an
//! [`IAsyncTaskRuntimeAdapter`]. The orchestrator launches a job through it,
//! remembers the handle that the backend gave, and asks the backend to abort
//! the job when its kind is cancelled. Kinds never share a cancellation
//! scope. Aborting is a request: a job may run on for a while after it.
use vstd::prelude::*;

verus! {

/// Tag of a kind of background job.
#[derive(Debug, Clone, Copy, PartialEq, Eq, Hash, Structural)]
pub struct MistyAsyncTaskId(pub u64);

impl MistyAsyncTaskId {
    pub fn new(id: u64) -> (r: Self)
        ensures
            r.0 == id,
    {
        Self(id)
    }
}

/// The backend that runs the jobs.
pub trait IAsyncTaskRuntimeAdapter {
    /// A job that may run on any thread.
    type Job;

    /// A job that stays on the thread that launched it.
    type LocalJob;

    /// Launches `job` and returns the handle by which it can be aborted.
    fn spawn(&self, job: Self::Job) -> u64;

    /// Launches `job` on the calling thread and returns its handle.
    fn spawn_local(&self, job: Self::LocalJob) -> u64;

    /// Asks for the job behind `handle` to be aborted. A handle that the
    /// backend does not know, or whose job has ended, is ignored.
    fn try_abort(&self, handle: u64);
}

/// One tracked job.
#[derive(Debug, Clone, Copy, PartialEq, Eq, Structural)]
pub struct AsyncTaskEntry {
    /// The orchestrator's own number for the job.
    pub task_id: u64,
    pub kind: MistyAsyncTaskId,
    /// The backend's handle for the job.
    pub handle: u64,
}

/// Mathematical content of the orchestrator.
#[verifier::ext_equal]
pub struct PoolsView {
    /// The number that the next job gets.
    pub next_task_id: nat,
    /// The tracked jobs, in the order in which they were launched.
    pub entries: Seq<AsyncTaskEntry>,
}

pub open spec fn handle_of(entry: AsyncTaskEntry) -> u64 {
    entry.handle
}

impl PoolsView {
    pub open spec fn initial() -> PoolsView {
        PoolsView { next_task_id: 0, entries: Seq::empty() }
    }

    /// The numbers of the tracked jobs rise with the order of launch and
    /// stay below the counter, so that no two jobs share one.
    pub open spec fn wf(self) -> bool {
        &&& self.next_task_id <= u64::MAX
        &&& forall|i: int|
            0 <= i < self.entries.len() ==> (#[trigger] self.entries[i]).task_id
                < self.next_task_id
        &&& forall|i: int, j: int|
            0 <= i < j < self.entries.len() ==> (#[trigger] self.entries[i]).task_id < (
            #[trigger] self.entries[j]).task_id
    }

    /// The tracked jobs of `kind`, in the order of launch.
    pub open spec fn live(self, kind: MistyAsyncTaskId) -> Seq<AsyncTaskEntry> {
        self.entries.filter(|e: AsyncTaskEntry| e.kind == kind)
    }

    /// The backend's handles of the tracked jobs of `kind`.
    pub open spec fn handles(self, kind: MistyAsyncTaskId) -> Seq<u64> {
        self.live(kind).map_values(|e: AsyncTaskEntry| handle_of(e))
    }

    /// The backend's handles of all tracked jobs.
    pub open spec fn all_handles(self) -> Seq<u64> {
        self.entries.map_values(|e: AsyncTaskEntry| handle_of(e))
    }

    pub open spec fn is_tracked(self, task_id: u64) -> bool {
        exists|i: int| 0 <= i < self.entries.len() && (#[trigger] self.entries[i]).task_id == task_id
    }

    /// The entry that the next launch of a job of `kind` creates, for the
    /// handle that the backend gives.
    pub open spec fn next_entry(self, kind: MistyAsyncTaskId, handle: u64) -> AsyncTaskEntry {
        AsyncTaskEntry { task_id: self.next_task_id as u64, kind, handle }
    }

    /// A job of `kind` was launched and the backend gave `handle`.
    pub open spec fn spawned(self, kind: MistyAsyncTaskId, handle: u64) -> PoolsView {
        PoolsView {
            next_task_id: self.next_task_id + 1,
            entries: self.entries.push(self.next_entry(kind, handle)),
        }
    }

    /// The job with the number `task_id` is no longer tracked.
    pub open spec fn finished(self, task_id: u64) -> PoolsView {
        PoolsView {
            entries: self.entries.filter(|e: AsyncTaskEntry| e.task_id != task_id),
            ..self
        }
    }

    /// No job of `kind` is tracked any more.
    pub open spec fn cancelled(self, kind: MistyAsyncTaskId) -> PoolsView {
        PoolsView { entries: self.entries.filter(|e: AsyncTaskEntry| e.kind != kind), ..self }
    }

    /// No job is tracked any more.
    pub open spec fn cleared(self) -> PoolsView {
        PoolsView { entries: Seq::empty(), ..self }
    }
}

proof fn lemma_filter_push<A>(s: Seq<A>, x: A, pred: spec_fn(A) -> bool)
    ensures
        s.push(x).filter(pred) == if pred(x) {
            s.filter(pred).push(x)
        } else {
            s.filter(pred)
        },
{
    reveal(Seq::filter);
    assert(s.push(x).drop_last() =~= s);
}

proof fn lemma_filter_take_step<A>(s: Seq<A>, i: int, pred: spec_fn(A) -> bool)
    requires
        0 <= i < s.len(),
    ensures
        s.take(i + 1).filter(pred) == if pred(s[i]) {
            s.take(i).filter(pred).push(s[i])
        } else {
            s.take(i).filter(pred)
        },
{
    assert(s.take(i + 1) =~= s.take(i).push(s[i]));
    lemma_filter_push(s.take(i), s[i], pred);
}

/// What a filter keeps of well-formed entries is well formed.
proof fn lemma_filter_keeps_wf(v: PoolsView, pred: spec_fn(AsyncTaskEntry) -> bool)
    requires
        v.wf(),
    ensures
        (PoolsView { entries: v.entries.filter(pred), ..v }).wf(),
    decreases v.entries.len(),
{
    reveal(Seq::filter);
    let kept = v.entries.filter(pred);
    if v.entries.len() > 0 {
        let shorter = PoolsView { entries: v.entries.drop_last(), ..v };
        let last = v.entries.last();
        assert(shorter.wf()) by {
            assert forall|i: int| 0 <= i < shorter.entries.len() implies (
            #[trigger] shorter.entries[i]).task_id < shorter.next_task_id by {
                assert(shorter.entries[i] == v.entries[i]);
            }
            assert forall|i: int, j: int| 0 <= i < j < shorter.entries.len() implies (
            #[trigger] shorter.entries[i]).task_id < (#[trigger] shorter.entries[j]).task_id by {
                assert(shorter.entries[i] == v.entries[i]);
                assert(shorter.entries[j] == v.entries[j]);
            }
        }
        lemma_filter_keeps_wf(shorter, pred);
        let rest = shorter.entries.filter(pred);
        assert forall|i: int| 0 <= i < rest.len() implies (#[trigger] rest[i]).task_id
            < last.task_id by {
            shorter.entries.lemma_filter_contains_rev(pred, rest[i]);
            let j = choose|j: int| 0 <= j < shorter.entries.len() && shorter.entries[j] == rest[i];
            assert(v.entries[j] == rest[i]);
            assert(v.entries[j].task_id < v.entries[v.entries.len() - 1].task_id);
        }
        assert(last.task_id < v.next_task_id) by {
            assert(v.entries[v.entries.len() - 1].task_id < v.next_task_id);
        }
        let after = PoolsView { entries: rest, ..v };
        assert(after.wf());
        if pred(last) {
            assert(kept == rest.push(last));
            assert forall|i: int| 0 <= i < kept.len() implies (#[trigger] kept[i]).task_id
                < v.next_task_id by {
                if i < rest.len() {
                    assert(kept[i] == after.entries[i]);
                }
            }
            assert forall|i: int, j: int| 0 <= i < j < kept.len() implies (
            #[trigger] kept[i]).task_id < (#[trigger] kept[j]).task_id by {
                assert(kept[i] == rest[i]);
                if j < rest.len() {
                    assert(kept[j] == rest[j]);
                    assert(after.entries[i].task_id < after.entries[j].task_id);
                }
            }
        } else {
            assert(kept == rest);
        }
    }
}

/// Nothing that a filter keeps passes the opposite filter.
proof fn lemma_filter_then_opposite_is_empty<A>(
    s: Seq<A>,
    pred: spec_fn(A) -> bool,
    opposite: spec_fn(A) -> bool,
)
    requires
        forall|x: A| #[trigger] pred(x) ==> !opposite(x),
    ensures
        s.filter(pred).filter(opposite) == Seq::<A>::empty(),
{
    let kept = s.filter(pred);
    assert forall|i: int| 0 <= i < kept.len() implies !opposite(#[trigger] kept[i]) by {
        s.lemma_filter_pred(pred, i);
    }
    kept.lemma_all_neg_filter_empty(opposite);
    assert(kept.filter(opposite) =~= Seq::<A>::empty());
}

/// A filter that nothing fails keeps everything.
proof fn lemma_filter_all_is_identity<A>(s: Seq<A>, pred: spec_fn(A) -> bool)
    requires
        forall|i: int| 0 <= i < s.len() ==> pred(#[trigger] s[i]),
    ensures
        s.filter(pred) == s,
    decreases s.len(),
{
    reveal(Seq::filter);
    if s.len() > 0 {
        lemma_filter_all_is_identity(s.drop_last(), pred);
        assert(s.drop_last().push(s.last()) =~= s);
    } else {
        assert(s.filter(pred) =~= s);
    }
}

/// Where no job of `kind` is tracked, cancelling the kind changes nothing
/// and aborts nothing.
pub proof fn lemma_cancel_without_tasks_is_noop(v: PoolsView, kind: MistyAsyncTaskId)
    requires
        v.live(kind).len() == 0,
    ensures
        v.cancelled(kind) == v,
        v.handles(kind) == Seq::<u64>::empty(),
{
    let is_kind = |e: AsyncTaskEntry| e.kind == kind;
    let is_other = |e: AsyncTaskEntry| e.kind != kind;
    assert forall|i: int| 0 <= i < v.entries.len() implies is_other(#[trigger] v.entries[i]) by {
        if is_kind(v.entries[i]) {
            v.entries.lemma_filter_contains(is_kind, i);
        }
    }
    lemma_filter_all_is_identity(v.entries, is_other);
    assert(v.cancelled(kind) =~= v);
    assert(v.handles(kind) =~= Seq::<u64>::empty());
}

/// After a kind is cancelled none of its jobs is tracked, and the jobs of
/// every other kind are tracked as before.
pub proof fn lemma_cancel_is_scoped(v: PoolsView, kind: MistyAsyncTaskId, other: MistyAsyncTaskId)
    requires
        other != kind,
    ensures
        v.cancelled(kind).live(kind) == Seq::<AsyncTaskEntry>::empty(),
        v.cancelled(kind).live(other) == v.live(other),
    decreases v.entries.len(),
{
    let is_kind = |e: AsyncTaskEntry| e.kind == kind;
    let is_not_kind = |e: AsyncTaskEntry| e.kind != kind;
    let is_other = |e: AsyncTaskEntry| e.kind == other;
    lemma_filter_then_opposite_is_empty(v.entries, is_not_kind, is_kind);
    if v.entries.len() > 0 {
        let shorter = PoolsView { entries: v.entries.drop_last(), ..v };
        let last = v.entries.last();
        lemma_cancel_is_scoped(shorter, kind, other);
        assert(shorter.entries.push(last) =~= v.entries);
        lemma_filter_push(shorter.entries, last, is_not_kind);
        lemma_filter_push(shorter.entries, last, is_other);
        if is_not_kind(last) {
            lemma_filter_push(shorter.entries.filter(is_not_kind), last, is_other);
        }
    } else {
        reveal(Seq::filter);
        assert(v.entries.filter(is_not_kind) =~= v.entries);
    }
}

/// A job that is launched right after its kind was cancelled is the only
/// tracked job of that kind.
pub proof fn lemma_spawn_once_leaves_one(v: PoolsView, kind: MistyAsyncTaskId, handle: u64)
    ensures
        v.cancelled(kind).spawned(kind, handle).live(kind) == seq![
            v.next_entry(kind, handle),
        ],
{
    let is_kind = |e: AsyncTaskEntry| e.kind == kind;
    let is_not_kind = |e: AsyncTaskEntry| e.kind != kind;
    let cancelled = v.cancelled(kind);
    lemma_filter_then_opposite_is_empty(v.entries, is_not_kind, is_kind);
    lemma_filter_push(cancelled.entries, v.next_entry(kind, handle), is_kind);
    assert(cancelled.spawned(kind, handle).live(kind) =~= seq![v.next_entry(kind, handle)]);
}

/// Launching a job once, twice in a row, leaves exactly one tracked job of
/// the kind: the second.
pub proof fn lemma_spawn_once_twice_leaves_one(
    v: PoolsView,
    kind: MistyAsyncTaskId,
    first: u64,
    second: u64,
)
    ensures
        v.cancelled(kind).spawned(kind, first).cancelled(kind).spawned(kind, second).live(
            kind,
        ).len() == 1,
        v.cancelled(kind).spawned(kind, first).cancelled(kind).spawned(kind, second).handles(kind)
            == seq![second],
{
    let after_first = v.cancelled(kind).spawned(kind, first);
    lemma_spawn_once_leaves_one(after_first, kind, second);
    assert(after_first.cancelled(kind).spawned(kind, second).handles(kind) =~= seq![second]);
}

/// Every step keeps the orchestrator well formed.
pub proof fn lemma_pool_steps_keep_wf(
    v: PoolsView,
    kind: MistyAsyncTaskId,
    handle: u64,
    task_id: u64,
)
    requires
        v.wf(),
    ensures
        v.next_task_id < u64::MAX ==> v.spawned(kind, handle).wf(),
        v.finished(task_id).wf(),
        v.cancelled(kind).wf(),
        v.cleared().wf(),
{
    lemma_filter_keeps_wf(v, |e: AsyncTaskEntry| e.task_id != task_id);
    lemma_filter_keeps_wf(v, |e: AsyncTaskEntry| e.kind != kind);
}

/// The tracked jobs, kind by kind.
pub struct MistyAsyncTaskPools {
    next_task_id: u64,
    entries: Vec<AsyncTaskEntry>,
}

impl View for MistyAsyncTaskPools {
    type V = PoolsView;

    closed spec fn view(&self) -> PoolsView {
        PoolsView { next_task_id: self.next_task_id as nat, entries: self.entries@ }
    }
}

impl MistyAsyncTaskPools {
    pub open spec fn wf(&self) -> bool {
        self@.wf()
    }

    pub fn new() -> (r: Self)
        ensures
            r.wf(),
            r@ == PoolsView::initial(),
    {
        MistyAsyncTaskPools { next_task_id: 0, entries: Vec::new() }
    }

    /// Whether another job can still get a number.
    pub fn has_free_id(&self) -> (b: bool)
        ensures
            b == (self@.next_task_id < u64::MAX),
    {
        self.next_task_id < u64::MAX
    }

    /// The number that the next job gets.
    pub fn next_task_id(&self) -> (id: u64)
        ensures
            id == self@.next_task_id,
    {
        self.next_task_id
    }

    /// The number of tracked jobs, of all kinds.
    pub fn len(&self) -> (n: usize)
        ensures
            n == self@.entries.len(),
    {
        self.entries.len()
    }

    /// The tracked jobs of `kind`, in the order of launch.
    pub fn live(&self, kind: MistyAsyncTaskId) -> (live: Vec<AsyncTaskEntry>)
        ensures
            live@ == self@.live(kind),
    {
        let ghost is_kind = |e: AsyncTaskEntry| e.kind == kind;
        let mut live: Vec<AsyncTaskEntry> = Vec::new();
        let mut i: usize = 0;
        proof {
            reveal(Seq::filter);
            assert(self.entries@.take(0).filter(is_kind) =~= Seq::<AsyncTaskEntry>::empty());
        }
        while i < self.entries.len()
            invariant
                i <= self.entries@.len(),
                is_kind == (|e: AsyncTaskEntry| e.kind == kind),
                live@ == self.entries@.take(i as int).filter(is_kind),
            decreases self.entries@.len() - i,
        {
            proof {
                lemma_filter_take_step(self.entries@, i as int, is_kind);
            }
            let entry = self.entries[i];
            if entry.kind.0 == kind.0 {
                live.push(entry);
            }
            i = i + 1;
        }
        proof {
            assert(self.entries@.take(i as int) =~= self.entries@);
        }
        live
    }

    /// Tracks a job of `kind` that the backend runs under `handle`, and
    /// gives it the next number.
    pub fn register(&mut self, kind: MistyAsyncTaskId, handle: u64) -> (entry: AsyncTaskEntry)
        requires
            old(self).wf(),
            old(self)@.next_task_id < u64::MAX,
        ensures
            final(self).wf(),
            final(self)@ == old(self)@.spawned(kind, handle),
            entry == old(self)@.next_entry(kind, handle),
    {
        let entry = AsyncTaskEntry { task_id: self.next_task_id, kind, handle };
        self.next_task_id = self.next_task_id + 1;
        self.entries.push(entry);
        proof {
            let before = old(self)@;
            let after = self@;
            assert forall|i: int| 0 <= i < after.entries.len() implies (
            #[trigger] after.entries[i]).task_id < after.next_task_id by {
                if i < before.entries.len() {
                    assert(after.entries[i] == before.entries[i]);
                }
            }
            assert forall|i: int, j: int| 0 <= i < j < after.entries.len() implies (
            #[trigger] after.entries[i]).task_id < (#[trigger] after.entries[j]).task_id by {
                assert(after.entries[i] == before.entries[i]);
                if j < before.entries.len() {
                    assert(after.entries[j] == before.entries[j]);
                }
            }
        }
        entry
    }

    /// Stops tracking the job with the number `task_id`, which has come to
    /// its end. Returns whether it was tracked.
    pub fn finish(&mut self, task_id: u64) -> (was_tracked: bool)
        requires
            old(self).wf(),
        ensures
            final(self).wf(),
            final(self)@ == old(self)@.finished(task_id),
            was_tracked == old(self)@.is_tracked(task_id),
    {
        let ghost keeps = |e: AsyncTaskEntry| e.task_id != task_id;
        let mut kept: Vec<AsyncTaskEntry> = Vec::new();
        let mut was_tracked = false;
        let mut i: usize = 0;
        proof {
            reveal(Seq::filter);
            assert(self.entries@.take(0).filter(keeps) =~= Seq::<AsyncTaskEntry>::empty());
        }
        while i < self.entries.len()
            invariant
                i <= self.entries@.len(),
                keeps == (|e: AsyncTaskEntry| e.task_id != task_id),
                kept@ == self.entries@.take(i as int).filter(keeps),
                was_tracked == (exists|k: int|
                    0 <= k < i && (#[trigger] self.entries@[k]).task_id == task_id),
            decreases self.entries@.len() - i,
        {
            proof {
                lemma_filter_take_step(self.entries@, i as int, keeps);
            }
            let entry = self.entries[i];
            if entry.task_id == task_id {
                was_tracked = true;
            } else {
                kept.push(entry);
            }
            i = i + 1;
        }
        proof {
            assert(self.entries@.take(i as int) =~= self.entries@);
            lemma_filter_keeps_wf(self@, keeps);
        }
        self.entries = kept;
        was_tracked
    }

    /// Stops tracking the jobs of `kind` and hands them out, in the order
    /// of launch.
    pub fn take_kind(&mut self, kind: MistyAsyncTaskId) -> (taken: Vec<AsyncTaskEntry>)
        requires
            old(self).wf(),
        ensures
            final(self).wf(),
            final(self)@ == old(self)@.cancelled(kind),
            taken@ == old(self)@.live(kind),
    {
        let ghost is_kind = |e: AsyncTaskEntry| e.kind == kind;
        let ghost is_not_kind = |e: AsyncTaskEntry| e.kind != kind;
        let mut kept: Vec<AsyncTaskEntry> = Vec::new();
        let mut taken: Vec<AsyncTaskEntry> = Vec::new();
        let mut i: usize = 0;
        proof {
            reveal(Seq::filter);
            assert(self.entries@.take(0).filter(is_kind) =~= Seq::<AsyncTaskEntry>::empty());
            assert(self.entries@.take(0).filter(is_not_kind) =~= Seq::<AsyncTaskEntry>::empty());
        }
        while i < self.entries.len()
            invariant
                i <= self.entries@.len(),
                is_kind == (|e: AsyncTaskEntry| e.kind == kind),
                is_not_kind == (|e: AsyncTaskEntry| e.kind != kind),
                taken@ == self.entries@.take(i as int).filter(is_kind),
                kept@ == self.entries@.take(i as int).filter(is_not_kind),
            decreases self.entries@.len() - i,
        {
            proof {
                lemma_filter_take_step(self.entries@, i as int, is_kind);
                lemma_filter_take_step(self.entries@, i as int, is_not_kind);
            }
            let entry = self.entries[i];
            if entry.kind.0 == kind.0 {
                taken.push(entry);
            } else {
                kept.push(entry);
            }
            i = i + 1;
        }
        proof {
            assert(self.entries@.take(i as int) =~= self.entries@);
            lemma_filter_keeps_wf(self@, is_not_kind);
        }
        self.entries = kept;
        taken
    }

    /// Launches the job that `make_job` makes for the next task number on
    /// `rt`, and tracks it under `kind`. Whatever handle the backend gives is
    /// the one that is remembered.
    pub fn spawn<A: IAsyncTaskRuntimeAdapter, F: FnOnce(u64) -> A::Job>(
        &mut self,
        rt: &A,
        kind: MistyAsyncTaskId,
        make_job: F,
    ) -> (entry: AsyncTaskEntry)
        requires
            old(self).wf(),
            old(self)@.next_task_id < u64::MAX,
            call_requires(make_job, (old(self)@.next_task_id as u64,)),
        ensures
            final(self).wf(),
            final(self)@ == old(self)@.spawned(kind, entry.handle),
            entry == old(self)@.next_entry(kind, entry.handle),
    {
        let job = make_job(self.next_task_id);
        let handle = rt.spawn(job);
        self.register(kind, handle)
    }

    /// As [`Self::spawn`], for a job that stays on the calling thread.
    pub fn spawn_local<A: IAsyncTaskRuntimeAdapter, F: FnOnce(u64) -> A::LocalJob>(
        &mut self,
        rt: &A,
        kind: MistyAsyncTaskId,
        make_job: F,
    ) -> (entry: AsyncTaskEntry)
        requires
            old(self).wf(),
            old(self)@.next_task_id < u64::MAX,
            call_requires(make_job, (old(self)@.next_task_id as u64,)),
        ensures
            final(self).wf(),
            final(self)@ == old(self)@.spawned(kind, entry.handle),
            entry == old(self)@.next_entry(kind, entry.handle),
    {
        let job = make_job(self.next_task_id);
        let handle = rt.spawn_local(job);
        self.register(kind, handle)
    }

    /// Asks `rt` to abort each of `entries`, in order, and returns the
    /// handles that it was asked to abort.
    fn abort_each<A: IAsyncTaskRuntimeAdapter>(rt: &A, entries: &Vec<AsyncTaskEntry>) -> (aborted:
        Vec<u64>)
        ensures
            aborted@ == entries@.map_values(|e: AsyncTaskEntry| handle_of(e)),
    {
        let mut aborted: Vec<u64> = Vec::new();
        let mut i: usize = 0;
        while i < entries.len()
            invariant
                i <= entries@.len(),
                aborted@ == entries@.take(i as int).map_values(|e: AsyncTaskEntry| handle_of(e)),
            decreases entries@.len() - i,
        {
            let handle = entries[i].handle;
            rt.try_abort(handle);
            aborted.push(handle);
            proof {
                assert(entries@.take(i + 1) =~= entries@.take(i as int).push(entries@[i as int]));
                assert(entries@.take(i + 1).map_values(|e: AsyncTaskEntry| handle_of(e))
                    =~= entries@.take(i as int).map_values(|e: AsyncTaskEntry| handle_of(e)).push(
                    handle,
                ));
            }
            i = i + 1;
        }
        proof {
            assert(entries@.take(i as int) =~= entries@);
        }
        aborted
    }

    /// Stops tracking the jobs of `kind` and asks `rt` to abort each of
    /// them. Returns the handles that it asked to abort, in the order of
    /// launch.
    pub fn cancel_all<A: IAsyncTaskRuntimeAdapter>(
        &mut self,
        rt: &A,
        kind: MistyAsyncTaskId,
    ) -> (aborted: Vec<u64>)
        requires
            old(self).wf(),
        ensures
            final(self).wf(),
            final(self)@ == old(self)@.cancelled(kind),
            aborted@ == old(self)@.handles(kind),
    {
        let taken = self.take_kind(kind);
        Self::abort_each(rt, &taken)
    }

    /// Cancels the jobs of `kind`, then launches the job that `make_job`
    /// makes: afterwards it is the only tracked job of its kind. Returns its
    /// entry and the handles that were aborted.
    pub fn spawn_once<A: IAsyncTaskRuntimeAdapter, F: FnOnce(u64) -> A::Job>(
        &mut self,
        rt: &A,
        kind: MistyAsyncTaskId,
        make_job: F,
    ) -> (r: (AsyncTaskEntry, Vec<u64>))
        requires
            old(self).wf(),
            old(self)@.next_task_id < u64::MAX,
            call_requires(make_job, (old(self)@.next_task_id as u64,)),
        ensures
            final(self).wf(),
            final(self)@ == old(self)@.cancelled(kind).spawned(kind, r.0.handle),
            r.0 == old(self)@.next_entry(kind, r.0.handle),
            r.1@ == old(self)@.handles(kind),
            final(self)@.live(kind) == seq![r.0],
    {
        let aborted = self.cancel_all(rt, kind);
        let entry = self.spawn(rt, kind, make_job);
        proof {
            lemma_spawn_once_leaves_one(old(self)@, kind, entry.handle);
        }
        (entry, aborted)
    }

    /// Takes the tracked jobs of `kind` and asks `rt` to abort them, again
    /// and again until none is tracked. The jobs are aborted, not awaited.
    /// Returns the handles that it asked to abort; where no job of the kind
    /// was tracked, that is none, and nothing has changed.
    pub fn wait_all<A: IAsyncTaskRuntimeAdapter>(
        &mut self,
        rt: &A,
        kind: MistyAsyncTaskId,
    ) -> (aborted: Vec<u64>)
        requires
            old(self).wf(),
        ensures
            final(self).wf(),
            final(self)@ == old(self)@.cancelled(kind),
            aborted@ == old(self)@.handles(kind),
            old(self)@.live(kind).len() == 0 ==> final(self)@ == old(self)@ && aborted@.len() == 0,
    {
        let mut aborted: Vec<u64> = Vec::new();
        let ghost start = self@;
        loop
            invariant
                self.wf(),
                start.wf(),
                self@ == start || (self@ == start.cancelled(kind) && aborted@ == start.handles(
                    kind,
                )),
                self@ == start ==> aborted@ == Seq::<u64>::empty(),
            ensures
                self.wf(),
                self@ == start.cancelled(kind),
                aborted@ == start.handles(kind),
            decreases self@.live(kind).len(),
        {
            let ghost before = self@;
            let batch = self.take_kind(kind);
            proof {
                if before == start.cancelled(kind) {
                    lemma_filter_then_opposite_is_empty(
                        start.entries,
                        |e: AsyncTaskEntry| e.kind != kind,
                        |e: AsyncTaskEntry| e.kind == kind,
                    );
                    lemma_cancel_without_tasks_is_noop(before, kind);
                }
                lemma_filter_then_opposite_is_empty(
                    before.entries,
                    |e: AsyncTaskEntry| e.kind != kind,
                    |e: AsyncTaskEntry| e.kind == kind,
                );
            }
            if batch.len() == 0 {
                proof {
                    lemma_cancel_without_tasks_is_noop(before, kind);
                }
                break ;
            }
            let mut handles = Self::abort_each(rt, &batch);
            aborted.append(&mut handles);
            proof {
                assert(before == start);
                assert(aborted@ =~= start.handles(kind));
            }
        }
        proof {
            if start.live(kind).len() == 0 {
                lemma_cancel_without_tasks_is_noop(start, kind);
            }
        }
        aborted
    }

    /// Asks `rt` to abort every tracked job, of every kind, and stops
    /// tracking them all. Returns the handles that it asked to abort.
    pub fn reset<A: IAsyncTaskRuntimeAdapter>(&mut self, rt: &A) -> (aborted: Vec<u64>)
        requires
            old(self).wf(),
        ensures
            final(self).wf(),
            final(self)@ == old(self)@.cleared(),
            aborted@ == old(self)@.all_handles(),
    {
        let mut entries: Vec<AsyncTaskEntry> = Vec::new();
        std::mem::swap(&mut self.entries, &mut entries);
        Self::abort_each(rt, &entries)
    }
}

} // verus!
