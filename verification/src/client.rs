//! The client core: one isolated instance of the runtime. It owns the state
//! container, the view projector, the service registry, the resource ledger,
//! the async task orchestrator with its backend, the scheduler and the
//! signal emitter, and it gates what may still be done once it has been
//! destroyed.
//!
//! A controller works on the client through a mutable reference. What it can
//! reach through the methods of this module keeps the client well formed and
//! leaves the mutation span as it found it.
use crate::async_task::AsyncTaskEntry;
use crate::async_task::IAsyncTaskRuntimeAdapter;
use crate::async_task::MistyAsyncTaskId;
use crate::async_task::MistyAsyncTaskPools;
use crate::async_task::PoolsView;
use crate::controllers::call_controller;
use crate::controllers::controller_flush_scheduled_tasks;
use crate::controllers::is_diff_of;
use crate::controllers::is_outcome;
use crate::controllers::ControllerRet;
use crate::resources::LedgerView;
use crate::resources::MistyResourceHandle;
use crate::resources::MistyResourceId;
use crate::resources::MistyResourceManager;
use crate::resources::ResourceUpdateAction;
use crate::schedule::ScheduleManager;
use crate::services::MistyServiceId;
use crate::services::MistyServiceManager;
use crate::signals::MistySignalHandler;
use crate::signals::SignalEmitter;
use crate::states::GuardCleanupStatesForPanic;
use crate::states::MistyStateId;
use crate::states::MistyStateManager;
use crate::states::StateManagerView;
use crate::views::bindings_covered;
use crate::views::BoxedMistyViewModel;
use crate::views::MistyViewModelManager;
use std::convert::Infallible;
use vstd::prelude::*;

verus! {

/// Identity of a client.
#[derive(Clone, Copy, Debug, PartialEq, Eq, Structural)]
pub struct MistyClientId(pub i32);

impl MistyClientId {
    pub fn new(id: i32) -> (r: Self)
        ensures
            r.0 == id,
    {
        Self(id)
    }

    pub fn value(&self) -> (v: i32)
        ensures
            v == self.0,
    {
        self.0
    }
}

/// Mathematical content of a client.
#[verifier::ext_equal]
#[verifier::reject_recursive_types(R)]
#[verifier::reject_recursive_types(S)]
pub struct ClientView<R, S, T, V> {
    pub id: MistyClientId,
    /// The state container.
    pub states: StateManagerView<S>,
    /// The bindings of the view projector, in the order of registration.
    pub bindings: Seq<BoxedMistyViewModel<R, S>>,
    /// The registered services, by tag.
    pub services: Map<u64, V>,
    /// The resource ledger.
    pub resources: LedgerView,
    /// The tracked background jobs.
    pub tasks: PoolsView,
    /// The continuations that wait for a flush, oldest first.
    pub scheduled: Seq<T>,
    /// Whether the host has bound a signal handler.
    pub signal_bound: bool,
    pub destroyed: bool,
}

impl<R, S, T, V> ClientView<R, S, T, V> {
    /// The client's invariant: the ledger and the orchestrator are well
    /// formed, every state that a binding reads is registered, nothing is
    /// recorded as written while no span is open, and a destroyed client
    /// tracks no background job.
    pub open spec fn wf(self) -> bool {
        &&& self.resources.wf()
        &&& self.tasks.wf()
        &&& bindings_covered(self.bindings, self.states.states)
        &&& self.states.depth == 0 ==> self.states.nothing_touched()
        &&& self.destroyed ==> self.tasks.entries.len() == 0
    }

    /// A mutation span was opened.
    pub open spec fn entered(self) -> Self {
        ClientView { states: self.states.entered(), ..self }
    }

    /// The innermost span was closed; where it was the outermost one, the
    /// ledger was harvested and the touched set was cleared.
    pub open spec fn committed(self) -> Self {
        if self.states.leaves_outermost() {
            ClientView {
                states: self.states.left().cleared(),
                resources: self.resources.harvested(),
                ..self
            }
        } else {
            ClientView { states: self.states.left(), ..self }
        }
    }

    /// The bookkeeping of the span was brought back to idle. What was
    /// written to the states, and everything else, is as it was.
    pub open spec fn recovered(self) -> Self {
        ClientView { states: self.states.idle(), ..self }
    }

    /// No continuation waits.
    pub open spec fn drained(self) -> Self {
        ClientView { scheduled: Seq::empty(), ..self }
    }
}

#[verifier::reject_recursive_types(R)]
#[verifier::reject_recursive_types(S)]
pub struct MistyClientInner<R, S, T, A, V> {
    id: MistyClientId,
    state_manager: MistyStateManager<S>,
    view_manager: MistyViewModelManager<R, S>,
    service_manager: MistyServiceManager<V>,
    resource_manager: MistyResourceManager,
    async_task_pools: MistyAsyncTaskPools,
    async_task_runtime: A,
    schedule_manager: ScheduleManager<T>,
    signal_emitter: SignalEmitter,
    destroyed: bool,
}

impl<R, S, T, A, V> View for MistyClientInner<R, S, T, A, V> {
    type V = ClientView<R, S, T, V>;

    closed spec fn view(&self) -> ClientView<R, S, T, V> {
        ClientView {
            id: self.id,
            states: self.state_manager@,
            bindings: self.view_manager@,
            services: self.service_manager@,
            resources: self.resource_manager@,
            tasks: self.async_task_pools@,
            scheduled: self.schedule_manager@,
            signal_bound: self.signal_emitter.is_bound(),
            destroyed: self.destroyed,
        }
    }
}

impl<R, S, T, A, V> MistyClientInner<R, S, T, A, V> {
    pub open spec fn wf(&self) -> bool {
        self@.wf()
    }

    /// A client over the given parts, with an empty ledger, no background
    /// job, no continuation and no signal handler.
    pub fn new(
        id: MistyClientId,
        view_manager: MistyViewModelManager<R, S>,
        state_manager: MistyStateManager<S>,
        service_manager: MistyServiceManager<V>,
        async_task_runtime: A,
    ) -> (r: Self)
        requires
            view_manager.covered_by(state_manager@.states),
            state_manager@.depth == 0,
            state_manager@.nothing_touched(),
        ensures
            r.wf(),
            r@ == (ClientView {
                id,
                states: state_manager@,
                bindings: view_manager@,
                services: service_manager@,
                resources: LedgerView::initial(),
                tasks: PoolsView::initial(),
                scheduled: Seq::<T>::empty(),
                signal_bound: false,
                destroyed: false,
            }),
    {
        MistyClientInner {
            id,
            state_manager,
            view_manager,
            service_manager,
            resource_manager: MistyResourceManager::new(),
            async_task_pools: MistyAsyncTaskPools::new(),
            async_task_runtime,
            schedule_manager: ScheduleManager::new(),
            signal_emitter: SignalEmitter::new(),
            destroyed: false,
        }
    }

    pub fn id(&self) -> (id: MistyClientId)
        ensures
            id == self@.id,
    {
        self.id
    }

    pub fn is_destroyed(&self) -> (b: bool)
        ensures
            b == self@.destroyed,
    {
        self.destroyed
    }

    /// The resource ledger, for inspection.
    pub fn resource_manager(&self) -> (ledger: &MistyResourceManager)
        ensures
            ledger@ == self@.resources,
    {
        &self.resource_manager
    }

    /// The state container, for inspection.
    pub fn state_manager(&self) -> (states: &MistyStateManager<S>)
        ensures
            states@ == self@.states,
    {
        &self.state_manager
    }

    /// The tracked background jobs, for inspection.
    pub fn async_task_pools(&self) -> (pools: &MistyAsyncTaskPools)
        ensures
            pools@ == self@.tasks,
    {
        &self.async_task_pools
    }

    /// Binds the host's signal handler, in place of the one before.
    pub fn on_signal<F: MistySignalHandler + 'static>(&mut self, f: F)
        ensures
            final(self)@ == (ClientView { signal_bound: true, ..old(self)@ }),
    {
        self.signal_emitter.set(f);
    }

    /// Whether a span is open, so that states may be written.
    pub fn can_update(&self) -> (b: bool)
        ensures
            b == self@.states.can_update(),
    {
        self.state_manager.can_update()
    }

    pub fn is_registered(&self, id: MistyStateId) -> (b: bool)
        ensures
            b == self@.states.states.contains_key(id.0),
    {
        self.state_manager.is_registered(id)
    }

    /// The slot of the state `id`.
    pub fn state(&self, id: MistyStateId) -> (slot: &S)
        requires
            self@.states.states.contains_key(id.0),
        ensures
            *slot == self@.states.states[id.0],
    {
        self.state_manager.get(id)
    }

    /// Applies `func` to the slot of the state `id` and returns what it
    /// returns. No span is needed, and a destroyed client can still be read.
    pub fn read_state<O, F: FnOnce(&S) -> O>(&self, id: MistyStateId, func: F) -> (ret: O)
        requires
            self@.states.states.contains_key(id.0),
            call_requires(func, (&self@.states.states[id.0],)),
        ensures
            call_ensures(func, (&self@.states.states[id.0],), ret),
    {
        self.state_manager.read(id, func)
    }

    /// Puts `value` into the slot of the state `id`, inside a span, and
    /// hands out what the slot held.
    pub fn set_state(&mut self, id: MistyStateId, value: S) -> (previous: S)
        requires
            old(self).wf(),
            old(self)@.states.can_update(),
            old(self)@.states.states.contains_key(id.0),
        ensures
            final(self).wf(),
            previous == old(self)@.states.states[id.0],
            final(self)@ == (ClientView {
                states: old(self)@.states.written(id.0, value),
                ..old(self)@
            }),
    {
        self.state_manager.set(id, value)
    }

    /// Applies `func` to the slot of the state `id`, inside a span, and
    /// returns what it returns. The state counts as written.
    pub fn update_state<O, F: FnOnce(&mut S) -> O>(&mut self, id: MistyStateId, func: F) -> (ret:
        O)
        requires
            old(self).wf(),
            old(self)@.states.can_update(),
            old(self)@.states.states.contains_key(id.0),
            forall|slot: &mut S|
                mut_ref_current(slot) == old(self)@.states.states[id.0] ==> call_requires(
                    func,
                    (slot,),
                ),
        ensures
            final(self).wf(),
            exists|slot: &mut S|
                {
                    &&& mut_ref_current(slot) == old(self)@.states.states[id.0]
                    &&& call_ensures(func, (slot,), ret)
                    &&& final(self)@ == (ClientView {
                        states: old(self)@.states.written(id.0, mut_ref_future(slot)),
                        ..old(self)@
                    })
                },
    {
        self.state_manager.update(id, func)
    }

    pub fn has_service(&self, id: MistyServiceId) -> (b: bool)
        ensures
            b == self@.services.contains_key(id.0),
    {
        self.service_manager.contains(id)
    }

    /// The service under `id`, which is registered.
    pub fn service(&self, id: MistyServiceId) -> (service: &V)
        requires
            self@.services.contains_key(id.0),
        ensures
            *service == self@.services[id.0],
    {
        self.service_manager.of(id)
    }

    /// Stores `buf` in the ledger and returns the first handle.
    pub fn insert_resource(&mut self, buf: Vec<u8>) -> (handle: MistyResourceHandle)
        requires
            old(self).wf(),
            old(self)@.resources.next_id < u64::MAX,
        ensures
            final(self).wf(),
            final(self)@ == (ClientView {
                resources: old(self)@.resources.inserted(buf@),
                ..old(self)@
            }),
            handle@.id == old(self)@.resources.next_id,
            handle@.bytes == buf@,
    {
        self.resource_manager.insert(buf)
    }

    /// Another handle for the resource `id`, if it is live.
    pub fn get_resource_handle(&mut self, id: MistyResourceId) -> (handle: Option<
        MistyResourceHandle,
    >)
        requires
            old(self).wf(),
            old(self)@.resources.live.contains_key(id.0) ==> old(self)@.resources.live[id.0].refs
                < u64::MAX,
        ensures
            final(self).wf(),
            final(self)@ == (ClientView {
                resources: old(self)@.resources.acquired(id.0),
                ..old(self)@
            }),
            handle is Some <==> old(self)@.resources.live.contains_key(id.0),
            handle matches Some(h) ==> h@.id == id.0 && h@.bytes
                == old(self)@.resources.live[id.0].bytes,
    {
        self.resource_manager.get_handle(id)
    }

    /// Gives a handle back to the ledger.
    pub fn release_resource(&mut self, handle: MistyResourceHandle)
        requires
            old(self).wf(),
        ensures
            final(self).wf(),
            final(self)@ == (ClientView {
                resources: old(self)@.resources.released(handle@.id),
                ..old(self)@
            }),
    {
        self.resource_manager.release(handle)
    }

    /// Enqueues `task` for the next flush and signals the host. On a
    /// destroyed client nothing happens. Returns whether the continuation
    /// was enqueued.
    pub fn schedule(&mut self, task: T) -> (enqueued: bool)
        ensures
            enqueued == !old(self)@.destroyed,
            final(self)@ == if old(self)@.destroyed {
                old(self)@
            } else {
                ClientView { scheduled: old(self)@.scheduled.push(task), ..old(self)@ }
            },
    {
        if self.destroyed {
            false
        } else {
            self.schedule_manager.enqueue(&self.signal_emitter, task);
            true
        }
    }

    /// Hands out the continuations that wait, oldest first, and leaves none
    /// waiting.
    pub fn take_all_tasks(&mut self) -> (tasks: Vec<T>)
        ensures
            tasks@ == old(self)@.scheduled,
            final(self)@ == old(self)@.drained(),
    {
        self.schedule_manager.take_all_tasks()
    }

    /// Stops tracking the background job `task_id`, which has come to its
    /// end. Returns whether it was tracked.
    pub fn finish_task(&mut self, task_id: u64) -> (was_tracked: bool)
        requires
            old(self).wf(),
        ensures
            final(self).wf(),
            final(self)@ == (ClientView { tasks: old(self)@.tasks.finished(task_id), ..old(self)@ }),
            was_tracked == old(self)@.tasks.is_tracked(task_id),
    {
        proof {
            if self@.destroyed {
                assert(self@.tasks.finished(task_id).entries =~= self@.tasks.entries) by {
                    reveal(Seq::filter);
                }
            }
        }
        self.async_task_pools.finish(task_id)
    }

    /// Opens a mutation span. With [`Self::finish_call`] it makes up what
    /// [`call_controller`] does around a controller.
    pub fn begin_call(&mut self)
        requires
            old(self).wf(),
            old(self)@.states.depth < u32::MAX,
        ensures
            final(self).wf(),
            final(self)@ == old(self)@.entered(),
    {
        self.state_manager.enter_mut_span();
    }

    /// Brings the bookkeeping of the span back to idle, after an invocation
    /// that ended out of the ordinary. Nothing that was written is taken
    /// back, and nothing that is pending in the ledger is dropped.
    pub fn reset_bookkeeping(&mut self)
        requires
            old(self).wf(),
        ensures
            final(self).wf(),
            final(self)@ == old(self)@.recovered(),
    {
        self.state_manager.reset();
    }

    /// Lets go of the guard of an invocation: one that is still armed
    /// brings the bookkeeping back to idle.
    pub fn release_guard(&mut self, guard: GuardCleanupStatesForPanic)
        requires
            old(self).wf(),
        ensures
            final(self).wf(),
            final(self)@ == if guard.is_marked() {
                old(self)@
            } else {
                old(self)@.recovered()
            },
    {
        guard.finish(&mut self.state_manager);
    }
}

impl<R: Default, S, T, A, V> MistyClientInner<R, S, T, A, V> {
    /// Closes the span of a controller that returned `res`, and commits
    /// where the span was the outermost one.
    pub fn finish_call<E>(&mut self, res: Result<(), E>) -> (ret: Result<ControllerRet<R>, E>)
        requires
            old(self).wf(),
            old(self)@.states.can_update(),
        ensures
            final(self).wf(),
            is_outcome(old(self)@, res, final(self)@, ret),
    {
        let can_notify = self.state_manager.leave_mut_span();
        let mut changed_view: Option<R> = None;
        let mut changed_resources: Vec<ResourceUpdateAction> = Vec::new();
        if can_notify {
            changed_resources = self.resource_manager.take_all_actions();
            changed_view = Some(self.view_manager.build_view(&self.state_manager));
            self.state_manager.clear_updated_states();
        }
        proof {
            assert(self@ =~= old(self)@.committed());
            crate::resources::lemma_ledger_steps_keep_wf(old(self)@.resources, Seq::empty(), 0);
        }
        match res {
            Err(e) => Err(e),
            Ok(_) => {
                let diff = ControllerRet { changed_view, changed_resources };
                assert(is_diff_of(old(self)@, diff));
                Ok(diff)
            },
        }
    }
}

impl<R, S, T, A: IAsyncTaskRuntimeAdapter, V> MistyClientInner<R, S, T, A, V> {
    /// Destroys the client: aborts every tracked background job and stops
    /// tracking them. Returns the handles that the backend was asked to
    /// abort.
    pub fn destroy(&mut self) -> (aborted: Vec<u64>)
        requires
            old(self).wf(),
        ensures
            final(self).wf(),
            final(self)@ == (ClientView {
                destroyed: true,
                tasks: old(self)@.tasks.cleared(),
                ..old(self)@
            }),
            aborted@ == old(self)@.tasks.all_handles(),
    {
        self.destroyed = true;
        self.async_task_pools.reset(&self.async_task_runtime)
    }

    /// Launches the job that `make_job` makes for the next task number and
    /// tracks it under `kind`. A destroyed client launches nothing.
    pub fn spawn<F: FnOnce(u64) -> A::Job>(&mut self, kind: MistyAsyncTaskId, make_job: F) -> (entry:
        Option<AsyncTaskEntry>)
        requires
            old(self).wf(),
            old(self)@.tasks.next_task_id < u64::MAX,
            call_requires(make_job, (old(self)@.tasks.next_task_id as u64,)),
        ensures
            final(self).wf(),
            entry is None <==> old(self)@.destroyed,
            entry is None ==> final(self)@ == old(self)@,
            entry matches Some(e) ==> e == old(self)@.tasks.next_entry(kind, e.handle)
                && final(self)@ == (ClientView {
                tasks: old(self)@.tasks.spawned(kind, e.handle),
                ..old(self)@
            }),
    {
        if self.destroyed {
            None
        } else {
            Some(self.async_task_pools.spawn(&self.async_task_runtime, kind, make_job))
        }
    }

    /// As [`Self::spawn`], after the tracked jobs of `kind` were cancelled:
    /// the new job is then the only tracked job of its kind. Returns its
    /// entry and the handles that the backend was asked to abort.
    pub fn spawn_once<F: FnOnce(u64) -> A::Job>(
        &mut self,
        kind: MistyAsyncTaskId,
        make_job: F,
    ) -> (r: Option<(AsyncTaskEntry, Vec<u64>)>)
        requires
            old(self).wf(),
            old(self)@.tasks.next_task_id < u64::MAX,
            call_requires(make_job, (old(self)@.tasks.next_task_id as u64,)),
        ensures
            final(self).wf(),
            r is None <==> old(self)@.destroyed,
            r is None ==> final(self)@ == old(self)@,
            r matches Some(p) ==> p.0 == old(self)@.tasks.next_entry(kind, p.0.handle) && p.1@
                == old(self)@.tasks.handles(kind) && final(self)@.tasks.live(kind) == seq![p.0]
                && final(self)@ == (ClientView {
                tasks: old(self)@.tasks.cancelled(kind).spawned(kind, p.0.handle),
                ..old(self)@
            }),
    {
        if self.destroyed {
            None
        } else {
            Some(self.async_task_pools.spawn_once(&self.async_task_runtime, kind, make_job))
        }
    }

    /// Aborts the tracked jobs of `kind` and stops tracking them. Returns
    /// the handles that the backend was asked to abort.
    pub fn cancel_all(&mut self, kind: MistyAsyncTaskId) -> (aborted: Vec<u64>)
        requires
            old(self).wf(),
        ensures
            final(self).wf(),
            final(self)@ == (ClientView { tasks: old(self)@.tasks.cancelled(kind), ..old(self)@ }),
            aborted@ == old(self)@.tasks.handles(kind),
    {
        proof {
            if self@.destroyed {
                crate::async_task::lemma_cancel_without_tasks_is_noop(
                    PoolsView { entries: Seq::empty(), ..self@.tasks },
                    kind,
                );
                assert(self@.tasks.entries =~= Seq::empty());
            }
        }
        self.async_task_pools.cancel_all(&self.async_task_runtime, kind)
    }

    /// Aborts the tracked jobs of `kind` until none is tracked. Where none
    /// was tracked, nothing changes and nothing is aborted.
    pub fn wait_all(&mut self, kind: MistyAsyncTaskId) -> (aborted: Vec<u64>)
        requires
            old(self).wf(),
        ensures
            final(self).wf(),
            final(self)@ == (ClientView { tasks: old(self)@.tasks.cancelled(kind), ..old(self)@ }),
            aborted@ == old(self)@.tasks.handles(kind),
            old(self)@.tasks.live(kind).len() == 0 ==> final(self)@ == old(self)@ && aborted@.len()
                == 0,
    {
        proof {
            if self@.destroyed {
                crate::async_task::lemma_cancel_without_tasks_is_noop(
                    PoolsView { entries: Seq::empty(), ..self@.tasks },
                    kind,
                );
                assert(self@.tasks.entries =~= Seq::empty());
            }
        }
        self.async_task_pools.wait_all(&self.async_task_runtime, kind)
    }
}

/// The holder of the application's one client.
#[verifier::reject_recursive_types(R)]
#[verifier::reject_recursive_types(S)]
pub struct SingletonMistyClientPod<R, S, T, A, V> {
    client: Option<MistyClientInner<R, S, T, A, V>>,
}

impl<R, S, T, A, V> SingletonMistyClientPod<R, S, T, A, V> {
    /// The client in the pod, if there is one.
    pub closed spec fn client(&self) -> Option<MistyClientInner<R, S, T, A, V>> {
        self.client
    }

    pub open spec fn wf(&self) -> bool {
        self.client() matches Some(c) ==> c.wf()
    }

    /// An empty pod.
    pub fn new() -> (r: Self)
        ensures
            r.client() is None,
    {
        SingletonMistyClientPod { client: None }
    }

    pub fn is_created(&self) -> (b: bool)
        ensures
            b == (self.client() is Some),
    {
        self.client.is_some()
    }

    /// Puts a new client into the pod, which holds none.
    pub fn create(
        &mut self,
        id: MistyClientId,
        view_manager: MistyViewModelManager<R, S>,
        state_manager: MistyStateManager<S>,
        service_manager: MistyServiceManager<V>,
        async_task_runtime: A,
    )
        requires
            old(self).client() is None,
            view_manager.covered_by(state_manager@.states),
            state_manager@.depth == 0,
            state_manager@.nothing_touched(),
        ensures
            final(self).wf(),
            final(self).client() matches Some(c) && c@ == (ClientView {
                id,
                states: state_manager@,
                bindings: view_manager@,
                services: service_manager@,
                resources: LedgerView::initial(),
                tasks: PoolsView::initial(),
                scheduled: Seq::<T>::empty(),
                signal_bound: false,
                destroyed: false,
            }),
    {
        self.client = Some(
            MistyClientInner::new(
                id,
                view_manager,
                state_manager,
                service_manager,
                async_task_runtime,
            ),
        );
    }

    /// The client in the pod, which holds one.
    pub fn inner(&self) -> (inner: &MistyClientInner<R, S, T, A, V>)
        requires
            self.client() is Some,
        ensures
            Some(*inner) == self.client(),
    {
        self.client.as_ref().unwrap()
    }

    /// The client in the pod, which holds one, for a caller that works on
    /// it in place.
    pub fn inner_mut(&mut self) -> (inner: &mut MistyClientInner<R, S, T, A, V>)
        requires
            old(self).client() is Some,
        ensures
            Some(*inner) == old(self).client(),
            final(self).client() == Some(*final(inner)),
    {
        self.client.as_mut().unwrap()
    }

    /// Binds the host's signal handler on the client in the pod.
    pub fn on_signal<F: MistySignalHandler + 'static>(&mut self, f: F)
        requires
            old(self).client() is Some,
        ensures
            final(self).client() matches Some(c) && c@ == (ClientView {
                signal_bound: true,
                ..old(self).client()->0@
            }),
    {
        let mut client = self.client.take().unwrap();
        client.on_signal(f);
        self.client = Some(client);
    }
}

impl<R, S, T, A: IAsyncTaskRuntimeAdapter, V> SingletonMistyClientPod<R, S, T, A, V> {
    /// Destroys the client in the pod and keeps it there.
    pub fn destroy(&mut self) -> (aborted: Vec<u64>)
        requires
            old(self).wf(),
            old(self).client() is Some,
        ensures
            final(self).wf(),
            final(self).client() matches Some(c) && c@ == (ClientView {
                destroyed: true,
                tasks: old(self).client()->0@.tasks.cleared(),
                ..old(self).client()->0@
            }),
            aborted@ == old(self).client()->0@.tasks.all_handles(),
    {
        let mut client = self.client.take().unwrap();
        let aborted = client.destroy();
        self.client = Some(client);
        aborted
    }

    /// Takes the client out of the pod, if there is one, and destroys it.
    /// Returns the handles that the backend was asked to abort.
    pub fn reset(&mut self) -> (aborted: Vec<u64>)
        requires
            old(self).wf(),
        ensures
            final(self).client() is None,
            aborted@ == match old(self).client() {
                Some(c) => c@.tasks.all_handles(),
                None => Seq::empty(),
            },
    {
        match self.client.take() {
            Some(client) => {
                let mut client = client;
                client.destroy()
            },
            None => Vec::new(),
        }
    }
}

impl<R: Default, S, T, A, V> SingletonMistyClientPod<R, S, T, A, V> {
    /// Runs `controller` on the client in the pod.
    pub fn call_controller<C, Arg, E>(&mut self, controller: C, arg: Arg) -> (ret: Result<
        ControllerRet<R>,
        E,
    >) where C: FnOnce(&mut MistyClientInner<R, S, T, A, V>, Arg) -> Result<(), E>
        requires
            old(self).wf(),
            old(self).client() matches Some(c) && !c@.destroyed && c@.states.depth < u32::MAX,
            forall|ctx: &mut MistyClientInner<R, S, T, A, V>|
                mut_ref_current(ctx).wf() && mut_ref_current(ctx)@
                    == old(self).client()->0@.entered() ==> #[trigger] call_requires(
                    controller,
                    (ctx, arg),
                ),
            forall|ctx: &mut MistyClientInner<R, S, T, A, V>, res: Result<(), E>|
                mut_ref_current(ctx).wf() && mut_ref_current(ctx)@
                    == old(self).client()->0@.entered() && #[trigger] call_ensures(
                    controller,
                    (ctx, arg),
                    res,
                ) ==> mut_ref_future(ctx).wf() && mut_ref_future(ctx)@.states.depth
                    == mut_ref_current(ctx)@.states.depth,
        ensures
            final(self).wf(),
            final(self).client() is Some,
            exists|ctx: &mut MistyClientInner<R, S, T, A, V>, res: Result<(), E>|
                {
                    &&& mut_ref_current(ctx)@ == old(self).client()->0@.entered()
                    &&& #[trigger] call_ensures(controller, (ctx, arg), res)
                    &&& is_outcome(mut_ref_future(ctx)@, res, final(self).client()->0@, ret)
                },
    {
        let mut client = self.client.take().unwrap();
        let ret = call_controller(&mut client, controller, arg);
        self.client = Some(client);
        ret
    }

    /// Runs the continuations that wait on the client in the pod, as one
    /// invocation.
    pub fn flush_scheduled_tasks<F>(&mut self, run: F) -> (ret: Result<
        ControllerRet<R>,
        Infallible,
    >) where F: Fn(T, &mut MistyClientInner<R, S, T, A, V>) -> bool
        requires
            old(self).wf(),
            old(self).client() matches Some(c) && !c@.destroyed && c@.states.depth < u32::MAX,
            forall|task: T, c: &mut MistyClientInner<R, S, T, A, V>|
                mut_ref_current(c).wf() && mut_ref_current(c)@.states.can_update()
                    ==> #[trigger] call_requires(run, (task, c)),
            forall|task: T, c: &mut MistyClientInner<R, S, T, A, V>, ok: bool|
                mut_ref_current(c).wf() && mut_ref_current(c)@.states.can_update()
                    && #[trigger] call_ensures(run, (task, c), ok) ==> mut_ref_future(c).wf()
                    && mut_ref_future(c)@.states.depth == mut_ref_current(c)@.states.depth,
        ensures
            final(self).wf(),
            final(self).client() is Some,
            ret is Ok,
            exists|ctx: &mut MistyClientInner<R, S, T, A, V>, res: Result<(), Infallible>|
                {
                    &&& mut_ref_current(ctx)@ == old(self).client()->0@.entered()
                    &&& #[trigger] call_ensures(
                        controller_flush_scheduled_tasks::<R, S, T, A, V, F>,
                        (ctx, run),
                        res,
                    )
                    &&& is_outcome(mut_ref_future(ctx)@, res, final(self).client()->0@, ret)
                },
    {
        let mut client = self.client.take().unwrap();
        let ret = call_controller(&mut client, controller_flush_scheduled_tasks, run);
        self.client = Some(client);
        ret
    }
}

/// An invocation that ended out of the ordinary leaves a client that can be
/// used again: once its bookkeeping is reset the client is well formed, no
/// span is open and nothing is recorded as written, so the next invocation
/// is an outermost one and commits a view of what it wrote itself. What was
/// written before stays written, and what is pending in the ledger stays
/// pending.
pub proof fn lemma_recovered_client_is_usable<R, S, T, V>(v: ClientView<R, S, T, V>)
    requires
        v.wf(),
    ensures
        v.recovered().wf(),
        v.recovered().states.depth == 0,
        v.recovered().states.nothing_touched(),
        v.recovered().states.states == v.states.states,
        v.recovered().resources == v.resources,
        v.recovered().entered().states.leaves_outermost(),
        v.recovered().entered().wf(),
{
}

/// An invocation on an idle client that writes nothing commits the client
/// as it was, with the ledger harvested.
pub proof fn lemma_empty_invocation_commits_nothing<R, S, T, V>(v: ClientView<R, S, T, V>)
    requires
        v.wf(),
        v.states.depth == 0,
    ensures
        v.entered().committed() == (ClientView { resources: v.resources.harvested(), ..v }),
        v.entered().states.left().nothing_touched(),
{
    assert(v.entered().states.left().cleared() =~= v.states);
    assert(v.entered().committed() =~= ClientView { resources: v.resources.harvested(), ..v });
}

/// An invocation inside another one commits nothing: it closes its span and
/// leaves the rest to the outer one.
pub proof fn lemma_inner_invocation_only_leaves<R, S, T, V>(v: ClientView<R, S, T, V>)
    requires
        v.states.depth > 0,
    ensures
        v.entered().committed() == v,
{
    assert(v.entered().states.left() =~= v.states);
    assert(v.entered().committed() =~= v);
}

} // verus!
