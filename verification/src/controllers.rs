//! The controller invoker: the transactional boundary of the core.
//!
//! A controller is a synchronous entry point of the application. It gets the
//! client and an argument, writes to states, inserts resources, schedules and
//! spawns, and may invoke further controllers. The invoker opens a mutation
//! span around it. When the outermost span closes, the invoker commits: it
//! harvests the resource ledger, builds the view from the states that were
//! written, and clears the touched set. An invocation inside another one
//! produces no diff; what it changed is part of the outer one's commit.
use crate::client::ClientView;
use crate::client::MistyClientInner;
use crate::resources::action_views;
use crate::resources::ResourceUpdateAction;
use crate::states::GuardCleanupStatesForPanic;
use crate::views::is_projection;
use crate::views::is_view_of;
use crate::views::lemma_nothing_touched_gives_default;
use std::convert::Infallible;
use vstd::prelude::*;

verus! {

/// What an invocation hands to the host.
pub struct ControllerRet<R> {
    /// The view, where the invocation was an outermost one.
    pub changed_view: Option<R>,
    /// The changes of the resource ledger since the last commit.
    pub changed_resources: Vec<ResourceUpdateAction>,
}

/// `diff` is what the invoker hands to the host for a controller that left
/// the client as `mid`: for an outermost invocation the view that the
/// bindings make of what was written, and a harvest of the ledger; for an
/// inner one, nothing.
pub open spec fn is_diff_of<R: Default, S, T, V>(
    mid: ClientView<R, S, T, V>,
    diff: ControllerRet<R>,
) -> bool {
    if mid.states.leaves_outermost() {
        &&& diff.changed_view matches Some(view)
        &&& is_view_of(mid.bindings, mid.states.left(), view)
        &&& mid.resources.is_harvest(action_views(diff.changed_resources@))
    } else {
        &&& diff.changed_view is None
        &&& diff.changed_resources@.len() == 0
    }
}

/// `after` and `ret` are what the invoker makes of a controller that left
/// the client as `mid` and returned `res`. The commit takes place whatever
/// the controller returned; its error is handed on in place of the diff.
pub open spec fn is_outcome<R: Default, S, T, V, E>(
    mid: ClientView<R, S, T, V>,
    res: Result<(), E>,
    after: ClientView<R, S, T, V>,
    ret: Result<ControllerRet<R>, E>,
) -> bool {
    &&& after == mid.committed()
    &&& match res {
        Err(e) => ret == Err::<ControllerRet<R>, E>(e),
        Ok(_) => ret matches Ok(diff) && is_diff_of(mid, diff),
    }
}

/// Runs `controller` on `arg` inside a mutation span and commits when the
/// span was the outermost one.
///
/// The controller must be callable on the client as it is once the span is
/// open, and it must leave the client well formed and inside the span in
/// which it was started. The methods of the client keep both.
pub fn call_controller<R: Default, S, T, A, V, C, Arg, E>(
    inner: &mut MistyClientInner<R, S, T, A, V>,
    controller: C,
    arg: Arg,
) -> (ret: Result<ControllerRet<R>, E>) where
    C: FnOnce(&mut MistyClientInner<R, S, T, A, V>, Arg) -> Result<(), E>,

    requires
        old(inner).wf(),
        !old(inner)@.destroyed,
        old(inner)@.states.depth < u32::MAX,
        forall|ctx: &mut MistyClientInner<R, S, T, A, V>|
            mut_ref_current(ctx).wf() && mut_ref_current(ctx)@ == old(inner)@.entered()
                ==> #[trigger] call_requires(controller, (ctx, arg)),
        forall|ctx: &mut MistyClientInner<R, S, T, A, V>, res: Result<(), E>|
            mut_ref_current(ctx).wf() && mut_ref_current(ctx)@ == old(inner)@.entered()
                && #[trigger] call_ensures(controller, (ctx, arg), res) ==> mut_ref_future(
                ctx,
            ).wf() && mut_ref_future(ctx)@.states.depth == mut_ref_current(ctx)@.states.depth,
    ensures
        final(inner).wf(),
        exists|ctx: &mut MistyClientInner<R, S, T, A, V>, res: Result<(), E>|
            {
                &&& mut_ref_current(ctx)@ == old(inner)@.entered()
                &&& #[trigger] call_ensures(controller, (ctx, arg), res)
                &&& is_outcome(mut_ref_future(ctx)@, res, final(inner)@, ret)
            },
{
    let mut cleanup_guard = GuardCleanupStatesForPanic::new();
    inner.begin_call();
    let res = controller(inner, arg);
    let ret = inner.finish_call(res);
    cleanup_guard.mark();
    inner.release_guard(cleanup_guard);
    ret
}

/// An outermost invocation that writes nothing commits a default view: no
/// binding runs. So does the first invocation on a new client, where
/// nothing has been written yet.
pub proof fn lemma_invocation_without_writes_commits_default<R: Default, S, T, V>(
    v: ClientView<R, S, T, V>,
    diff: ControllerRet<R>,
)
    requires
        v.wf(),
        v.states.depth == 0,
        is_diff_of(v.entered(), diff),
    ensures
        diff.changed_view matches Some(view) && call_ensures(R::default, (), view),
{
    let mid = v.entered();
    let view = diff.changed_view->0;
    let trace = choose|trace: Seq<R>|
        #[trigger] is_projection(mid.bindings, mid.states.left(), trace) && view == trace.last();
    lemma_nothing_touched_gives_default(mid.bindings, mid.states.left(), trace);
}

/// The place of a continuation in the queue that a flush drained. It marks
/// the step of the flush that a statement is about.
pub open spec fn flush_step(i: int) -> int {
    i
}

/// Has `run` run one continuation on the client.
fn run_scheduled_task<R, S, T, A, V, F>(
    ctx: &mut MistyClientInner<R, S, T, A, V>,
    run: &F,
    task: T,
) -> (ok: bool) where F: Fn(T, &mut MistyClientInner<R, S, T, A, V>) -> bool
    requires
        old(ctx).wf(),
        old(ctx)@.states.can_update(),
        forall|task: T, c: &mut MistyClientInner<R, S, T, A, V>|
            mut_ref_current(c).wf() && mut_ref_current(c)@.states.can_update()
                ==> #[trigger] call_requires(*run, (task, c)),
        forall|task: T, c: &mut MistyClientInner<R, S, T, A, V>, ok: bool|
            mut_ref_current(c).wf() && mut_ref_current(c)@.states.can_update()
                && #[trigger] call_ensures(*run, (task, c), ok) ==> mut_ref_future(c).wf()
                && mut_ref_future(c)@.states.depth == mut_ref_current(c)@.states.depth,
    ensures
        final(ctx).wf(),
        final(ctx)@.states.depth == old(ctx)@.states.depth,
        exists|c: &mut MistyClientInner<R, S, T, A, V>|
            #![trigger call_ensures(*run, (task, c), ok)]
            {
                &&& mut_ref_current(c)@ == old(ctx)@
                &&& mut_ref_future(c)@ == final(ctx)@
                &&& call_ensures(*run, (task, c), ok)
            },
{
    run(task, ctx)
}

/// The controller that drains the scheduler: it takes the continuations
/// that wait and has `run` run them one after the other, in the order in
/// which they were enqueued. What a continuation schedules waits for the
/// next flush. `run` returns whether its continuation succeeded; one that
/// failed does not keep the others from running.
///
/// `run` must be callable on any well-formed client with an open span, and
/// it must leave the client well formed and inside that span. The result
/// is stated over a trace: the content of the client before the first
/// continuation and after each of them.
pub fn controller_flush_scheduled_tasks<R, S, T, A, V, F>(
    ctx: &mut MistyClientInner<R, S, T, A, V>,
    run: F,
) -> (r: Result<(), Infallible>) where F: Fn(T, &mut MistyClientInner<R, S, T, A, V>) -> bool
    requires
        old(ctx).wf(),
        old(ctx)@.states.can_update(),
        forall|task: T, c: &mut MistyClientInner<R, S, T, A, V>|
            mut_ref_current(c).wf() && mut_ref_current(c)@.states.can_update()
                ==> #[trigger] call_requires(run, (task, c)),
        forall|task: T, c: &mut MistyClientInner<R, S, T, A, V>, ok: bool|
            mut_ref_current(c).wf() && mut_ref_current(c)@.states.can_update()
                && #[trigger] call_ensures(run, (task, c), ok) ==> mut_ref_future(c).wf()
                && mut_ref_future(c)@.states.depth == mut_ref_current(c)@.states.depth,
    ensures
        r is Ok,
        final(ctx).wf(),
        final(ctx)@.states.depth == old(ctx)@.states.depth,
        exists|trace: Seq<ClientView<R, S, T, V>>|
            {
                &&& trace.len() == old(ctx)@.scheduled.len() + 1
                &&& trace[0] == old(ctx)@.drained()
                &&& trace.last() == final(ctx)@
                &&& forall|i: int|
                    0 <= #[trigger] flush_step(i) < old(ctx)@.scheduled.len() ==> exists|
                        c: &mut MistyClientInner<R, S, T, A, V>,
                        ok: bool,
                    |
                        #![trigger call_ensures(run, (old(ctx)@.scheduled[i], c), ok)]
                        {
                            &&& mut_ref_current(c)@ == trace[i]
                            &&& mut_ref_future(c)@ == trace[i + 1]
                            &&& call_ensures(run, (old(ctx)@.scheduled[i], c), ok)
                        }
            },
{
    let mut tasks = ctx.take_all_tasks();
    let ghost all = tasks@;
    let mut stack: Vec<T> = Vec::new();
    while tasks.len() > 0
        invariant
            stack@.len() + tasks@.len() == all.len(),
            forall|k: int| 0 <= k < tasks@.len() ==> tasks@[k] == all[k],
            forall|k: int|
                0 <= k < stack@.len() ==> #[trigger] stack@[k] == all[all.len() - 1 - k],
        decreases tasks@.len(),
    {
        let task = tasks.pop().unwrap();
        stack.push(task);
    }
    let ghost first = ctx@;
    let ghost mut trace: Seq<ClientView<R, S, T, V>> = seq![first];
    let ghost mut done: int = 0;
    while stack.len() > 0
        invariant
            forall|task: T, c: &mut MistyClientInner<R, S, T, A, V>|
                mut_ref_current(c).wf() && mut_ref_current(c)@.states.can_update()
                    ==> #[trigger] call_requires(run, (task, c)),
            forall|task: T, c: &mut MistyClientInner<R, S, T, A, V>, ok: bool|
                mut_ref_current(c).wf() && mut_ref_current(c)@.states.can_update()
                    && #[trigger] call_ensures(run, (task, c), ok) ==> mut_ref_future(c).wf()
                    && mut_ref_future(c)@.states.depth == mut_ref_current(c)@.states.depth,
            ctx.wf(),
            ctx@.states.can_update(),
            ctx@.states.depth == first.states.depth,
            0 <= done,
            done + stack@.len() == all.len(),
            forall|k: int|
                0 <= k < stack@.len() ==> #[trigger] stack@[k] == all[all.len() - 1 - k],
            trace.len() == done + 1,
            trace[0] == first,
            trace[done] == ctx@,
            forall|i: int|
                0 <= #[trigger] flush_step(i) < done ==> exists|c: &mut MistyClientInner<R, S, T, A, V>, ok: bool|
                    #![trigger call_ensures(run, (all[i], c), ok)]
                    {
                        &&& mut_ref_current(c)@ == trace[i]
                        &&& mut_ref_future(c)@ == trace[i + 1]
                        &&& call_ensures(run, (all[i], c), ok)
                    },
        decreases stack@.len(),
    {
        let ghost before = ctx@;
        let ghost shorter = trace;
        let ghost remaining = stack@;
        let task = stack.pop().unwrap();
        assert(task == all[done]) by {
            assert(task == remaining[remaining.len() - 1]);
        }
        let ok = run_scheduled_task(ctx, &run, task);
        proof {
            let after = ctx@;
            trace = shorter.push(after);
            assert(trace[done] == before);
            assert(trace[done + 1] == after);
            assert(flush_step(done) == done);
            assert forall|i: int| 0 <= #[trigger] flush_step(i) < done + 1 implies exists|
                c: &mut MistyClientInner<R, S, T, A, V>,
                ok: bool,
            |
                #![trigger call_ensures(run, (all[i], c), ok)]
                {
                    &&& mut_ref_current(c)@ == trace[i]
                    &&& mut_ref_future(c)@ == trace[i + 1]
                    &&& call_ensures(run, (all[i], c), ok)
                } by {
                if i < done {
                    assert(flush_step(i) == i);
                    assert(trace[i] == shorter[i]);
                    assert(trace[i + 1] == shorter[i + 1]);
                }
            }
            done = done + 1;
        }
    }
    Ok(())
}

} // verus!
