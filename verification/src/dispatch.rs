use crate::app::{App, AppView, NT_APP_RUN, NT_APP_SHUTDOWN};
use crate::event::{AppEvent, AppEventData};
use crate::handlers::{ModuleId, MODS_STACK_LIMIT};
use vstd::prelude::*;

verus! {

/// What a hooked call wraps between its pre and post hooks.
#[derive(Debug, Clone, Copy, PartialEq, Eq, Structural)]
pub enum Body {
    /// The handlers of a notify, in order, until one handles it.
    Notify,
    /// A module loading: the module is called with the `LOAD` event.
    Load(ModuleId),
    /// A module unloading: the module is called with the `UNLOAD` event,
    /// then taken off every notify and hook.
    Unload(ModuleId),
}

/// Where a hooked call stands.
#[derive(Debug, Clone, Copy, PartialEq, Eq, Structural)]
pub enum Stage {
    PreStart,
    Pre,
    BodyStart,
    BodyRun,
    BodyAfter,
    PostStart,
    Post,
    Finished,
}

/// What the caller does next for a hooked call.
#[derive(Debug, Clone, Copy, PartialEq, Eq, Structural)]
pub enum Action {
    /// Call the module with the `HOOK` event for the origin event, as a
    /// pre hook or a post hook.
    CallHook { module: ModuleId, pre: bool },
    /// Call the module with the origin event.
    CallModule { module: ModuleId },
    /// Reset the hook event's `handled` flag: the post hooks follow.
    ClearHookHandled,
    /// The call is over, with success.
    Done,
}

/// One dispatch of an event wrapped in its hooks: the pre hooks, the body,
/// then the post hooks. The caller performs each action that `next`
/// returns, and an error of a call ends the dispatch with that error.
pub struct HookedCall {
    event: AppEvent,
    notify: String,
    body: Body,
    stage: Stage,
    queue: Vec<ModuleId>,
    pos: usize,
}

pub struct HookedCallView {
    pub event: AppEvent,
    pub notify: Seq<char>,
    pub body: Body,
    pub stage: Stage,
    pub queue: Seq<ModuleId>,
    pub pos: nat,
}

impl View for HookedCall {
    type V = HookedCallView;

    closed spec fn view(&self) -> HookedCallView {
        HookedCallView {
            event: self.event,
            notify: self.notify@,
            body: self.body,
            stage: self.stage,
            queue: self.queue@,
            pos: self.pos as nat,
        }
    }
}

/// The kernel after a load has been dispatched: `mod_pos` moves on.
pub open spec fn after_finish(a: AppView, body: Body) -> AppView {
    match body {
        Body::Load(_) => AppView { mod_pos: a.mod_pos.wrapping_add(1), ..a },
        _ => a,
    }
}

/// One step of a hooked call, given whether the origin event and the hook
/// event are marked handled. A step that returns no action is internal.
pub open spec fn step(d: HookedCallView, a: AppView, oh: bool, hh: bool) -> (
    HookedCallView,
    AppView,
    Option<Action>,
) {
    match d.stage {
        Stage::PreStart => (
            HookedCallView {
                queue: a.hooks_for(d.event, d.notify),
                pos: 0,
                stage: Stage::Pre,
                ..d
            },
            a,
            None,
        ),
        Stage::Pre => if d.pos < d.queue.len() && !hh {
            (
                HookedCallView { pos: d.pos + 1, ..d },
                a,
                Some(Action::CallHook { module: d.queue[d.pos as int], pre: true }),
            )
        } else if oh {
            (HookedCallView { stage: Stage::Finished, ..d }, after_finish(a, d.body), Some(Action::Done))
        } else {
            (HookedCallView { stage: Stage::BodyStart, ..d }, a, None)
        },
        Stage::BodyStart => match d.body {
            Body::Notify => (
                HookedCallView {
                    queue: a.notify_handlers(d.notify),
                    pos: 0,
                    stage: Stage::BodyRun,
                    ..d
                },
                a,
                None,
            ),
            Body::Load(m) => (
                HookedCallView { stage: Stage::BodyAfter, ..d },
                a,
                Some(Action::CallModule { module: m }),
            ),
            Body::Unload(m) => (
                HookedCallView { stage: Stage::BodyAfter, ..d },
                a,
                Some(Action::CallModule { module: m }),
            ),
        },
        Stage::BodyRun => if d.pos < d.queue.len() && !oh {
            (
                HookedCallView { pos: d.pos + 1, ..d },
                a,
                Some(Action::CallModule { module: d.queue[d.pos as int] }),
            )
        } else {
            (HookedCallView { stage: Stage::PostStart, ..d }, a, Some(Action::ClearHookHandled))
        },
        Stage::BodyAfter => (
            HookedCallView { stage: Stage::PostStart, ..d },
            match d.body {
                Body::Unload(m) => a.drop_module(m),
                _ => a,
            },
            Some(Action::ClearHookHandled),
        ),
        Stage::PostStart => (
            HookedCallView {
                queue: a.hooks_for(d.event, d.notify),
                pos: 0,
                stage: Stage::Post,
                ..d
            },
            a,
            None,
        ),
        Stage::Post => if d.pos < d.queue.len() && !hh {
            (
                HookedCallView { pos: d.pos + 1, ..d },
                a,
                Some(Action::CallHook { module: d.queue[d.pos as int], pre: false }),
            )
        } else {
            (HookedCallView { stage: Stage::Finished, ..d }, after_finish(a, d.body), Some(Action::Done))
        },
        Stage::Finished => (d, a, Some(Action::Done)),
    }
}

/// Up to `fuel` internal steps, then the first step that returns an action.
pub open spec fn advance(d: HookedCallView, a: AppView, oh: bool, hh: bool, fuel: nat) -> (
    HookedCallView,
    AppView,
    Action,
)
    decreases fuel,
{
    let (d2, a2, act) = step(d, a, oh, hh);
    match act {
        Some(x) => (d2, a2, x),
        None => if fuel == 0 {
            (d2, a2, Action::Done)
        } else {
            advance(d2, a2, oh, hh, (fuel - 1) as nat)
        },
    }
}

impl HookedCall {
    pub closed spec fn wf(&self) -> bool {
        self.pos <= self.queue.len()
    }

    pub fn event(&self) -> (res: AppEvent)
        ensures
            res == self@.event,
    {
        self.event
    }

    pub fn notify(&self) -> (res: &str)
        ensures
            res@ == self@.notify,
    {
        self.notify.as_str()
    }

    pub fn body(&self) -> (res: Body)
        ensures
            res == self@.body,
    {
        self.body
    }

    /// Whether the next step collects hooks: it panics if they are more
    /// than `MODS_STACK_LIMIT`.
    pub open spec fn needs_hooks(&self) -> bool {
        self@.stage == Stage::PreStart || self@.stage == Stage::PostStart
    }

    /// Performs one step.
    fn step_exec(&mut self, app: &mut App, oh: bool, hh: bool) -> (res: Option<Action>)
        requires
            old(self).wf(),
            old(app)@.wf(),
            (old(self)@.stage == Stage::PreStart || old(self)@.stage == Stage::PostStart) ==> old(
                app,
            )@.hooks_for(old(self)@.event, old(self)@.notify).len() <= MODS_STACK_LIMIT,
        ensures
            final(self).wf(),
            final(app)@.wf(),
            (final(self)@, final(app)@, res) == step(old(self)@, old(app)@, oh, hh),
    {
        match self.stage {
            Stage::PreStart => {
                self.queue = app.hooks_for(self.event, self.notify.as_str());
                self.pos = 0;
                self.stage = Stage::Pre;
                None
            },
            Stage::Pre => {
                if self.pos < self.queue.len() && !hh {
                    let m = self.queue[self.pos];
                    self.pos = self.pos + 1;
                    Some(Action::CallHook { module: m, pre: true })
                } else if oh {
                    self.stage = Stage::Finished;
                    if let Body::Load(_) = self.body {
                        app.finish_load();
                    }
                    Some(Action::Done)
                } else {
                    self.stage = Stage::BodyStart;
                    None
                }
            },
            Stage::BodyStart => match self.body {
                Body::Notify => {
                    self.queue = app.notify_handlers(self.notify.as_str());
                    self.pos = 0;
                    self.stage = Stage::BodyRun;
                    None
                },
                Body::Load(m) => {
                    self.stage = Stage::BodyAfter;
                    Some(Action::CallModule { module: m })
                },
                Body::Unload(m) => {
                    self.stage = Stage::BodyAfter;
                    Some(Action::CallModule { module: m })
                },
            },
            Stage::BodyRun => {
                if self.pos < self.queue.len() && !oh {
                    let m = self.queue[self.pos];
                    self.pos = self.pos + 1;
                    Some(Action::CallModule { module: m })
                } else {
                    self.stage = Stage::PostStart;
                    Some(Action::ClearHookHandled)
                }
            },
            Stage::BodyAfter => {
                if let Body::Unload(m) = self.body {
                    app.drop_handlers(m);
                }
                self.stage = Stage::PostStart;
                Some(Action::ClearHookHandled)
            },
            Stage::PostStart => {
                self.queue = app.hooks_for(self.event, self.notify.as_str());
                self.pos = 0;
                self.stage = Stage::Post;
                None
            },
            Stage::Post => {
                if self.pos < self.queue.len() && !hh {
                    let m = self.queue[self.pos];
                    self.pos = self.pos + 1;
                    Some(Action::CallHook { module: m, pre: false })
                } else {
                    self.stage = Stage::Finished;
                    if let Body::Load(_) = self.body {
                        app.finish_load();
                    }
                    Some(Action::Done)
                }
            },
            Stage::Finished => Some(Action::Done),
        }
    }

    /// The next action of the call, after the internal steps before it.
    pub fn next(&mut self, app: &mut App, origin_handled: bool, hook_handled: bool) -> (res: Action)
        requires
            old(self).wf(),
            old(app)@.wf(),
            old(self).needs_hooks() ==> old(app)@.hooks_for(old(self)@.event, old(self)@.notify).len()
                <= MODS_STACK_LIMIT,
        ensures
            final(self).wf(),
            final(app)@.wf(),
            (final(self)@, final(app)@, res) == advance(
                old(self)@,
                old(app)@,
                origin_handled,
                hook_handled,
                4,
            ),
    {
        let mut fuel: usize = 4;
        loop
            invariant
                self.wf(),
                app@.wf(),
                fuel <= 4,
                advance(old(self)@, old(app)@, origin_handled, hook_handled, 4) == advance(
                    self@,
                    app@,
                    origin_handled,
                    hook_handled,
                    fuel as nat,
                ),
                self.needs_hooks() ==> (self@.stage == Stage::PreStart && self@ == old(self)@ && app@
                    == old(app)@) || (self@.stage == Stage::PostStart && self@ == old(self)@ && app@
                    == old(app)@),
                old(self).needs_hooks() ==> old(app)@.hooks_for(old(self)@.event, old(self)@.notify).len()
                    <= MODS_STACK_LIMIT,
            decreases fuel,
        {
            match self.step_exec(app, origin_handled, hook_handled) {
                Some(action) => {
                    return action;
                },
                None => {
                    if fuel == 0 {
                        return Action::Done;
                    }
                    fuel -= 1;
                },
            }
        }
    }

    /// The next action of the call, with the origin event's own `handled`
    /// flag: the event that the handlers receive decides when they stop.
    pub fn next_for<S, C, R>(
        &mut self,
        app: &mut App,
        event: &AppEventData<S, C, R>,
        hook_handled: bool,
    ) -> (res: Action)
        requires
            old(self).wf(),
            old(app)@.wf(),
            old(self).needs_hooks() ==> old(app)@.hooks_for(old(self)@.event, old(self)@.notify).len()
                <= MODS_STACK_LIMIT,
        ensures
            final(self).wf(),
            final(app)@.wf(),
            (final(self)@, final(app)@, res) == advance(
                old(self)@,
                old(app)@,
                event.spec_handled(),
                hook_handled,
                4,
            ),
    {
        self.next(app, event.handled(), hook_handled)
    }
}

/// A hooked call at its start.
pub open spec fn initial(event: AppEvent, notify: Seq<char>, body: Body) -> HookedCallView {
    HookedCallView { event, notify, body, stage: Stage::PreStart, queue: Seq::empty(), pos: 0 }
}

fn new_call(event: AppEvent, notify: &str, body: Body) -> (res: HookedCall)
    ensures
        res.wf(),
        res@ == initial(event, notify@, body),
{
    let res = HookedCall {
        event,
        notify: notify.to_owned(),
        body,
        stage: Stage::PreStart,
        queue: Vec::new(),
        pos: 0,
    };
    assert(res@.queue =~= Seq::<ModuleId>::empty());
    res
}

impl App {
    /// Starts loading a module: it is inserted at `load_pos` unless it, or a
    /// module of the same name, is loaded already (then `None`: nothing to
    /// do). The call's body calls the module with `LOAD`; when it finishes,
    /// `mod_pos` moves on, so that the modules it loads in turn come before it.
    pub fn module_load(&mut self, module: ModuleId, name: &str) -> (res: Option<HookedCall>)
        requires
            old(self)@.wf(),
        ensures
            final(self)@.wf(),
            res is Some == (!old(self)@.modules.contains(module) && !old(self)@.names.contains(
                name@,
            )),
            res is Some ==> final(self)@.modules == old(self)@.modules.insert(
                old(self)@.load_pos(),
                module,
            ) && final(self)@.names == old(self)@.names.insert(old(self)@.load_pos(), name@)
                && res->Some_0.wf() && res->Some_0@ == initial(
                AppEvent::LOAD,
                name@,
                Body::Load(module),
            ),
            res is None ==> final(self)@ == old(self)@,
            final(self)@.mod_pos == old(self)@.mod_pos,
            final(self)@.notifies == old(self)@.notifies,
            final(self)@.hooks == old(self)@.hooks,
    {
        if self.insert_module(module, name) {
            Some(new_call(AppEvent::LOAD, name, Body::Load(module)))
        } else {
            None
        }
    }

    /// Starts unloading a module: it is taken off the module list and
    /// `mod_pos` moves to the end of it, unless it is not loaded (then
    /// `None`). The call's body calls the module with `UNLOAD`, then takes it
    /// off every notify and hook.
    pub fn module_unload(&mut self, module: ModuleId, name: &str) -> (res: Option<HookedCall>)
        requires
            old(self)@.wf(),
        ensures
            final(self)@.wf(),
            res is Some == old(self)@.modules.contains(module),
            res is Some ==> (exists|i: int|
                0 <= i < old(self)@.modules.len() && old(self)@.modules[i] == module && final(self)@.modules
                    == old(self)@.modules.remove(i) && final(self)@.names == old(self)@.names.remove(i))
                && final(self)@.mod_pos == final(self)@.modules.len() && res->Some_0.wf()
                && res->Some_0@ == initial(AppEvent::UNLOAD, name@, Body::Unload(module)),
            res is None ==> final(self)@ == old(self)@,
            final(self)@.notifies == old(self)@.notifies,
            final(self)@.hooks == old(self)@.hooks,
    {
        if self.remove_module(module) {
            Some(new_call(AppEvent::UNLOAD, name, Body::Unload(module)))
        } else {
            None
        }
    }

    /// Starts the run of the application: the `App::run` notify, with no
    /// result to start with.
    pub fn run<S, C, R>(&self, sender: Option<S>, context: Option<C>) -> (res: (
        Option<HookedCall>,
        AppEventData<S, C, R>,
    ))
        requires
            self@.wf(),
        ensures
            res.0 is Some == (self@.notify_handlers(NT_APP_RUN@).len() > 0),
            res.0 is Some ==> res.0->Some_0.wf() && res.0->Some_0@ == initial(
                AppEvent::NOTIFY,
                NT_APP_RUN@,
                Body::Notify,
            ),
            res.1.spec_event() == AppEvent::NOTIFY,
            res.1.spec_notify() == NT_APP_RUN@,
            res.1.spec_sender() == sender,
            res.1.spec_context() == context,
            res.1.spec_result() is None,
            !res.1.spec_handled(),
    {
        self.notify(NT_APP_RUN, sender, context, None)
    }

    /// Starts the shutdown: the `App::shutdown` notify, and the modules to
    /// unload after it, the last loaded first.
    pub fn shutdown<S, C, R>(&self, sender: Option<S>, context: Option<C>) -> (res: (
        Option<HookedCall>,
        AppEventData<S, C, R>,
        Vec<ModuleId>,
    ))
        requires
            self@.wf(),
        ensures
            res.0 is Some == (self@.notify_handlers(NT_APP_SHUTDOWN@).len() > 0),
            res.0 is Some ==> res.0->Some_0.wf() && res.0->Some_0@ == initial(
                AppEvent::NOTIFY,
                NT_APP_SHUTDOWN@,
                Body::Notify,
            ),
            res.1.spec_event() == AppEvent::NOTIFY,
            res.1.spec_notify() == NT_APP_SHUTDOWN@,
            res.1.spec_sender() == sender,
            res.1.spec_context() == context,
            res.1.spec_result() is None,
            !res.1.spec_handled(),
            res.2@ == self@.modules.reverse(),
    {
        let (call, event) = self.notify(NT_APP_SHUTDOWN, sender, context, None);
        (call, event, self.unload_order())
    }

    /// Starts a notify: the event that its handlers receive, from the
    /// sender with its context and the result it starts with, and the call
    /// that dispatches it. With no handler there is no call: neither
    /// handlers nor hooks run, and the event, untouched, gives back the
    /// result it was given.
    pub fn notify<S, C, R>(
        &self,
        notify: &str,
        sender: Option<S>,
        context: Option<C>,
        result: Option<R>,
    ) -> (res: (Option<HookedCall>, AppEventData<S, C, R>))
        requires
            self@.wf(),
        ensures
            res.0 is Some == (self@.notify_handlers(notify@).len() > 0),
            res.0 is Some ==> res.0->Some_0.wf() && res.0->Some_0@ == initial(
                AppEvent::NOTIFY,
                notify@,
                Body::Notify,
            ),
            res.1.spec_event() == AppEvent::NOTIFY,
            res.1.spec_notify() == notify@,
            res.1.spec_sender() == sender,
            res.1.spec_context() == context,
            res.1.spec_result() == result,
            !res.1.spec_handled(),
    {
        let event = AppEventData::new(AppEvent::NOTIFY, notify, sender, context, result);
        if self.has_notify_handlers(notify) {
            (Some(new_call(AppEvent::NOTIFY, notify, Body::Notify)), event)
        } else {
            (None, event)
        }
    }
}


// ---------------------------------------------------------------------
// Laws of the dispatch
// ---------------------------------------------------------------------

/// The actions of a call, step after step, while nothing marks the event
/// or the hook handled, until `Done` or the fuel runs out.
pub open spec fn run_actions(d: HookedCallView, a: AppView, fuel: nat) -> Seq<Action>
    decreases fuel,
{
    if fuel == 0 {
        Seq::empty()
    } else {
        let (d2, a2, act) = advance(d, a, false, false, 4);
        if act == Action::Done {
            seq![Action::Done]
        } else {
            seq![act] + run_actions(d2, a2, (fuel - 1) as nat)
        }
    }
}

/// The calls of hooks, in order.
pub open spec fn hook_calls(h: Seq<ModuleId>, pre: bool) -> Seq<Action> {
    h.map_values(|m: ModuleId| Action::CallHook { module: m, pre })
}

/// The calls of handlers, in order.
pub open spec fn module_calls(h: Seq<ModuleId>) -> Seq<Action> {
    h.map_values(|m: ModuleId| Action::CallModule { module: m })
}

spec fn phase(
    e: AppEvent,
    n: Seq<char>,
    b: Body,
    stage: Stage,
    queue: Seq<ModuleId>,
    pos: nat,
) -> HookedCallView {
    HookedCallView { event: e, notify: n, body: b, stage, queue, pos }
}

proof fn lemma_pre_phase(a: AppView, e: AppEvent, n: Seq<char>, b: Body, k: nat, rest: nat)
    requires
        k <= a.hooks_for(e, n).len(),
    ensures
        ({
            let h = a.hooks_for(e, n);
            run_actions(phase(e, n, b, Stage::Pre, h, k), a, (h.len() - k) as nat + rest)
                == hook_calls(h.subrange(k as int, h.len() as int), true) + run_actions(
                phase(e, n, b, Stage::Pre, h, h.len()),
                a,
                rest,
            )
        }),
    decreases a.hooks_for(e, n).len() - k,
{
    let h = a.hooks_for(e, n);
    if k < h.len() {
        lemma_pre_phase(a, e, n, b, k + 1, rest);
        assert(h.subrange(k as int, h.len() as int) =~= seq![h[k as int]] + h.subrange(
            k + 1 as int,
            h.len() as int,
        ));
        assert(hook_calls(h.subrange(k as int, h.len() as int), true) =~= seq![
            Action::CallHook { module: h[k as int], pre: true },
        ] + hook_calls(h.subrange(k + 1 as int, h.len() as int), true));
        assert(((h.len() - k) as nat + rest - 1) as nat == (h.len() - (k + 1)) as nat + rest);
    } else {
        assert(hook_calls(h.subrange(k as int, h.len() as int), true) =~= Seq::<Action>::empty());
    }
}

proof fn lemma_body_phase(a: AppView, n: Seq<char>, j: nat, rest: nat)
    requires
        j <= a.notify_handlers(n).len(),
    ensures
        ({
            let q = a.notify_handlers(n);
            let e = AppEvent::NOTIFY;
            run_actions(phase(e, n, Body::Notify, Stage::BodyRun, q, j), a, (q.len() - j) as nat + rest)
                == module_calls(q.subrange(j as int, q.len() as int)) + run_actions(
                phase(e, n, Body::Notify, Stage::BodyRun, q, q.len()),
                a,
                rest,
            )
        }),
    decreases a.notify_handlers(n).len() - j,
{
    let q = a.notify_handlers(n);
    if j < q.len() {
        lemma_body_phase(a, n, j + 1, rest);
        assert(q.subrange(j as int, q.len() as int) =~= seq![q[j as int]] + q.subrange(
            j + 1 as int,
            q.len() as int,
        ));
        assert(module_calls(q.subrange(j as int, q.len() as int)) =~= seq![
            Action::CallModule { module: q[j as int] },
        ] + module_calls(q.subrange(j + 1 as int, q.len() as int)));
        assert(((q.len() - j) as nat + rest - 1) as nat == (q.len() - (j + 1)) as nat + rest);
    } else {
        assert(module_calls(q.subrange(j as int, q.len() as int)) =~= Seq::<Action>::empty());
    }
}

proof fn lemma_post_phase(a: AppView, e: AppEvent, n: Seq<char>, b: Body, k: nat)
    requires
        k <= a.hooks_for(e, n).len(),
    ensures
        ({
            let h = a.hooks_for(e, n);
            run_actions(phase(e, n, b, Stage::Post, h, k), a, (h.len() - k) as nat + 1)
                == hook_calls(h.subrange(k as int, h.len() as int), false) + seq![Action::Done]
        }),
    decreases a.hooks_for(e, n).len() - k,
{
    let h = a.hooks_for(e, n);
    reveal_with_fuel(run_actions, 2);
    if k < h.len() {
        lemma_post_phase(a, e, n, b, k + 1);
        assert(h.subrange(k as int, h.len() as int) =~= seq![h[k as int]] + h.subrange(
            k + 1 as int,
            h.len() as int,
        ));
        assert(hook_calls(h.subrange(k as int, h.len() as int), false) =~= seq![
            Action::CallHook { module: h[k as int], pre: false },
        ] + hook_calls(h.subrange(k + 1 as int, h.len() as int), false));
        assert(((h.len() - k) as nat + 1 - 1) as nat == (h.len() - (k + 1)) as nat + 1);
    } else {
        assert(hook_calls(h.subrange(k as int, h.len() as int), false) =~= Seq::<Action>::empty());
        assert(seq![Action::Done] =~= Seq::<Action>::empty() + seq![Action::Done]);
    }
}

/// From the post phase's start: the post hooks of the kernel as it is
/// then, and the end.
proof fn lemma_from_post_start(a: AppView, e: AppEvent, n: Seq<char>, b: Body, q: Seq<ModuleId>, p: nat)
    ensures
        ({
            let h = a.hooks_for(e, n);
            run_actions(phase(e, n, b, Stage::PostStart, q, p), a, h.len() + 1) == hook_calls(
                h,
                false,
            ) + seq![Action::Done]
        }),
{
    let h = a.hooks_for(e, n);
    reveal_with_fuel(advance, 3);
    assert(advance(phase(e, n, b, Stage::PostStart, q, p), a, false, false, 4) == advance(
        phase(e, n, b, Stage::Post, h, 0),
        a,
        false,
        false,
        4,
    ));
    assert(run_actions(phase(e, n, b, Stage::PostStart, q, p), a, h.len() + 1) == run_actions(
        phase(e, n, b, Stage::Post, h, 0),
        a,
        h.len() + 1,
    ));
    lemma_post_phase(a, e, n, b, 0);
    assert(h.subrange(0, h.len() as int) =~= h);
}

/// A notify that nothing marks handled runs in this order: its pre hooks
/// (those of the notify, then those of every notify), its handlers in the
/// order they registered, the reset of the hook's `handled` flag, the same
/// hooks again as post hooks, and the end.
pub proof fn law_notify_order(a: AppView, n: Seq<char>)
    requires
        a.wf(),
    ensures
        ({
            let h = a.hooks_for(AppEvent::NOTIFY, n);
            let q = a.notify_handlers(n);
            run_actions(
                initial(AppEvent::NOTIFY, n, Body::Notify),
                a,
                h.len() + q.len() + h.len() + 2,
            ) == hook_calls(h, true) + module_calls(q) + seq![Action::ClearHookHandled]
                + hook_calls(h, false) + seq![Action::Done]
        }),
{
    let e = AppEvent::NOTIFY;
    let b = Body::Notify;
    let h = a.hooks_for(e, n);
    let q = a.notify_handlers(n);
    let total = h.len() + q.len() + h.len() + 2;
    reveal_with_fuel(advance, 5);
    // The first pre hook comes after the hooks are collected.
    assert(advance(initial(e, n, b), a, false, false, 4) == advance(
        phase(e, n, b, Stage::Pre, h, 0),
        a,
        false,
        false,
        4,
    ));
    assert(run_actions(initial(e, n, b), a, total) == run_actions(
        phase(e, n, b, Stage::Pre, h, 0),
        a,
        total,
    ));
    lemma_pre_phase(a, e, n, b, 0, (q.len() + h.len() + 2) as nat);
    assert(h.subrange(0, h.len() as int) =~= h);
    // After the last pre hook, the handlers are collected.
    assert(advance(phase(e, n, b, Stage::Pre, h, h.len()), a, false, false, 4) == advance(
        phase(e, n, b, Stage::BodyRun, q, 0),
        a,
        false,
        false,
        4,
    ));
    assert(run_actions(phase(e, n, b, Stage::Pre, h, h.len()), a, (q.len() + h.len() + 2) as nat)
        == run_actions(phase(e, n, b, Stage::BodyRun, q, 0), a, (q.len() + h.len() + 2) as nat));
    lemma_body_phase(a, n, 0, (h.len() + 2) as nat);
    assert(q.subrange(0, q.len() as int) =~= q);
    // After the last handler, the reset, then the post hooks.
    let ps = phase(e, n, b, Stage::PostStart, q, q.len());
    assert(advance(phase(e, n, b, Stage::BodyRun, q, q.len()), a, false, false, 4) == (
        ps,
        a,
        Action::ClearHookHandled,
    ));
    assert(run_actions(phase(e, n, b, Stage::BodyRun, q, q.len()), a, (h.len() + 2) as nat) == seq![
        Action::ClearHookHandled,
    ] + run_actions(ps, a, (h.len() + 1) as nat));
    lemma_from_post_start(a, e, n, b, q, q.len());
    assert(hook_calls(h, true) + module_calls(q) + seq![Action::ClearHookHandled] + hook_calls(
        h,
        false,
    ) + seq![Action::Done] =~= hook_calls(h, true) + (module_calls(q) + (seq![
        Action::ClearHookHandled,
    ] + (hook_calls(h, false) + seq![Action::Done]))));
}

/// The calls of a load or an unload that nothing marks handled: the pre
/// hooks of the module's name (specific, then those of every name), the
/// module itself, the reset, the post hooks, the end. For an unload, the
/// post hooks are those left once the module is taken off every hook: it
/// no longer hooks its own unload.
pub proof fn law_load_unload_order(a: AppView, m: ModuleId, n: Seq<char>, unload: bool)
    requires
        a.wf(),
    ensures
        ({
            let e = if unload {
                AppEvent::UNLOAD
            } else {
                AppEvent::LOAD
            };
            let b = if unload {
                Body::Unload(m)
            } else {
                Body::Load(m)
            };
            let after = if unload {
                a.drop_module(m)
            } else {
                a
            };
            let h = a.hooks_for(e, n);
            let h2 = after.hooks_for(e, n);
            run_actions(initial(e, n, b), a, h.len() + h2.len() + 3) == hook_calls(h, true) + seq![
                Action::CallModule { module: m },
                Action::ClearHookHandled,
            ] + hook_calls(h2, false) + seq![Action::Done]
        }),
{
    let e = if unload {
        AppEvent::UNLOAD
    } else {
        AppEvent::LOAD
    };
    let b = if unload {
        Body::Unload(m)
    } else {
        Body::Load(m)
    };
    let after = if unload {
        a.drop_module(m)
    } else {
        a
    };
    let h = a.hooks_for(e, n);
    let h2 = after.hooks_for(e, n);
    let total = h.len() + h2.len() + 3;
    reveal_with_fuel(advance, 5);
    assert(advance(initial(e, n, b), a, false, false, 4) == advance(
        phase(e, n, b, Stage::Pre, h, 0),
        a,
        false,
        false,
        4,
    ));
    assert(run_actions(initial(e, n, b), a, total) == run_actions(
        phase(e, n, b, Stage::Pre, h, 0),
        a,
        total,
    ));
    lemma_pre_phase(a, e, n, b, 0, (h2.len() + 3) as nat);
    assert(h.subrange(0, h.len() as int) =~= h);
    // The module is called with the event.
    let ba = phase(e, n, b, Stage::BodyAfter, h, h.len());
    assert(advance(phase(e, n, b, Stage::Pre, h, h.len()), a, false, false, 4) == (
        ba,
        a,
        Action::CallModule { module: m },
    ));
    assert(run_actions(phase(e, n, b, Stage::Pre, h, h.len()), a, (h2.len() + 3) as nat) == seq![
        Action::CallModule { module: m },
    ] + run_actions(ba, a, (h2.len() + 2) as nat));
    // Then the reset; an unload first takes the module off every list.
    let ps = phase(e, n, b, Stage::PostStart, h, h.len());
    assert(advance(ba, a, false, false, 4) == (ps, after, Action::ClearHookHandled));
    assert(run_actions(ba, a, (h2.len() + 2) as nat) == seq![Action::ClearHookHandled]
        + run_actions(ps, after, (h2.len() + 1) as nat));
    lemma_from_post_start(after, e, n, b, h, h.len());
    assert(hook_calls(h, true) + seq![
        Action::CallModule { module: m },
        Action::ClearHookHandled,
    ] + hook_calls(h2, false) + seq![Action::Done] =~= hook_calls(h, true) + (seq![
        Action::CallModule { module: m },
    ] + (seq![Action::ClearHookHandled] + (hook_calls(h2, false) + seq![Action::Done]))));
}

/// Once a pre hook has marked the origin event handled, and either the
/// hook event is marked handled too or no pre hook is left, the call ends
/// at once: neither the body nor the post hooks run.
pub proof fn law_pre_hook_cancels(d: HookedCallView, a: AppView, hook_handled: bool, fuel: nat)
    requires
        d.stage == Stage::Pre,
        hook_handled || d.pos >= d.queue.len(),
    ensures
        advance(d, a, true, hook_handled, fuel) == (
            HookedCallView { stage: Stage::Finished, ..d },
            after_finish(a, d.body),
            Action::Done,
        ),
{
}

/// Once a handler has marked a notify handled, no further handler is
/// called: the post hooks follow.
pub proof fn law_handled_stops_handlers(d: HookedCallView, a: AppView, hook_handled: bool, fuel: nat)
    requires
        d.stage == Stage::BodyRun,
    ensures
        advance(d, a, true, hook_handled, fuel) == (
            HookedCallView { stage: Stage::PostStart, ..d },
            a,
            Action::ClearHookHandled,
        ),
{
}

/// A hook that marks the hook event handled stops the remaining hooks of
/// its phase.
pub proof fn law_handled_hook_stops_hooks(d: HookedCallView, a: AppView, origin_handled: bool)
    requires
        d.stage == Stage::Post,
    ensures
        advance(d, a, origin_handled, true, 0) == (
            HookedCallView { stage: Stage::Finished, ..d },
            after_finish(a, d.body),
            Action::Done,
        ),
{
}

} // verus!