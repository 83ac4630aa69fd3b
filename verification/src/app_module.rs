use crate::app::{forbidden_hook_message, App, AppError, AppView};
use crate::app_module_meta::AppModuleMeta;
use crate::event::AppEvent;
use crate::handlers::{ModuleId, MODS_STACK_LIMIT};
use crate::text::{append_chars, chars_of, string_of};
use vstd::prelude::*;

verus! {

/// A step of a module's handling of an event, in the order in which
/// `AppModuleExt::module` takes them.
#[derive(Debug, Clone, Copy, PartialEq, Eq, Structural)]
pub enum LifecycleStep {
    /// `META`: hand the module's metadata back as the event's result.
    SetMetaResult,
    /// Any other event needs the kernel.
    RequireApp,
    /// `LOAD`: create the module's instance unless there is one.
    CreateInstance,
    /// Find the module's instance.
    GetInstance,
    /// Initialise the logger, if there is one.
    InitLogger,
    /// Register the module for its notifies and hooks.
    RegisterHandlers,
    /// Call the module's `init`.
    Init,
    /// Load the modules it depends on, in order.
    LoadDepends,
    /// Call the module's `boot`.
    Boot,
    /// `UNLOAD`: remove the instance.
    RemoveInstance,
    /// Call the module's `down`.
    Down,
    /// `NOTIFY`: call the module's `notify`.
    Notify,
    /// `HOOK`: call the module's `hook`.
    Hook,
}

/// The steps of a module's handling of an event.
pub open spec fn spec_lifecycle(event: AppEvent) -> Seq<LifecycleStep> {
    match event {
        AppEvent::META => seq![LifecycleStep::SetMetaResult],
        AppEvent::LOAD => seq![
            LifecycleStep::RequireApp,
            LifecycleStep::CreateInstance,
            LifecycleStep::GetInstance,
            LifecycleStep::InitLogger,
            LifecycleStep::RegisterHandlers,
            LifecycleStep::Init,
            LifecycleStep::LoadDepends,
            LifecycleStep::Boot,
        ],
        AppEvent::UNLOAD => seq![
            LifecycleStep::RequireApp,
            LifecycleStep::GetInstance,
            LifecycleStep::RemoveInstance,
            LifecycleStep::Down,
        ],
        AppEvent::NOTIFY => seq![
            LifecycleStep::RequireApp,
            LifecycleStep::GetInstance,
            LifecycleStep::Notify,
        ],
        AppEvent::HOOK => seq![
            LifecycleStep::RequireApp,
            LifecycleStep::GetInstance,
            LifecycleStep::Hook,
        ],
    }
}

/// The steps a module takes for an event; an error at a step ends them.
pub fn lifecycle_steps(event: AppEvent) -> (res: Vec<LifecycleStep>)
    ensures
        res@ == spec_lifecycle(event),
{
    let res = match event {
        AppEvent::META => vec![LifecycleStep::SetMetaResult],
        AppEvent::LOAD => vec![
            LifecycleStep::RequireApp,
            LifecycleStep::CreateInstance,
            LifecycleStep::GetInstance,
            LifecycleStep::InitLogger,
            LifecycleStep::RegisterHandlers,
            LifecycleStep::Init,
            LifecycleStep::LoadDepends,
            LifecycleStep::Boot,
        ],
        AppEvent::UNLOAD => vec![
            LifecycleStep::RequireApp,
            LifecycleStep::GetInstance,
            LifecycleStep::RemoveInstance,
            LifecycleStep::Down,
        ],
        AppEvent::NOTIFY => vec![
            LifecycleStep::RequireApp,
            LifecycleStep::GetInstance,
            LifecycleStep::Notify,
        ],
        AppEvent::HOOK => vec![
            LifecycleStep::RequireApp,
            LifecycleStep::GetInstance,
            LifecycleStep::Hook,
        ],
    };
    assert(res@ =~= spec_lifecycle(event));
    res
}

/// The index of the first hook on `HOOK`, or the number of hooks: the
/// hooks before it are registered when a module loads.
pub open spec fn first_forbidden(hooks: Seq<(AppEvent, Seq<char>)>) -> int
    decreases hooks.len(),
{
    if hooks.len() == 0 {
        0
    } else if first_forbidden(hooks.drop_last()) < hooks.len() - 1 {
        first_forbidden(hooks.drop_last())
    } else if hooks.last().0 == AppEvent::HOOK {
        hooks.len() - 1
    } else {
        hooks.len() as int
    }
}

/// The hooks of a module, as keys.
pub open spec fn hook_keys(meta: AppModuleMeta) -> Seq<(AppEvent, Seq<char>)> {
    meta.hooks@.map_values(|h: (AppEvent, String)| (h.0, h.1@))
}

/// The notifies of a module, as character sequences.
pub open spec fn notify_keys(meta: AppModuleMeta) -> Seq<Seq<char>> {
    meta.notifies@.map_values(|n: String| n@)
}

/// Registering a module for its notifies and hooks does not reach
/// `MODS_STACK_LIMIT`.
pub open spec fn registration_fits(a: AppView, m: ModuleId, meta: AppModuleMeta) -> bool {
    &&& forall|n: Seq<char>|
        #[trigger] notify_keys(meta).contains(n) ==> a.notify_handlers(n).contains(m)
            || a.notify_handlers(n).len() < MODS_STACK_LIMIT
    &&& forall|e: AppEvent, n: Seq<char>|
        #[trigger] hook_keys(meta).take(first_forbidden(hook_keys(meta))).contains((e, n))
            ==> a.hook_handlers(e, n).contains(m) || a.hook_handlers(e, n).len() < MODS_STACK_LIMIT
}

/// The handlers after `m` registered for the notifies `ns`.
pub open spec fn with_notifies(a: AppView, ns: Seq<Seq<char>>, m: ModuleId, n: Seq<char>) -> Seq<
    ModuleId,
> {
    if ns.contains(n) && !a.notify_handlers(n).contains(m) {
        a.notify_handlers(n).push(m)
    } else {
        a.notify_handlers(n)
    }
}

/// The hook handlers after `m` registered for the hooks `hs`.
pub open spec fn with_hooks(
    a: AppView,
    hs: Seq<(AppEvent, Seq<char>)>,
    m: ModuleId,
    e: AppEvent,
    n: Seq<char>,
) -> Seq<ModuleId> {
    if hs.contains((e, n)) && !a.hook_handlers(e, n).contains(m) {
        a.hook_handlers(e, n).push(m)
    } else {
        a.hook_handlers(e, n)
    }
}

pub proof fn lemma_first_forbidden(hooks: Seq<(AppEvent, Seq<char>)>)
    ensures
        0 <= first_forbidden(hooks) <= hooks.len(),
        forall|i: int| 0 <= i < first_forbidden(hooks) ==> hooks[i].0 != AppEvent::HOOK,
        first_forbidden(hooks) < hooks.len() ==> hooks[first_forbidden(hooks)].0 == AppEvent::HOOK,
    decreases hooks.len(),
{
    if hooks.len() > 0 {
        let t = hooks.drop_last();
        lemma_first_forbidden(t);
        assert forall|i: int| 0 <= i < t.len() implies hooks[i] == t[i] by {}
    }
}

impl App {
    /// Registers a loading module as a handler of its notifies, then of
    /// its hooks, in their order. A hook on `HOOK` stops the registration
    /// with an error; the hooks before it stay registered.
    pub fn register_handlers(&mut self, module: ModuleId, meta: &AppModuleMeta) -> (res: Result<
        (),
        AppError,
    >)
        requires
            old(self)@.wf(),
            registration_fits(old(self)@, module, *meta),
        ensures
            final(self)@.wf(),
            final(self)@.modules == old(self)@.modules,
            final(self)@.names == old(self)@.names,
            final(self)@.mod_pos == old(self)@.mod_pos,
            res is Ok == (first_forbidden(hook_keys(*meta)) == hook_keys(*meta).len()),
            res is Err ==> res->Err_0.message@ == forbidden_hook_message(),
            forall|n: Seq<char>|
                #[trigger] final(self)@.notify_handlers(n) == with_notifies(
                    old(self)@,
                    notify_keys(*meta),
                    module,
                    n,
                ),
            forall|e: AppEvent, n: Seq<char>|
                #[trigger] final(self)@.hook_handlers(e, n) == with_hooks(
                    old(self)@,
                    hook_keys(*meta).take(first_forbidden(hook_keys(*meta))),
                    module,
                    e,
                    n,
                ),
    {
        let ghost a0 = self@;
        let ghost ns = notify_keys(*meta);
        for i in 0..meta.notifies.len()
            invariant
                self@.wf(),
                a0.wf(),
                a0 == old(self)@,
                ns == notify_keys(*meta),
                ns.len() == meta.notifies.len(),
                registration_fits(a0, module, *meta),
                self@.modules == a0.modules,
                self@.names == a0.names,
                self@.mod_pos == a0.mod_pos,
                self@.hooks == a0.hooks,
                forall|n: Seq<char>|
                    #[trigger] self@.notify_handlers(n) == with_notifies(
                        a0,
                        ns.take(i as int),
                        module,
                        n,
                    ),
        {
            let ghost before = self@;
            let n = meta.notifies[i].as_str();
            assert(ns[i as int] == n@);
            assert(ns.contains(n@));
            assert(ns.take(i + 1) =~= ns.take(i as int).push(n@));
            proof {
                let t1 = ns.take(i + 1);
                let t0 = ns.take(i as int);
                assert forall|k: Seq<char>| #[trigger] t1.contains(k) <==> (t0.contains(k) || k
                    == n@) by {
                    if t1.contains(k) {
                        let j = choose|j: int| 0 <= j < t1.len() && t1[j] == k;
                        if j < i {
                            assert(t0[j] == k);
                        }
                    }
                    if t0.contains(k) {
                        let j = choose|j: int| 0 <= j < t0.len() && t0[j] == k;
                        assert(t1[j] == k);
                    }
                    if k == n@ {
                        assert(t1[i as int] == k);
                    }
                }
            }
            proof {
                let cur = before.notify_handlers(n@);
                let orig = a0.notify_handlers(n@);
                assert(cur == with_notifies(a0, ns.take(i as int), module, n@));
                assert(orig.push(module).contains(module)) by {
                    assert(orig.push(module)[orig.len() as int] == module);
                }
                assert(notify_keys(*meta).contains(n@));
            }
            let r = self.add_notify_handler(n, module);
            proof {
                assert forall|k: Seq<char>| #[trigger] self@.notify_handlers(k) == with_notifies(
                    a0,
                    ns.take(i + 1),
                    module,
                    k,
                ) by {
                    if k != n@ {
                        assert(self@.notify_handlers(k) == before.notify_handlers(k));
                        assert(before.notify_handlers(k) == with_notifies(a0, ns.take(i as int), module, k));
                    } else {
                        let orig = a0.notify_handlers(n@);
                        assert(orig.push(module).contains(module)) by {
                            assert(orig.push(module)[orig.len() as int] == module);
                        }
                    }
                }
            }
        }
        assert(ns.take(meta.notifies.len() as int) =~= ns);
        let ghost a1 = self@;
        let ghost hs = hook_keys(*meta);
        proof {
            lemma_first_forbidden(hs);
        }
        for i in 0..meta.hooks.len()
            invariant
                self@.wf(),
                a0.wf(),
                a0 == old(self)@,
                hs == hook_keys(*meta),
                hs.len() == meta.hooks.len(),
                0 <= first_forbidden(hs) <= hs.len(),
                forall|j: int| 0 <= j < first_forbidden(hs) ==> hs[j].0 != AppEvent::HOOK,
                first_forbidden(hs) < hs.len() ==> hs[first_forbidden(hs)].0 == AppEvent::HOOK,
                i <= first_forbidden(hs),
                registration_fits(a0, module, *meta),
                self@.modules == a0.modules,
                self@.names == a0.names,
                self@.mod_pos == a0.mod_pos,
                self@.notifies == a1.notifies,
                forall|n: Seq<char>|
                    #[trigger] a1.notify_handlers(n) == with_notifies(a0, notify_keys(*meta), module, n),
                forall|e: AppEvent, n: Seq<char>|
                    #[trigger] self@.hook_handlers(e, n) == with_hooks(
                        a0,
                        hs.take(i as int),
                        module,
                        e,
                        n,
                    ),
        {
            let ev = meta.hooks[i].0;
            let n = meta.hooks[i].1.as_str();
            assert(hs[i as int] == (ev, n@));
            if ev == AppEvent::HOOK {
                assert(i as int == first_forbidden(hs));
                assert forall|k: Seq<char>| #[trigger] self@.notify_handlers(k) == with_notifies(
                    a0,
                    notify_keys(*meta),
                    module,
                    k,
                ) by {
                    assert(self@.notify_handlers(k) == a1.notify_handlers(k));
                }
                proof {
                    reveal_strlit("Forbidden register hook on event AppEvent::HOOK");
                }
                return Err(AppError::new("Forbidden register hook on event AppEvent::HOOK"));
            }
            assert(hs.take(i + 1) =~= hs.take(i as int).push((ev, n@)));
            proof {
                assert(hs.take(first_forbidden(hs)).contains((ev, n@))) by {
                    assert(hs.take(first_forbidden(hs))[i as int] == (ev, n@));
                }
                let t1 = hs.take(i + 1);
                let t0 = hs.take(i as int);
                assert forall|e: AppEvent, k: Seq<char>| #[trigger] t1.contains((e, k)) <==> (
                t0.contains((e, k)) || (e, k) == (ev, n@)) by {
                    if t1.contains((e, k)) {
                        let j = choose|j: int| 0 <= j < t1.len() && t1[j] == (e, k);
                        if j < i {
                            assert(t0[j] == (e, k));
                        }
                    }
                    if t0.contains((e, k)) {
                        let j = choose|j: int| 0 <= j < t0.len() && t0[j] == (e, k);
                        assert(t1[j] == (e, k));
                    }
                    if (e, k) == (ev, n@) {
                        assert(t1[i as int] == (e, k));
                    }
                }
            }
            let ghost before = self@;
            proof {
                let orig = a0.hook_handlers(ev, n@);
                assert(before.hook_handlers(ev, n@) == with_hooks(a0, hs.take(i as int), module, ev, n@));
                assert(orig.push(module).contains(module)) by {
                    assert(orig.push(module)[orig.len() as int] == module);
                }
            }
            let r = self.add_hook_handler(ev, n, module);
            proof {
                assert forall|e: AppEvent, k: Seq<char>| #[trigger] self@.hook_handlers(e, k)
                    == with_hooks(a0, hs.take(i + 1), module, e, k) by {
                    if !(e == ev && k == n@) {
                        assert(self@.hook_handlers(e, k) == before.hook_handlers(e, k));
                        assert(before.hook_handlers(e, k) == with_hooks(a0, hs.take(i as int), module, e, k));
                    } else {
                        let orig = a0.hook_handlers(ev, n@);
                        assert(orig.push(module).contains(module)) by {
                            assert(orig.push(module)[orig.len() as int] == module);
                        }
                    }
                }
            }
        }
        assert(hs.take(meta.hooks.len() as int) =~= hs);
        assert forall|k: Seq<char>| #[trigger] self@.notify_handlers(k) == with_notifies(
            a0,
            notify_keys(*meta),
            module,
            k,
        ) by {
            assert(self@.notify_handlers(k) == a1.notify_handlers(k));
        }
        Ok(())
    }

    /// Whether `register_handlers` can register the module without passing
    /// `MODS_STACK_LIMIT` (past it, registering panics).
    pub fn can_register(&self, module: ModuleId, meta: &AppModuleMeta) -> (res: bool)
        requires
            self@.wf(),
        ensures
            res == registration_fits(self@, module, *meta),
    {
        let ghost ns = notify_keys(*meta);
        for i in 0..meta.notifies.len()
            invariant
                self@.wf(),
                ns == notify_keys(*meta),
                ns.len() == meta.notifies.len(),
                forall|j: int|
                    0 <= j < i ==> self@.notify_handlers(#[trigger] ns[j]).contains(module)
                        || self@.notify_handlers(ns[j]).len() < MODS_STACK_LIMIT,
        {
            assert(ns[i as int] == meta.notifies@[i as int]@);
            if !self.can_add_notify_handler(meta.notifies[i].as_str(), module) {
                assert(ns.contains(ns[i as int]));
                return false;
            }
        }
        let ghost hs = hook_keys(*meta);
        proof {
            lemma_first_forbidden(hs);
        }
        for i in 0..meta.hooks.len()
            invariant
                self@.wf(),
                hs == hook_keys(*meta),
                hs.len() == meta.hooks.len(),
                0 <= first_forbidden(hs) <= hs.len(),
                forall|j: int| 0 <= j < first_forbidden(hs) ==> hs[j].0 != AppEvent::HOOK,
                first_forbidden(hs) < hs.len() ==> hs[first_forbidden(hs)].0 == AppEvent::HOOK,
                i <= first_forbidden(hs),
                forall|j: int|
                    0 <= j < i ==> self@.hook_handlers((#[trigger] hs[j]).0, hs[j].1).contains(module)
                        || self@.hook_handlers(hs[j].0, hs[j].1).len() < MODS_STACK_LIMIT,
                forall|k: Seq<char>| #[trigger]
                    notify_keys(*meta).contains(k) ==> self@.notify_handlers(k).contains(module)
                        || self@.notify_handlers(k).len() < MODS_STACK_LIMIT,
        {
            let ev = meta.hooks[i].0;
            assert(hs[i as int] == (ev, meta.hooks@[i as int].1@));
            if ev == AppEvent::HOOK {
                assert(i as int == first_forbidden(hs));
                proof {
                    let t = hs.take(i as int);
                    assert forall|e: AppEvent, n: Seq<char>| #[trigger] t.contains((e, n)) implies self@.hook_handlers(e, n).contains(module)
                        || self@.hook_handlers(e, n).len() < MODS_STACK_LIMIT by {
                        let j = choose|j: int| 0 <= j < t.len() && t[j] == (e, n);
                        assert(hs[j] == (e, n));
                    }
                }
                return true;
            }
            if !self.can_add_hook_handler(ev, meta.hooks[i].1.as_str(), module) {
                proof {
                    let t = hs.take(first_forbidden(hs));
                    assert(t[i as int] == hs[i as int]);
                    assert(t.contains(hs[i as int]));
                }
                return false;
            }
        }
        proof {
            let t = hs.take(first_forbidden(hs));
            assert forall|e: AppEvent, n: Seq<char>| #[trigger] t.contains((e, n)) implies self@.hook_handlers(e, n).contains(module)
                || self@.hook_handlers(e, n).len() < MODS_STACK_LIMIT by {
                let j = choose|j: int| 0 <= j < t.len() && t[j] == (e, n);
                assert(hs[j] == (e, n));
            }
        }
        true
    }
}


/// The error when a module is called for an event other than `META`
/// without the kernel.
pub fn app_required() -> (res: AppError)
    ensures
        res.message@ == "Argument 'app' is empty in AppModuleExt::handle()"@,
{
    AppError { message: string_of(&chars_of("Argument 'app' is empty in AppModuleExt::handle()")) }
}

/// The error when a module's instance is not in the kernel, naming its
/// type.
pub fn module_not_found(module_type: &str) -> (res: AppError)
    ensures
        res.message@ == "Module '"@ + module_type@ + "' does not found in App"@,
{
    let mut m = chars_of("Module '");
    append_chars(&mut m, &chars_of(module_type));
    append_chars(&mut m, &chars_of("' does not found in App"));
    AppError { message: string_of(&m) }
}

} // verus!