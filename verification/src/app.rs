use crate::event::AppEvent;
use crate::handlers::{
    contains_module, handlers_of, lemma_handlers_wf, lemma_strip, lemma_without, strip, table_wf,
    without, HandlerTable, ModuleId, MODS_STACK_LIMIT,
};
use crate::text::str_eq;
use vstd::prelude::*;

verus! {

/// The notify that runs the application.
pub const NT_APP_RUN: &'static str = "App::run";

/// The notify sent before the application shuts down.
pub const NT_APP_SHUTDOWN: &'static str = "App::shutdown";

/// An error of the kernel or of one of its modules, with its message.
#[derive(Debug)]
pub struct AppError {
    pub message: String,
}

impl AppError {
    pub fn new(message: &str) -> (res: Self)
        ensures
            res.message@ == message@,
    {
        AppError { message: message.to_owned() }
    }
}

/// The message with which a hook on `HOOK` is refused.
pub open spec fn forbidden_hook_message() -> Seq<char> {
    "Forbidden register hook on event AppEvent::HOOK"@
}

/// The loaded modules and the registered notify and hook handlers.
pub struct App {
    modules: Vec<ModuleId>,
    names: Vec<String>,
    mod_pos: usize,
    notifies: HandlerTable,
    hooks: HandlerTable,
}

/// The state of the kernel: loaded modules in order, with their names; the
/// position at which the next module is inserted; the notify handlers (all
/// under the `NOTIFY` event) and the hook handlers.
pub struct AppView {
    pub modules: Seq<ModuleId>,
    pub names: Seq<Seq<char>>,
    pub mod_pos: usize,
    pub notifies: Seq<(AppEvent, Seq<char>, Seq<ModuleId>)>,
    pub hooks: Seq<(AppEvent, Seq<char>, Seq<ModuleId>)>,
}

impl AppView {
    pub open spec fn wf(self) -> bool {
        &&& self.modules.no_duplicates()
        &&& self.names.no_duplicates()
        &&& self.names.len() == self.modules.len()
        &&& table_wf(self.notifies)
        &&& table_wf(self.hooks)
    }

    /// The handlers of a notify, in registration order.
    pub open spec fn notify_handlers(self, notify: Seq<char>) -> Seq<ModuleId> {
        handlers_of(self.notifies, AppEvent::NOTIFY, notify)
    }

    /// The hook handlers of an event with a notify (or module name).
    pub open spec fn hook_handlers(self, event: AppEvent, notify: Seq<char>) -> Seq<ModuleId> {
        handlers_of(self.hooks, event, notify)
    }

    /// The hooks that a dispatch of the event calls: those of its notify,
    /// then those of every notify.
    pub open spec fn hooks_for(self, event: AppEvent, notify: Seq<char>) -> Seq<ModuleId> {
        self.hook_handlers(event, notify) + self.hook_handlers(event, Seq::empty())
    }

    /// The kernel with the module taken off every notify and hook.
    pub open spec fn drop_module(self, m: ModuleId) -> AppView {
        AppView { notifies: strip(self.notifies, m), hooks: strip(self.hooks, m), ..self }
    }

    /// Where the next module is inserted.
    pub open spec fn load_pos(self) -> int {
        if self.mod_pos < self.modules.len() {
            self.mod_pos as int
        } else {
            self.modules.len() as int
        }
    }
}

impl View for App {
    type V = AppView;

    closed spec fn view(&self) -> AppView {
        AppView {
            modules: self.modules@,
            names: self.names@.map_values(|s: String| s@),
            mod_pos: self.mod_pos,
            notifies: self.notifies@,
            hooks: self.hooks@,
        }
    }
}

impl App {
    /// A kernel with no module and no handler.
    pub fn new() -> (res: Self)
        ensures
            res@.wf(),
            res@.modules == Seq::<ModuleId>::empty(),
            res@.mod_pos == 0,
            forall|n: Seq<char>| #[trigger] res@.notify_handlers(n) == Seq::<ModuleId>::empty(),
            forall|e: AppEvent, n: Seq<char>|
                #[trigger] res@.hook_handlers(e, n) == Seq::<ModuleId>::empty(),
    {
        let res = App {
            modules: Vec::new(),
            names: Vec::new(),
            mod_pos: 0,
            notifies: HandlerTable::new(),
            hooks: HandlerTable::new(),
        };
        assert(res@.names =~= Seq::<Seq<char>>::empty());
        res
    }

    /// The loaded modules, in order.
    pub fn modules(&self) -> (res: Vec<ModuleId>)
        ensures
            res@ == self@.modules,
    {
        self.modules.clone()
    }

    /// Whether the module is loaded.
    pub fn is_loaded(&self, module: ModuleId) -> (res: bool)
        ensures
            res == self@.modules.contains(module),
    {
        contains_module(&self.modules, module)
    }

    /// The handlers of a notify.
    pub fn notify_handlers(&self, notify: &str) -> (res: Vec<ModuleId>)
        requires
            self@.wf(),
        ensures
            res@ == self@.notify_handlers(notify@),
    {
        self.notifies.handlers(AppEvent::NOTIFY, notify)
    }

    /// The hook handlers of an event with a notify.
    pub fn hook_handlers(&self, event: AppEvent, notify: &str) -> (res: Vec<ModuleId>)
        requires
            self@.wf(),
        ensures
            res@ == self@.hook_handlers(event, notify@),
    {
        self.hooks.handlers(event, notify)
    }

    /// Whether a notify has a handler: a notify without one is not
    /// dispatched, and its hooks are not called.
    pub fn has_notify_handlers(&self, notify: &str) -> (res: bool)
        requires
            self@.wf(),
        ensures
            res == (self@.notify_handlers(notify@).len() > 0),
    {
        self.notifies.handlers(AppEvent::NOTIFY, notify).len() > 0
    }

    /// The hooks that a dispatch of the event calls.
    pub fn hooks_for(&self, event: AppEvent, notify: &str) -> (res: Vec<ModuleId>)
        requires
            self@.wf(),
        ensures
            res@ == self@.hooks_for(event, notify@),
    {
        proof {
            reveal_strlit("");
            assert(""@ =~= Seq::<char>::empty());
        }
        let mut res = self.hooks.handlers(event, notify);
        let mut all = self.hooks.handlers(event, "");
        res.append(&mut all);
        res
    }

    /// Whether the hooks of the event fit in `MODS_STACK_LIMIT`: a dispatch
    /// with more panics.
    pub fn hooks_within_limit(&self, event: AppEvent, notify: &str) -> (res: bool)
        requires
            self@.wf(),
        ensures
            res == (self@.hooks_for(event, notify@).len() <= MODS_STACK_LIMIT),
    {
        proof {
            reveal_strlit("");
            assert(""@ =~= Seq::<char>::empty());
        }
        let specific = self.hooks.handlers(event, notify).len();
        let all = self.hooks.handlers(event, "").len();
        proof {
            lemma_handlers_wf(self@.hooks, event, notify@);
            lemma_handlers_wf(self@.hooks, event, Seq::empty());
        }
        specific + all <= MODS_STACK_LIMIT
    }

    /// Whether `add_notify_handler` can take the module: one more handler
    /// beyond `MODS_STACK_LIMIT` panics.
    pub fn can_add_notify_handler(&self, notify: &str, module: ModuleId) -> (res: bool)
        requires
            self@.wf(),
        ensures
            res == (self@.notify_handlers(notify@).contains(module) || self@.notify_handlers(
                notify@,
            ).len() < MODS_STACK_LIMIT),
    {
        let list = self.notifies.handlers(AppEvent::NOTIFY, notify);
        contains_module(&list, module) || list.len() < MODS_STACK_LIMIT
    }

    /// Whether `add_hook_handler` can take the module: one more handler
    /// beyond `MODS_STACK_LIMIT` panics.
    pub fn can_add_hook_handler(&self, event: AppEvent, notify: &str, module: ModuleId) -> (res: bool)
        requires
            self@.wf(),
        ensures
            res == (self@.hook_handlers(event, notify@).contains(module) || self@.hook_handlers(
                event,
                notify@,
            ).len() < MODS_STACK_LIMIT),
    {
        let list = self.hooks.handlers(event, notify);
        contains_module(&list, module) || list.len() < MODS_STACK_LIMIT
    }

    /// Registers a hook handler. Hooks on `HOOK` itself are refused.
    /// Returns whether the module was not yet a handler of the hook.
    pub fn add_hook_handler(&mut self, event: AppEvent, notify: &str, module: ModuleId) -> (res:
        Result<bool, AppError>)
        requires
            old(self)@.wf(),
            event != AppEvent::HOOK ==> (old(self)@.hook_handlers(event, notify@).contains(module)
                || old(self)@.hook_handlers(event, notify@).len() < MODS_STACK_LIMIT),
        ensures
            final(self)@.wf(),
            final(self)@.modules == old(self)@.modules,
            final(self)@.names == old(self)@.names,
            final(self)@.mod_pos == old(self)@.mod_pos,
            final(self)@.notifies == old(self)@.notifies,
            event == AppEvent::HOOK ==> res is Err && final(self)@ == old(self)@ && res->Err_0.message@
                == forbidden_hook_message(),
            event != AppEvent::HOOK ==> res is Ok && res->Ok_0 == !old(self)@.hook_handlers(
                event,
                notify@,
            ).contains(module) && final(self)@.hook_handlers(event, notify@) == if res->Ok_0 {
                old(self)@.hook_handlers(event, notify@).push(module)
            } else {
                old(self)@.hook_handlers(event, notify@)
            },
            forall|e: AppEvent, n: Seq<char>|
                !(e == event && n == notify@) ==> #[trigger] final(self)@.hook_handlers(e, n)
                    == old(self)@.hook_handlers(e, n),
    {
        if event == AppEvent::HOOK {
            proof {
                reveal_strlit("Forbidden register hook on event AppEvent::HOOK");
            }
            return Err(AppError::new("Forbidden register hook on event AppEvent::HOOK"));
        }
        let res = self.hooks.add(event, notify, module);
        Ok(res)
    }

    /// Takes the module off a hook. Returns whether it was a handler of it.
    pub fn remove_hook_handler(&mut self, event: AppEvent, notify: &str, module: ModuleId) -> (res:
        Result<bool, AppError>)
        requires
            old(self)@.wf(),
        ensures
            final(self)@.wf(),
            final(self)@.modules == old(self)@.modules,
            final(self)@.names == old(self)@.names,
            final(self)@.mod_pos == old(self)@.mod_pos,
            final(self)@.notifies == old(self)@.notifies,
            res is Ok,
            res->Ok_0 == old(self)@.hook_handlers(event, notify@).contains(module),
            final(self)@.hook_handlers(event, notify@) == without(
                old(self)@.hook_handlers(event, notify@),
                module,
            ),
            forall|e: AppEvent, n: Seq<char>|
                !(e == event && n == notify@) ==> #[trigger] final(self)@.hook_handlers(e, n)
                    == old(self)@.hook_handlers(e, n),
    {
        Ok(self.hooks.remove(event, notify, module))
    }

    /// Registers a notify handler, after those the notify already has.
    /// Returns whether the module was not yet a handler of the notify.
    pub fn add_notify_handler(&mut self, notify: &str, module: ModuleId) -> (res: Result<
        bool,
        AppError,
    >)
        requires
            old(self)@.wf(),
            old(self)@.notify_handlers(notify@).contains(module) || old(self)@.notify_handlers(
                notify@,
            ).len() < MODS_STACK_LIMIT,
        ensures
            final(self)@.wf(),
            final(self)@.modules == old(self)@.modules,
            final(self)@.names == old(self)@.names,
            final(self)@.mod_pos == old(self)@.mod_pos,
            final(self)@.hooks == old(self)@.hooks,
            res is Ok,
            res->Ok_0 == !old(self)@.notify_handlers(notify@).contains(module),
            final(self)@.notify_handlers(notify@) == if res->Ok_0 {
                old(self)@.notify_handlers(notify@).push(module)
            } else {
                old(self)@.notify_handlers(notify@)
            },
            forall|n: Seq<char>|
                n != notify@ ==> #[trigger] final(self)@.notify_handlers(n) == old(self)@.notify_handlers(n),
    {
        Ok(self.notifies.add(AppEvent::NOTIFY, notify, module))
    }

    /// Takes the module off a notify. Returns whether it was a handler of it.
    pub fn remove_notify_handler(&mut self, notify: &str, module: ModuleId) -> (res: Result<
        bool,
        AppError,
    >)
        requires
            old(self)@.wf(),
        ensures
            final(self)@.wf(),
            final(self)@.modules == old(self)@.modules,
            final(self)@.names == old(self)@.names,
            final(self)@.mod_pos == old(self)@.mod_pos,
            final(self)@.hooks == old(self)@.hooks,
            res is Ok,
            res->Ok_0 == old(self)@.notify_handlers(notify@).contains(module),
            final(self)@.notify_handlers(notify@) == without(
                old(self)@.notify_handlers(notify@),
                module,
            ),
            forall|n: Seq<char>|
                n != notify@ ==> #[trigger] final(self)@.notify_handlers(n) == old(self)@.notify_handlers(n),
    {
        Ok(self.notifies.remove(AppEvent::NOTIFY, notify, module))
    }

    /// Inserts the module at `load_pos`, unless it, or a module of the same
    /// name, is loaded. Returns whether it was inserted.
    pub(crate) fn insert_module(&mut self, module: ModuleId, name: &str) -> (res: bool)
        requires
            old(self)@.wf(),
        ensures
            final(self)@.wf(),
            res == (!old(self)@.modules.contains(module) && !old(self)@.names.contains(name@)),
            res ==> final(self)@.modules == old(self)@.modules.insert(old(self)@.load_pos(), module)
                && final(self)@.names == old(self)@.names.insert(old(self)@.load_pos(), name@),
            !res ==> final(self)@.modules == old(self)@.modules && final(self)@.names == old(self)@.names,
            final(self)@.mod_pos == old(self)@.mod_pos,
            final(self)@.notifies == old(self)@.notifies,
            final(self)@.hooks == old(self)@.hooks,
    {
        let ghost old_v = self@;
        if contains_module(&self.modules, module) {
            return false;
        }
        for i in 0..self.names.len()
            invariant
                old_v == self@,
                old_v == old(self)@,
                old_v.wf(),
                forall|j: int| 0 <= j < i ==> old_v.names[j] != name@,
        {
            assert(old_v.names[i as int] == self.names@[i as int]@);
            if str_eq(self.names[i].as_str(), name) {
                return false;
            }
        }
        assert(!old_v.names.contains(name@));
        let pos = if self.mod_pos < self.modules.len() {
            self.mod_pos
        } else {
            self.modules.len()
        };
        let owned = name.to_owned();
        self.modules.insert(pos, module);
        self.names.insert(pos, owned);
        proof {
            let nv = self@;
            assert(nv.names =~= old_v.names.insert(pos as int, name@));
            lemma_insert_fresh(old_v.modules, pos as int, module);
            lemma_insert_fresh(old_v.names, pos as int, name@);
        }
        true
    }

    /// Takes the module off the module list, and moves `mod_pos` to the
    /// end of it. Returns whether it was loaded.
    pub(crate) fn remove_module(&mut self, module: ModuleId) -> (res: bool)
        requires
            old(self)@.wf(),
        ensures
            final(self)@.wf(),
            res == old(self)@.modules.contains(module),
            res ==> exists|i: int|
                0 <= i < old(self)@.modules.len() && old(self)@.modules[i] == module && final(self)@.modules == old(self)@.modules.remove(i) && final(self)@.names == old(self)@.names.remove(i),
            res ==> final(self)@.mod_pos == final(self)@.modules.len(),
            !res ==> final(self)@ == old(self)@,
            final(self)@.notifies == old(self)@.notifies,
            final(self)@.hooks == old(self)@.hooks,
    {
        let ghost old_v = self@;
        let n = self.modules.len();
        for i in 0..n
            invariant
                n == self.modules.len(),
                n == self.names.len(),
                old_v == self@,
                old_v == old(self)@,
                old_v.wf(),
                forall|j: int| 0 <= j < i ==> old_v.modules[j] != module,
        {
            if self.modules[i] == module {
                self.modules.remove(i);
                self.names.remove(i);
                self.mod_pos = self.modules.len();
                proof {
                    let nv = self@;
                    assert(nv.names =~= old_v.names.remove(i as int));
                    lemma_remove_keeps_unique(old_v.modules, i as int);
                    lemma_remove_keeps_unique(old_v.names, i as int);
                }
                return true;
            }
        }
        false
    }

    /// Moves `mod_pos` one further, wrapping as an atomic `fetch_add` does.
    pub(crate) fn finish_load(&mut self)
        ensures
            final(self)@.mod_pos == old(self)@.mod_pos.wrapping_add(1),
            final(self)@.modules == old(self)@.modules,
            final(self)@.names == old(self)@.names,
            final(self)@.notifies == old(self)@.notifies,
            final(self)@.hooks == old(self)@.hooks,
    {
        self.mod_pos = self.mod_pos.wrapping_add(1);
    }

    /// Takes the module off every notify and hook.
    pub(crate) fn drop_handlers(&mut self, module: ModuleId)
        requires
            old(self)@.wf(),
        ensures
            final(self)@.wf(),
            final(self)@ == old(self)@.drop_module(module),
            forall|n: Seq<char>|
                #[trigger] final(self)@.notify_handlers(n) == without(
                    old(self)@.notify_handlers(n),
                    module,
                ),
            forall|e: AppEvent, n: Seq<char>|
                #[trigger] final(self)@.hook_handlers(e, n) == without(
                    old(self)@.hook_handlers(e, n),
                    module,
                ),
    {
        self.notifies.remove_everywhere(module);
        self.hooks.remove_everywhere(module);
    }

    /// The order in which the modules are unloaded: the reverse of the
    /// module list.
    pub fn unload_order(&self) -> (res: Vec<ModuleId>)
        ensures
            res@ == self@.modules.reverse(),
    {
        let mut res: Vec<ModuleId> = Vec::new();
        let mut i = self.modules.len();
        while i > 0
            invariant
                i <= self.modules.len(),
                res@ == self@.modules.subrange(i as int, self.modules.len() as int).reverse(),
            decreases i,
        {
            i -= 1;
            res.push(self.modules[i]);
            assert(res@ =~= self@.modules.subrange(i as int, self.modules.len() as int).reverse());
        }
        assert(self@.modules.subrange(0, self.modules.len() as int) =~= self@.modules);
        res
    }
}

/// The modules in order, each one only at its first occurrence.
pub open spec fn dedup(s: Seq<ModuleId>) -> Seq<ModuleId>
    decreases s.len(),
{
    if s.len() == 0 {
        s
    } else if dedup(s.drop_last()).contains(s.last()) {
        dedup(s.drop_last())
    } else {
        dedup(s.drop_last()).push(s.last())
    }
}

/// The order in which a list of modules is loaded: as given, without a
/// module a second time.
pub fn load_order(modules: &Vec<ModuleId>) -> (res: Vec<ModuleId>)
    ensures
        res@ == dedup(modules@),
{
    let mut res: Vec<ModuleId> = Vec::new();
    for i in 0..modules.len()
        invariant
            res@ == dedup(modules@.take(i as int)),
    {
        assert(modules@.take(i + 1).drop_last() =~= modules@.take(i as int));
        if !contains_module(&res, modules[i]) {
            res.push(modules[i]);
        }
    }
    assert(modules@.take(modules.len() as int) =~= modules@);
    res
}

pub proof fn lemma_insert_fresh<A>(s: Seq<A>, i: int, x: A)
    requires
        s.no_duplicates(),
        !s.contains(x),
        0 <= i <= s.len(),
    ensures
        s.insert(i, x).no_duplicates(),
        s.insert(i, x).contains(x),
{
    let t = s.insert(i, x);
    assert(t[i] == x);
    assert forall|a: int, b: int| 0 <= a < t.len() && 0 <= b < t.len() && a != b implies t[a]
        != t[b] by {
        let sa = if a < i {
            a
        } else {
            a - 1
        };
        let sb = if b < i {
            b
        } else {
            b - 1
        };
        if a != i && b != i {
            assert(t[a] == s[sa] && t[b] == s[sb]);
        } else if a == i {
            assert(t[b] == s[sb]);
            assert(s.contains(t[b]));
        } else {
            assert(t[a] == s[sa]);
            assert(s.contains(t[a]));
        }
    }
}

pub proof fn lemma_remove_keeps_unique<A>(s: Seq<A>, i: int)
    requires
        s.no_duplicates(),
        0 <= i < s.len(),
    ensures
        s.remove(i).no_duplicates(),
        forall|x: A| #[trigger] s.remove(i).contains(x) <==> (s.contains(x) && x != s[i]),
{
    let t = s.remove(i);
    assert forall|a: int, b: int| 0 <= a < t.len() && 0 <= b < t.len() && a != b implies t[a]
        != t[b] by {
        let sa = if a < i {
            a
        } else {
            a + 1
        };
        let sb = if b < i {
            b
        } else {
            b + 1
        };
        assert(t[a] == s[sa] && t[b] == s[sb]);
    }
    assert forall|x: A| #[trigger] t.contains(x) <==> (s.contains(x) && x != s[i]) by {
        if t.contains(x) {
            let a = choose|a: int| 0 <= a < t.len() && t[a] == x;
            let sa = if a < i {
                a
            } else {
                a + 1
            };
            assert(s[sa] == x);
        }
        if s.contains(x) && x != s[i] {
            let b = choose|b: int| 0 <= b < s.len() && s[b] == x;
            if b < i {
                assert(t[b] == x);
            } else {
                assert(b != i);
                assert(t[b - 1] == x);
            }
        }
    }
}


// ---------------------------------------------------------------------
// Laws of the registry
// ---------------------------------------------------------------------

/// No notify or hooked event of a well-formed kernel has a handler twice,
/// or more than `MODS_STACK_LIMIT` handlers.
pub proof fn law_handlers_bounded(a: AppView, event: AppEvent, notify: Seq<char>)
    requires
        a.wf(),
    ensures
        a.notify_handlers(notify).no_duplicates(),
        a.notify_handlers(notify).len() <= MODS_STACK_LIMIT,
        a.hook_handlers(event, notify).no_duplicates(),
        a.hook_handlers(event, notify).len() <= MODS_STACK_LIMIT,
{
    lemma_handlers_wf(a.notifies, AppEvent::NOTIFY, notify);
    lemma_handlers_wf(a.hooks, event, notify);
}

/// The handlers after registering a module: it is added last unless it is
/// one already (what `add_notify_handler` and `add_hook_handler` give).
pub open spec fn with_handler(h: Seq<ModuleId>, m: ModuleId) -> Seq<ModuleId> {
    if h.contains(m) {
        h
    } else {
        h.push(m)
    }
}

/// Registering a module as a handler and then taking it off (what
/// `remove_notify_handler` and `remove_hook_handler` give) leaves the
/// handlers as they were, when it was not one of them. It speaks of a
/// registration that took place: one on the `HOOK` event is refused, and a
/// full list takes no other handler.
pub proof fn law_add_then_remove_handler(h: Seq<ModuleId>, m: ModuleId)
    requires
        !h.contains(m),
    ensures
        without(with_handler(h, m), m) == h,
{
    lemma_without(h, m);
    assert(h.push(m).drop_last() =~= h);
}

/// Registering a module twice is registering it once.
pub proof fn law_add_handler_idempotent(h: Seq<ModuleId>, m: ModuleId)
    ensures
        with_handler(with_handler(h, m), m) == with_handler(h, m),
        with_handler(h, m).contains(m),
{
    if !h.contains(m) {
        assert(h.push(m)[h.len() as int] == m);
    }
}

/// Taking a module off twice is taking it off once; afterwards it is no
/// handler.
pub proof fn law_remove_handler_idempotent(h: Seq<ModuleId>, m: ModuleId)
    ensures
        without(without(h, m), m) == without(h, m),
        !without(h, m).contains(m),
{
    lemma_without(h, m);
    lemma_without(without(h, m), m);
}

/// Unloading a module that a load inserted gives back the module list and
/// the names as they were before the load.
pub proof fn law_unload_undoes_load(a: AppView, m: ModuleId, name: Seq<char>, i: int)
    requires
        a.wf(),
        !a.modules.contains(m),
        0 <= i < a.modules.len() + 1,
        a.modules.insert(a.load_pos(), m)[i] == m,
    ensures
        a.modules.insert(a.load_pos(), m).remove(i) == a.modules,
        a.names.insert(a.load_pos(), name).remove(i) == a.names,
{
    let p = a.load_pos();
    let s = a.modules.insert(p, m);
    if i < p {
        assert(s[i] == a.modules[i]);
        assert(a.modules.contains(a.modules[i]));
    } else if i > p {
        assert(s[i] == a.modules[i - 1]);
        assert(a.modules.contains(a.modules[i - 1]));
    }
    assert(i == p);
    assert(s.remove(i) =~= a.modules);
    assert(a.names.insert(p, name).remove(i) =~= a.names);
}

/// A module that another module loads while that one is being loaded
/// (before its load finishes and `mod_pos` moves on) is put before it, so
/// that it comes first in the module list.
pub proof fn law_dependency_loads_first(a: AppView, first: ModuleId, dep: ModuleId)
    requires
        a.mod_pos <= a.modules.len(),
    ensures
        ({
            let p = a.load_pos();
            let a1 = AppView { modules: a.modules.insert(p, first), ..a };
            let s2 = a1.modules.insert(a1.load_pos(), dep);
            s2[p] == dep && s2[p + 1] == first
        }),
{
}

/// The kernel after a run of loads: `Some(x)` is the start of the load of
/// `x` (it is inserted at the load position), `None` the finish of the
/// load begun last and not yet finished (`mod_pos` moves on).
pub open spec fn apply_loads(a: AppView, steps: Seq<Option<ModuleId>>) -> AppView
    decreases steps.len(),
{
    if steps.len() == 0 {
        a
    } else {
        let b = apply_loads(a, steps.drop_last());
        match steps.last() {
            Some(x) => AppView { modules: b.modules.insert(b.load_pos(), x), ..b },
            None => AppView { mod_pos: b.mod_pos.wrapping_add(1), ..b },
        }
    }
}

/// The loads started and not yet finished in a run of loads.
pub open spec fn open_loads(steps: Seq<Option<ModuleId>>) -> int
    decreases steps.len(),
{
    if steps.len() == 0 {
        0
    } else if steps.last() is Some {
        open_loads(steps.drop_last()) + 1
    } else {
        open_loads(steps.drop_last()) - 1
    }
}

/// A run of loads in which each finish closes a load that was started.
pub open spec fn well_nested(steps: Seq<Option<ModuleId>>) -> bool {
    forall|k: int| 0 <= k <= steps.len() ==> open_loads(#[trigger] steps.take(k)) >= 0
}

/// A run of loads of modules that are not loaded yet, each once.
pub open spec fn fresh_loads(a: AppView, steps: Seq<Option<ModuleId>>) -> bool {
    &&& forall|k: int| 0 <= k < steps.len() && steps[k] is Some ==> !a.modules.contains(
        #[trigger] steps[k]->0,
    )
    &&& forall|i: int, k: int|
        0 <= i < k < steps.len() && steps[i] is Some && steps[k] is Some ==> #[trigger] steps[i]->0
            != #[trigger] steps[k]->0
}

proof fn lemma_loads_before(a: AppView, m: ModuleId, steps: Seq<Option<ModuleId>>) -> (j: int)
    requires
        a.modules.no_duplicates(),
        0 <= a.mod_pos < a.modules.len(),
        a.modules[a.mod_pos as int] == m,
        fresh_loads(a, steps),
        well_nested(steps),
        a.modules.len() + steps.len() < usize::MAX,
    ensures
        ({
            let b = apply_loads(a, steps);
            &&& b.modules.no_duplicates()
            &&& b.modules.len() <= a.modules.len() + steps.len()
            &&& 0 <= j < b.modules.len()
            &&& b.modules[j] == m
            &&& b.mod_pos + open_loads(steps) <= j
            &&& b.mod_pos >= a.mod_pos
            &&& forall|i: int| 0 <= i < a.mod_pos ==> #[trigger] b.modules[i] == a.modules[i]
            &&& forall|k: int|
                0 <= k < steps.len() && steps[k] is Some ==> b.modules.subrange(0, j).contains(
                    #[trigger] steps[k]->0,
                )
            &&& forall|y: ModuleId|
                #[trigger] b.modules.contains(y) ==> a.modules.contains(y) || exists|k: int|
                    0 <= k < steps.len() && steps[k] == Some(y)
        }),
    decreases steps.len(),
{
    if steps.len() == 0 {
        a.mod_pos as int
    } else {
        let pre = steps.drop_last();
        assert forall|k: int| 0 <= k <= pre.len() implies open_loads(#[trigger] pre.take(k)) >= 0 by {
            assert(pre.take(k) =~= steps.take(k));
        }
        assert forall|k: int| 0 <= k < pre.len() && pre[k] is Some implies !a.modules.contains(
            #[trigger] pre[k]->0,
        ) by {
            assert(pre[k] == steps[k]);
        }
        assert forall|i: int, k: int|
            0 <= i < k < pre.len() && pre[i] is Some && pre[k] is Some implies #[trigger] pre[i]->0
                != #[trigger] pre[k]->0 by {
            assert(pre[i] == steps[i] && pre[k] == steps[k]);
        }
        let j0 = lemma_loads_before(a, m, pre);
        let b0 = apply_loads(a, pre);
        let b = apply_loads(a, steps);
        assert(steps.take(steps.len() as int) =~= steps);
        assert(pre.take(pre.len() as int) =~= pre);
        assert(open_loads(pre) >= 0);
        match steps.last() {
            Some(x) => {
                let q = b0.load_pos();
                assert(q == b0.mod_pos);
                assert(b.modules == b0.modules.insert(q, x));
                assert(!b0.modules.contains(x)) by {
                    if b0.modules.contains(x) {
                        if !a.modules.contains(x) {
                            let k = choose|k: int| 0 <= k < pre.len() && pre[k] == Some(x);
                            assert(steps[k] == Some(x));
                            assert(steps[steps.len() - 1] == Some(x));
                        }
                        assert(steps[steps.len() - 1] == Some(x));
                    }
                }
                lemma_insert_fresh(b0.modules, q, x);
                let j = j0 + 1;
                assert(b.modules[j] == m);
                assert forall|i: int| 0 <= i < a.mod_pos implies #[trigger] b.modules[i]
                    == a.modules[i] by {
                    assert(b0.modules[i] == a.modules[i]);
                }
                assert forall|k: int|
                    0 <= k < steps.len() && steps[k] is Some implies b.modules.subrange(0, j).contains(
                    #[trigger] steps[k]->0,
                ) by {
                    if k == steps.len() - 1 {
                        assert(b.modules.subrange(0, j)[q] == x);
                    } else {
                        assert(pre[k] == steps[k]);
                        assert(b0.modules.subrange(0, j0).contains(pre[k]->0));
                        let i = choose|i: int| 0 <= i < j0 && b0.modules.subrange(0, j0)[i] == pre[k]->0;
                        if i < q {
                            assert(b.modules.subrange(0, j)[i] == steps[k]->0);
                        } else {
                            assert(b.modules.subrange(0, j)[i + 1] == steps[k]->0);
                        }
                    }
                }
                assert forall|y: ModuleId| #[trigger] b.modules.contains(y) implies a.modules.contains(y)
                    || exists|k: int| 0 <= k < steps.len() && steps[k] == Some(y) by {
                    let i = choose|i: int| 0 <= i < b.modules.len() && b.modules[i] == y;
                    if i == q {
                        assert(steps[steps.len() - 1] == Some(y));
                    } else {
                        let i0 = if i < q {
                            i
                        } else {
                            i - 1
                        };
                        assert(b0.modules[i0] == y);
                        assert(b0.modules.contains(y));
                        if !a.modules.contains(y) {
                            let k = choose|k: int| 0 <= k < pre.len() && pre[k] == Some(y);
                            assert(steps[k] == Some(y));
                        }
                    }
                }
                j
            },
            None => {
                assert(open_loads(steps) == open_loads(pre) - 1);
                assert(b.modules == b0.modules);
                assert(b.mod_pos == b0.mod_pos + 1);
                assert forall|k: int|
                    0 <= k < steps.len() && steps[k] is Some implies b.modules.subrange(0, j0).contains(
                    #[trigger] steps[k]->0,
                ) by {
                    assert(pre[k] == steps[k]);
                }
                assert forall|y: ModuleId| #[trigger] b.modules.contains(y) implies a.modules.contains(y)
                    || exists|k: int| 0 <= k < steps.len() && steps[k] == Some(y) by {
                    if !a.modules.contains(y) {
                        let k = choose|k: int| 0 <= k < pre.len() && pre[k] == Some(y);
                        assert(steps[k] == Some(y));
                    }
                }
                j0
            },
        }
    }
}

/// Every module whose load starts while another module loads (its
/// dependencies, and theirs in turn), each load finishing before the one
/// that started it, ends up before that module in the module list: the
/// modules a module depends on come first, and the reverse order of
/// shutdown unloads it before them. `a` is the kernel just after the module
/// was inserted, before its load runs; `steps` the loads that its load runs.
pub proof fn law_dependencies_load_first(a: AppView, m: ModuleId, steps: Seq<Option<ModuleId>>)
    requires
        a.modules.no_duplicates(),
        0 <= a.mod_pos < a.modules.len(),
        a.modules[a.mod_pos as int] == m,
        fresh_loads(a, steps),
        well_nested(steps),
        a.modules.len() + steps.len() < usize::MAX,
    ensures
        ({
            let b = apply_loads(a, steps);
            forall|k: int, i: int, j: int|
                0 <= k < steps.len() && steps[k] is Some && 0 <= i < b.modules.len() && 0 <= j
                    < b.modules.len() && b.modules[i] == steps[k]->0 && b.modules[j] == m ==> i < j
        }),
{
    let j0 = lemma_loads_before(a, m, steps);
    let b = apply_loads(a, steps);
    assert forall|k: int, i: int, j: int|
        0 <= k < steps.len() && steps[k] is Some && 0 <= i < b.modules.len() && 0 <= j
            < b.modules.len() && b.modules[i] == steps[k]->0 && b.modules[j] == m implies i < j by {
        assert(j == j0);
        assert(b.modules.subrange(0, j0).contains(steps[k]->0));
        let t = choose|t: int| 0 <= t < j0 && b.modules.subrange(0, j0)[t] == steps[k]->0;
        assert(b.modules[t] == steps[k]->0);
        assert(i == t);
    }
}

/// A module loaded while no other load is in progress ends up last in
/// the module list, after every module that its load loaded in turn (its
/// dependencies, and theirs), and the modules loaded before keep their
/// places. `a0` is the kernel before the load, `steps` the loads that the
/// module's load runs.
pub proof fn law_module_load_dependencies_first(
    a0: AppView,
    m: ModuleId,
    steps: Seq<Option<ModuleId>>,
)
    requires
        a0.modules.no_duplicates(),
        a0.mod_pos == a0.modules.len(),
        !a0.modules.contains(m),
        fresh_loads(AppView { modules: a0.modules.insert(a0.load_pos(), m), ..a0 }, steps),
        well_nested(steps),
        a0.modules.len() + 1 + steps.len() < usize::MAX,
    ensures
        ({
            let a = AppView { modules: a0.modules.insert(a0.load_pos(), m), ..a0 };
            let b = apply_loads(a, steps);
            &&& b.modules.len() > 0
            &&& b.modules.last() == m
            &&& b.modules.no_duplicates()
            &&& forall|i: int| 0 <= i < a0.modules.len() ==> #[trigger] b.modules[i] == a0.modules[i]
            &&& forall|k: int|
                0 <= k < steps.len() && steps[k] is Some ==> b.modules.contains(#[trigger] steps[k]->0)
        }),
{
    let a = AppView { modules: a0.modules.insert(a0.load_pos(), m), ..a0 };
    let len0 = a0.modules.len() as int;
    assert(a0.load_pos() == len0);
    assert(a.modules =~= a0.modules.push(m));
    lemma_insert_fresh(a0.modules, len0, m);
    assert(a.modules[len0] == m);
    let j = lemma_loads_before(a, m, steps);
    let b = apply_loads(a, steps);
    assert(steps.take(steps.len() as int) =~= steps);
    assert(open_loads(steps) >= 0);
    assert(j >= len0);
    assert forall|i: int| 0 <= i < len0 implies #[trigger] b.modules[i] == a0.modules[i] by {
        assert(a.modules[i] == a0.modules[i]);
    }
    assert(j == b.modules.len() - 1) by {
        if j < b.modules.len() - 1 {
            let i = b.modules.len() - 1;
            let y = b.modules[i];
            assert(b.modules.contains(y));
            assert(y != m);
            if a.modules.contains(y) {
                let t = choose|t: int| 0 <= t < a.modules.len() && a.modules[t] == y;
                assert(t != len0);
                assert(b.modules[t] == a0.modules[t]);
                assert(a0.modules[t] == a.modules[t]);
            } else {
                let k = choose|k: int| 0 <= k < steps.len() && steps[k] == Some(y);
                assert(steps[k] is Some);
                assert(b.modules.subrange(0, j).contains(steps[k]->0));
                let t = choose|t: int| 0 <= t < j && b.modules.subrange(0, j)[t] == y;
                assert(b.modules[t] == y);
            }
        }
    }
    assert forall|k: int| 0 <= k < steps.len() && steps[k] is Some implies b.modules.contains(
        #[trigger] steps[k]->0,
    ) by {
        assert(b.modules.subrange(0, j).contains(steps[k]->0));
        let t = choose|t: int| 0 <= t < j && b.modules.subrange(0, j)[t] == steps[k]->0;
        assert(b.modules[t] == steps[k]->0);
    }
}

/// Modules loaded one after another, each load finished before the next
/// begins, are appended in that order: with `mod_pos` at the end of the
/// list, a load inserts at the end, and its finish leaves `mod_pos` at the
/// end again.
pub proof fn law_sequential_loads_append(a: AppView, m: ModuleId)
    requires
        a.mod_pos == a.modules.len(),
        a.mod_pos < usize::MAX,
    ensures
        a.modules.insert(a.load_pos(), m) == a.modules.push(m),
        a.mod_pos.wrapping_add(1) == a.modules.push(m).len(),
{
    assert(a.modules.insert(a.load_pos(), m) =~= a.modules.push(m));
}


/// An unloaded module is no handler of any notify or hooked event
/// afterwards; every other handler stays, in order, and the kernel stays
/// well formed.
pub proof fn law_unload_drops_handlers(a: AppView, m: ModuleId, event: AppEvent, notify: Seq<char>)
    requires
        a.wf(),
    ensures
        a.drop_module(m).wf(),
        !a.drop_module(m).notify_handlers(notify).contains(m),
        !a.drop_module(m).hook_handlers(event, notify).contains(m),
        a.drop_module(m).notify_handlers(notify) == without(a.notify_handlers(notify), m),
        a.drop_module(m).hook_handlers(event, notify) == without(
            a.hook_handlers(event, notify),
            m,
        ),
{
    lemma_strip(a.notifies, m);
    lemma_strip(a.hooks, m);
    lemma_without(a.notify_handlers(notify), m);
    lemma_without(a.hook_handlers(event, notify), m);
    assert(a.drop_module(m).notify_handlers(notify) == handlers_of(
        strip(a.notifies, m),
        AppEvent::NOTIFY,
        notify,
    ));
}

/// The modules given to the kernel are loaded each once, in the order of
/// their first occurrence: the load order holds every module given and no
/// module twice.
pub proof fn law_load_order_unique(s: Seq<ModuleId>)
    ensures
        dedup(s).no_duplicates(),
        forall|x: ModuleId| #[trigger] dedup(s).contains(x) <==> s.contains(x),
    decreases s.len(),
{
    if s.len() > 0 {
        law_load_order_unique(s.drop_last());
        let d = dedup(s.drop_last());
        assert forall|x: ModuleId| s.contains(x) <==> (s.drop_last().contains(x) || x == s.last()) by {
            if s.contains(x) {
                let i = choose|i: int| 0 <= i < s.len() && s[i] == x;
                if i < s.len() - 1 {
                    assert(s.drop_last()[i] == x);
                }
            }
            if s.drop_last().contains(x) {
                let i = choose|i: int| 0 <= i < s.drop_last().len() && s.drop_last()[i] == x;
                assert(s[i] == x);
            }
            if x == s.last() {
                assert(s[s.len() - 1] == x);
            }
        }
        if !d.contains(s.last()) {
            assert forall|x: ModuleId| #[trigger] d.push(s.last()).contains(x) <==> (d.contains(x)
                || x == s.last()) by {
                if d.push(s.last()).contains(x) {
                    let i = choose|i: int| 0 <= i < d.push(s.last()).len() && d.push(s.last())[i] == x;
                    if i < d.len() {
                        assert(d[i] == x);
                    }
                }
                if d.contains(x) {
                    let i = choose|i: int| 0 <= i < d.len() && d[i] == x;
                    assert(d.push(s.last())[i] == x);
                }
                if x == s.last() {
                    assert(d.push(s.last())[d.len() as int] == x);
                }
            }
            assert(d.push(s.last()).no_duplicates()) by {
                let e = d.push(s.last());
                assert forall|i: int, j: int| 0 <= i < e.len() && 0 <= j < e.len() && i != j implies e[i] != e[j] by {
                    if i < d.len() && j < d.len() {
                    } else if i < d.len() {
                        assert(d.contains(e[i]));
                    } else {
                        assert(d.contains(e[j]));
                    }
                }
            }
        }
    }
}

} // verus!