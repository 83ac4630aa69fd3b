use vstd::prelude::*;

verus! {

/// The kinds of events that the kernel dispatches to modules.
#[derive(Debug, Clone, Copy, PartialEq, Eq, Structural, Hash)]
pub enum AppEvent {
    LOAD,
    UNLOAD,
    NOTIFY,
    HOOK,
    META,
}

impl AppEvent {
    /// The text under which the event is shown.
    pub open spec fn spec_name(self) -> Seq<char> {
        match self {
            AppEvent::LOAD => "LOAD"@,
            AppEvent::UNLOAD => "UNLOAD"@,
            AppEvent::NOTIFY => "NOTIFY"@,
            AppEvent::HOOK => "HOOK"@,
            AppEvent::META => "META"@,
        }
    }

    /// The name of the event, as `Display` shows it.
    pub fn name(&self) -> (res: &'static str)
        ensures
            res@ == self.spec_name(),
    {
        proof {
            reveal_strlit("LOAD");
            reveal_strlit("UNLOAD");
            reveal_strlit("NOTIFY");
            reveal_strlit("HOOK");
            reveal_strlit("META");
        }
        match self {
            AppEvent::LOAD => "LOAD",
            AppEvent::UNLOAD => "UNLOAD",
            AppEvent::NOTIFY => "NOTIFY",
            AppEvent::HOOK => "HOOK",
            AppEvent::META => "META",
        }
    }
}

impl Default for AppEvent {
    fn default() -> (res: Self)
        ensures
            res == AppEvent::NOTIFY,
    {
        AppEvent::NOTIFY
    }
}


/// An event as the modules receive it: what it is, its notify, who sent
/// it and with what context, the result that handlers leave, and whether
/// one has handled it. The event, notify, sender and context never change
/// once it is made; only the result and the `handled` flag do.
pub struct AppEventData<S, C, R> {
    event: AppEvent,
    notify: String,
    sender: Option<S>,
    context: Option<C>,
    result: Option<R>,
    handled: bool,
}

impl<S, C, R> AppEventData<S, C, R> {
    pub closed spec fn spec_event(&self) -> AppEvent {
        self.event
    }

    pub closed spec fn spec_notify(&self) -> Seq<char> {
        self.notify@
    }

    pub closed spec fn spec_sender(&self) -> Option<S> {
        self.sender
    }

    pub closed spec fn spec_context(&self) -> Option<C> {
        self.context
    }

    pub closed spec fn spec_result(&self) -> Option<R> {
        self.result
    }

    pub closed spec fn spec_handled(&self) -> bool {
        self.handled
    }

    /// An event not handled yet, with the result it starts with.
    pub fn new(
        event: AppEvent,
        notify: &str,
        sender: Option<S>,
        context: Option<C>,
        result: Option<R>,
    ) -> (res: Self)
        ensures
            res.spec_event() == event,
            res.spec_notify() == notify@,
            res.spec_sender() == sender,
            res.spec_context() == context,
            res.spec_result() == result,
            !res.spec_handled(),
    {
        AppEventData { event, notify: notify.to_owned(), sender, context, result, handled: false }
    }

    pub fn event(&self) -> (res: AppEvent)
        ensures
            res == self.spec_event(),
    {
        self.event
    }

    pub fn notify(&self) -> (res: &str)
        ensures
            res@ == self.spec_notify(),
    {
        self.notify.as_str()
    }

    pub fn sender(&self) -> (res: &Option<S>)
        ensures
            *res == self.spec_sender(),
    {
        &self.sender
    }

    pub fn context(&self) -> (res: &Option<C>)
        ensures
            *res == self.spec_context(),
    {
        &self.context
    }

    pub fn result(&self) -> (res: &Option<R>)
        ensures
            *res == self.spec_result(),
    {
        &self.result
    }

    pub fn handled(&self) -> (res: bool)
        ensures
            res == self.spec_handled(),
    {
        self.handled
    }

    /// Leaves a result; the one left last is what the sender gets back.
    pub fn set_result(&mut self, value: R)
        ensures
            final(self).spec_result() == Some(value),
            final(self).spec_handled() == old(self).spec_handled(),
            final(self).spec_event() == old(self).spec_event(),
            final(self).spec_notify() == old(self).spec_notify(),
            final(self).spec_sender() == old(self).spec_sender(),
            final(self).spec_context() == old(self).spec_context(),
    {
        self.result = Some(value);
    }

    /// Marks the event handled, or not.
    pub fn set_handled(&mut self, handled: bool)
        ensures
            final(self).spec_handled() == handled,
            final(self).spec_result() == old(self).spec_result(),
            final(self).spec_event() == old(self).spec_event(),
            final(self).spec_notify() == old(self).spec_notify(),
            final(self).spec_sender() == old(self).spec_sender(),
            final(self).spec_context() == old(self).spec_context(),
    {
        self.handled = handled;
    }

    /// The result the event ends with, which goes back to its sender.
    pub fn into_result(self) -> (res: Option<R>)
        ensures
            res == self.spec_result(),
    {
        self.result
    }
}

} // verus!
