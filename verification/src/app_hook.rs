use crate::event::AppEvent;
use vstd::prelude::*;

verus! {

/// What a module hooks: the event, and the notify (or module name) that
/// the event carries; an empty notify hooks every event of that kind.
pub trait AppHook {
    spec fn spec_event(&self) -> AppEvent;

    spec fn spec_notify(&self) -> Seq<char>;

    fn event(&self) -> (res: AppEvent)
        ensures
            res == self.spec_event(),
    ;

    fn notify(&self) -> (res: &str)
        ensures
            res@ == self.spec_notify(),
    ;
}

/// A notify name hooks the `NOTIFY` event with that name.
impl AppHook for &str {
    open spec fn spec_event(&self) -> AppEvent {
        AppEvent::NOTIFY
    }

    open spec fn spec_notify(&self) -> Seq<char> {
        (*self)@
    }

    fn event(&self) -> (res: AppEvent) {
        AppEvent::NOTIFY
    }

    fn notify(&self) -> (res: &str) {
        *self
    }
}

/// An event alone hooks every event of that kind.
impl AppHook for AppEvent {
    open spec fn spec_event(&self) -> AppEvent {
        *self
    }

    open spec fn spec_notify(&self) -> Seq<char> {
        Seq::empty()
    }

    fn event(&self) -> (res: AppEvent) {
        *self
    }

    fn notify(&self) -> (res: &str) {
        proof {
            reveal_strlit("");
        }
        ""
    }
}

/// A pair hooks the given event with the given notify.
impl AppHook for (AppEvent, &str) {
    open spec fn spec_event(&self) -> AppEvent {
        self.0
    }

    open spec fn spec_notify(&self) -> Seq<char> {
        self.1@
    }

    fn event(&self) -> (res: AppEvent) {
        self.0
    }

    fn notify(&self) -> (res: &str) {
        self.1
    }
}

/// A pair with an owned notify, as module metadata keeps its hooks.
impl AppHook for (AppEvent, String) {
    open spec fn spec_event(&self) -> AppEvent {
        self.0
    }

    open spec fn spec_notify(&self) -> Seq<char> {
        self.1@
    }

    fn event(&self) -> (res: AppEvent) {
        self.0
    }

    fn notify(&self) -> (res: &str) {
        self.1.as_str()
    }
}

} // verus!
