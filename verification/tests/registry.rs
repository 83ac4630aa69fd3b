use app_kernel::app::{App, NT_APP_RUN, NT_APP_SHUTDOWN};
use app_kernel::app_module_meta::AppModuleMeta;
use app_kernel::dispatch::{Action, Body, HookedCall};
use app_kernel::event::{AppEvent, AppEventData};
use app_kernel::handlers::MODS_STACK_LIMIT;

const MOD_A: usize = 0x1000;
const MOD_B: usize = 0x2000;
const MOD_C: usize = 0x3000;
const HOOKER: usize = 0x4000;

/// Runs a call to its end, with nothing marked handled, and lists its
/// actions.
fn drive(call: &mut HookedCall, app: &mut App) -> Vec<Action> {
    let mut out = Vec::new();
    loop {
        let a = call.next(app, false, false);
        out.push(a);
        if a == Action::Done {
            return out;
        }
    }
}

#[test]
fn notify_handlers_keep_registration_order() {
    let mut app = App::new();
    assert_eq!(app.add_notify_handler("n", MOD_B).unwrap(), true);
    assert_eq!(app.add_notify_handler("n", MOD_A).unwrap(), true);
    assert_eq!(app.notify_handlers("n"), vec![MOD_B, MOD_A]);
    assert_eq!(app.notify_handlers("other"), Vec::<usize>::new());
}

#[test]
fn adding_a_handler_twice_is_adding_it_once() {
    let mut app = App::new();
    assert_eq!(app.add_notify_handler("n", MOD_A).unwrap(), true);
    assert_eq!(app.add_notify_handler("n", MOD_A).unwrap(), false);
    assert_eq!(app.notify_handlers("n"), vec![MOD_A]);
}

#[test]
fn add_then_remove_restores_handlers() {
    let mut app = App::new();
    app.add_notify_handler("n", MOD_A).unwrap();
    let before = app.notify_handlers("n");
    assert_eq!(app.add_notify_handler("n", MOD_B).unwrap(), true);
    assert_eq!(app.remove_notify_handler("n", MOD_B).unwrap(), true);
    assert_eq!(app.notify_handlers("n"), before);
    assert_eq!(app.remove_notify_handler("n", MOD_B).unwrap(), false);
}

#[test]
fn hook_on_hook_event_is_refused() {
    let mut app = App::new();
    let err = app.add_hook_handler(AppEvent::HOOK, "n", MOD_A).unwrap_err();
    assert_eq!(err.message, "Forbidden register hook on event AppEvent::HOOK");
    assert_eq!(app.hook_handlers(AppEvent::HOOK, "n"), Vec::<usize>::new());
}

#[test]
fn hooks_for_are_specific_then_generic() {
    let mut app = App::new();
    app.add_hook_handler(AppEvent::NOTIFY, "", MOD_A).unwrap();
    app.add_hook_handler(AppEvent::NOTIFY, "n", MOD_B).unwrap();
    assert_eq!(app.hooks_for(AppEvent::NOTIFY, "n"), vec![MOD_B, MOD_A]);
    assert_eq!(app.hooks_for(AppEvent::NOTIFY, "m"), vec![MOD_A]);
}

#[test]
fn handler_limit_is_enforced_by_can_add() {
    let mut app = App::new();
    for i in 0..MODS_STACK_LIMIT {
        assert!(app.can_add_notify_handler("n", 100 + i));
        app.add_notify_handler("n", 100 + i).unwrap();
    }
    assert!(!app.can_add_notify_handler("n", 5000));
    assert!(app.can_add_notify_handler("n", 100));
    assert_eq!(app.notify_handlers("n").len(), MODS_STACK_LIMIT);
}

#[test]
fn plain_notify_order() {
    let mut app = App::new();
    app.add_hook_handler(AppEvent::NOTIFY, "", HOOKER).unwrap();
    app.add_hook_handler(AppEvent::NOTIFY, "n", MOD_C).unwrap();
    app.add_notify_handler("n", MOD_A).unwrap();
    app.add_notify_handler("n", MOD_B).unwrap();
    let mut call = app.notify::<(), (), ()>("n", None, None, None).0.unwrap();
    assert_eq!(call.body(), Body::Notify);
    let acts = drive(&mut call, &mut app);
    assert_eq!(
        acts,
        vec![
            Action::CallHook { module: MOD_C, pre: true },
            Action::CallHook { module: HOOKER, pre: true },
            Action::CallModule { module: MOD_A },
            Action::CallModule { module: MOD_B },
            Action::ClearHookHandled,
            Action::CallHook { module: MOD_C, pre: false },
            Action::CallHook { module: HOOKER, pre: false },
            Action::Done,
        ]
    );
}

#[test]
fn notify_without_handlers_is_not_dispatched() {
    let app = App::new();
    assert!(app.notify::<(), (), ()>("nobody", None, None, None).0.is_none());
    assert!(app.run::<(), (), ()>(None, None).0.is_none());
}

#[test]
fn handled_pre_hook_cancels_the_body() {
    let mut app = App::new();
    app.add_hook_handler(AppEvent::NOTIFY, NT_APP_RUN, HOOKER).unwrap();
    app.add_notify_handler(NT_APP_RUN, MOD_A).unwrap();
    let mut call = app.run::<(), (), ()>(None, None).0.unwrap();
    assert_eq!(call.next(&mut app, false, false), Action::CallHook { module: HOOKER, pre: true });
    assert_eq!(call.next(&mut app, true, true), Action::Done);
}

#[test]
fn handled_handler_stops_the_others() {
    let mut app = App::new();
    app.add_notify_handler("n", MOD_A).unwrap();
    app.add_notify_handler("n", MOD_B).unwrap();
    let mut call = app.notify::<(), (), ()>("n", None, None, None).0.unwrap();
    assert_eq!(call.next(&mut app, false, false), Action::CallModule { module: MOD_A });
    assert_eq!(call.next(&mut app, true, false), Action::ClearHookHandled);
    assert_eq!(call.next(&mut app, true, false), Action::Done);
}

#[test]
fn load_then_unload_restores_modules() {
    let mut app = App::new();
    let mut c = app.module_load(MOD_A, "MOD_A").unwrap();
    assert_eq!(drive(&mut c, &mut app), vec![Action::CallModule { module: MOD_A }, Action::ClearHookHandled, Action::Done]);
    let before = app.modules();
    let mut c = app.module_load(MOD_B, "MOD_B").unwrap();
    drive(&mut c, &mut app);
    assert_eq!(app.modules(), vec![MOD_A, MOD_B]);
    let mut u = app.module_unload(MOD_B, "MOD_B").unwrap();
    assert_eq!(u.event(), AppEvent::UNLOAD);
    drive(&mut u, &mut app);
    assert_eq!(app.modules(), before);
    assert!(app.module_unload(MOD_B, "MOD_B").is_none());
}

#[test]
fn loading_twice_or_same_name_does_nothing() {
    let mut app = App::new();
    let mut c = app.module_load(MOD_A, "MOD_A").unwrap();
    drive(&mut c, &mut app);
    assert!(app.module_load(MOD_A, "MOD_A").is_none());
    assert!(app.module_load(MOD_B, "MOD_A").is_none());
    assert_eq!(app.modules(), vec![MOD_A]);
}

#[test]
fn dependency_loaded_during_load_comes_first() {
    let mut app = App::new();
    let mut ca = app.module_load(MOD_A, "MOD_A").unwrap();
    // MOD_A, while it loads, loads MOD_B.
    assert_eq!(ca.next(&mut app, false, false), Action::CallModule { module: MOD_A });
    let mut cb = app.module_load(MOD_B, "MOD_B").unwrap();
    drive(&mut cb, &mut app);
    drive(&mut ca, &mut app);
    let mut cc = app.module_load(MOD_C, "MOD_C").unwrap();
    drive(&mut cc, &mut app);
    assert_eq!(app.modules(), vec![MOD_B, MOD_A, MOD_C]);
    assert_eq!(app.unload_order(), vec![MOD_C, MOD_A, MOD_B]);
}

#[test]
fn unload_takes_module_off_every_handler_list() {
    let mut app = App::new();
    let mut c = app.module_load(MOD_A, "MOD_A").unwrap();
    drive(&mut c, &mut app);
    app.add_notify_handler("n", MOD_A).unwrap();
    app.add_notify_handler("n", MOD_B).unwrap();
    app.add_hook_handler(AppEvent::LOAD, "", MOD_A).unwrap();
    let mut u = app.module_unload(MOD_A, "MOD_A").unwrap();
    drive(&mut u, &mut app);
    assert_eq!(app.notify_handlers("n"), vec![MOD_B]);
    assert_eq!(app.hook_handlers(AppEvent::LOAD, ""), Vec::<usize>::new());
    assert!(!app.is_loaded(MOD_A));
}

#[test]
fn shutdown_unloads_in_reverse() {
    let mut app = App::new();
    for (m, n) in [(MOD_A, "MOD_A"), (MOD_B, "MOD_B"), (MOD_C, "MOD_C")] {
        let mut c = app.module_load(m, n).unwrap();
        drive(&mut c, &mut app);
    }
    app.add_notify_handler(NT_APP_SHUTDOWN, MOD_B).unwrap();
    let (call, event, order) = app.shutdown::<(), i32, ()>(None, Some(3));
    assert_eq!(*event.context(), Some(3));
    assert_eq!(call.unwrap().notify(), NT_APP_SHUTDOWN);
    assert_eq!(order, vec![MOD_C, MOD_B, MOD_A]);
}

#[test]
fn load_order_drops_repeats() {
    let order = app_kernel::app::load_order(&vec![MOD_A, MOD_B, MOD_A, MOD_C, MOD_B]);
    assert_eq!(order, vec![MOD_A, MOD_B, MOD_C]);
}

#[test]
fn event_names() {
    assert_eq!(AppEvent::LOAD.name(), "LOAD");
    assert_eq!(AppEvent::default(), AppEvent::NOTIFY);
}

#[test]
fn registration_stops_at_forbidden_hook() {
    let meta = AppModuleMeta {
        module: MOD_A,
        name: "MOD_A".to_string(),
        depends: vec![],
        sends: vec![],
        notifies: vec!["n1".to_string(), "n2".to_string()],
        hooks: vec![
            (AppEvent::NOTIFY, "n1".to_string()),
            (AppEvent::HOOK, "x".to_string()),
            (AppEvent::LOAD, "".to_string()),
        ],
        commands: vec![],
    };
    let mut app = App::new();
    assert!(app.can_register(MOD_A, &meta));
    let err = app.register_handlers(MOD_A, &meta).unwrap_err();
    assert_eq!(err.message, "Forbidden register hook on event AppEvent::HOOK");
    assert_eq!(app.notify_handlers("n1"), vec![MOD_A]);
    assert_eq!(app.notify_handlers("n2"), vec![MOD_A]);
    assert_eq!(app.hook_handlers(AppEvent::NOTIFY, "n1"), vec![MOD_A]);
    assert_eq!(app.hook_handlers(AppEvent::LOAD, ""), Vec::<usize>::new());
}

#[test]
fn unloading_module_does_not_post_hook_itself() {
    let mut app = App::new();
    let mut c = app.module_load(MOD_A, "MOD_A").unwrap();
    drive(&mut c, &mut app);
    app.add_hook_handler(AppEvent::UNLOAD, "", MOD_A).unwrap();
    app.add_hook_handler(AppEvent::UNLOAD, "MOD_A", HOOKER).unwrap();
    let mut u = app.module_unload(MOD_A, "MOD_A").unwrap();
    assert_eq!(
        drive(&mut u, &mut app),
        vec![
            Action::CallHook { module: HOOKER, pre: true },
            Action::CallHook { module: MOD_A, pre: true },
            Action::CallModule { module: MOD_A },
            Action::ClearHookHandled,
            Action::CallHook { module: HOOKER, pre: false },
            Action::Done,
        ]
    );
}

#[test]
fn nested_dependencies_come_first() {
    let mut app = App::new();
    let mut ca = app.module_load(MOD_A, "MOD_A").unwrap();
    assert_eq!(ca.next(&mut app, false, false), Action::CallModule { module: MOD_A });
    let mut cb = app.module_load(MOD_B, "MOD_B").unwrap();
    assert_eq!(cb.next(&mut app, false, false), Action::CallModule { module: MOD_B });
    let mut cc = app.module_load(MOD_C, "MOD_C").unwrap();
    drive(&mut cc, &mut app);
    drive(&mut cb, &mut app);
    drive(&mut ca, &mut app);
    assert_eq!(app.modules(), vec![MOD_C, MOD_B, MOD_A]);
    assert_eq!(app.unload_order(), vec![MOD_A, MOD_B, MOD_C]);
}

#[test]
fn notify_without_handlers_gives_back_its_result() {
    let app = App::new();
    let (call, event) = app.notify("nobody", Some("me"), Some(7u8), Some("start"));
    assert!(call.is_none());
    assert_eq!(*event.sender(), Some("me"));
    assert_eq!(event.into_result(), Some("start"));
}

#[test]
fn handlers_see_the_sender_and_leave_a_result() {
    let mut app = App::new();
    app.add_notify_handler("n", MOD_A).unwrap();
    app.add_notify_handler("n", MOD_B).unwrap();
    let (call, mut event) = app.notify("n", Some("me"), Some(7u8), Some("start"));
    let mut call = call.unwrap();
    assert_eq!(call.next_for(&mut app, &event, false), Action::CallModule { module: MOD_A });
    assert_eq!(*event.sender(), Some("me"));
    assert_eq!(*event.context(), Some(7u8));
    event.set_result("from A");
    event.set_handled(true);
    assert_eq!(event.notify(), "n");
    assert_eq!(call.next_for(&mut app, &event, false), Action::ClearHookHandled);
    assert_eq!(call.next_for(&mut app, &event, false), Action::Done);
    assert_eq!(*event.sender(), Some("me"));
    assert_eq!(event.into_result(), Some("from A"));
    let fresh: AppEventData<(), (), ()> = AppEventData::new(AppEvent::NOTIFY, "x", None, None, None);
    assert!(!fresh.handled());
}
