use app_kernel::app_module::{lifecycle_steps, LifecycleStep};
use app_kernel::event::AppEvent;
use app_kernel::modules::async_mod::{
    async_notify_plan, balancer_pause_nanos, needs_balancer, AsyncState, NT_ASYNC_SPAWN,
    NT_ASYNC_START,
};
use app_kernel::pid_file::{
    cleanup_after, failure_error, pid_text, wrote_all, PidCleanup, PidCreateStart, PidFile,
    PidFileFailure,
};
use app_kernel::ping_mods::{
    a_glyph, b_glyph, mod_a_plan, mod_b_plan, ping_step, GlyphColor, CYCLE_END, MOD_B_GLYPH,
};

#[test]
fn pid_file_is_created_once() {
    let mut p = PidFile::new("/run/app.pid");
    assert_eq!(p.file_path(), "/run/app.pid");
    assert!(!p.is_created());
    assert_eq!(p.begin_create(), PidCreateStart::Proceed);
    p.finish_create(7);
    assert!(p.is_created());
    assert_eq!(p.begin_create(), PidCreateStart::AlreadyCreated);
    assert_eq!(p.take_fd(), Some(7));
    assert!(!p.is_created());
    assert_eq!(p.take_fd(), None);
    assert_eq!(PidFile::new("").begin_create(), PidCreateStart::NoPath);
}

#[test]
fn pid_text_and_errors() {
    assert_eq!(pid_text(4242), "4242\n");
    assert_eq!(pid_text(-3), "-3\n");
    assert!(wrote_all(5, 5));
    assert!(!wrote_all(-1, 5));
    assert!(!wrote_all(4, 5));
    assert_eq!(
        failure_error(PidFileFailure::Lock, "/x.pid").message,
        "Could not lock pid file: /x.pid"
    );
    assert_eq!(
        failure_error(PidFileFailure::Write, "/x.pid").message,
        "Could not write to pid file: /x.pid"
    );
    assert_eq!(cleanup_after(PidFileFailure::Open), PidCleanup { unlock: false, close: false });
    assert_eq!(cleanup_after(PidFileFailure::Lock), PidCleanup { unlock: false, close: true });
    assert_eq!(cleanup_after(PidFileFailure::Truncate), PidCleanup { unlock: true, close: true });
}

#[test]
fn runtime_starts_once_until_stopped() {
    let mut s = AsyncState::new();
    assert!(s.begin_start());
    assert!(!s.begin_start());
    assert!(s.runs_init_on_hook(AppEvent::LOAD, false));
    assert!(!s.runs_init_on_hook(AppEvent::LOAD, true));
    s.stop();
    assert!(!s.runs_init_on_hook(AppEvent::LOAD, false));
    assert!(s.begin_start());
}

#[test]
fn start_plan_once() {
    let mut s = AsyncState::new();
    let p = s.start(false, true).unwrap();
    assert!(p.create_runtime && p.block);
    assert!(s.start(false, true).is_none());
    s.stop();
    let p = s.start(true, false).unwrap();
    assert!(!p.create_runtime && !p.block);
}

#[test]
fn balancer_pace() {
    assert!(!needs_balancer(1));
    assert!(needs_balancer(2));
    assert_eq!(balancer_pause_nanos(101, 100), 1);
    assert_eq!(balancer_pause_nanos(20, 5), 1);
    assert_eq!(balancer_pause_nanos(15, 5), 10_000_000);
    assert_eq!(balancer_pause_nanos(3, 50), 10_000_000);
}

#[test]
fn async_notifies() {
    let p = async_notify_plan(NT_ASYNC_START);
    assert!(p.handled && p.start && !p.spawn);
    let p = async_notify_plan(NT_ASYNC_SPAWN);
    assert!(p.handled && p.spawn);
    assert!(async_notify_plan("App::shutdown").stop);
    assert!(async_notify_plan("Config::config_display").show_config);
}

#[test]
fn ping_cycle() {
    assert_eq!(ping_step(0), (1, 1));
    assert_eq!(ping_step(9_998), (9_999, 1));
    assert_eq!(ping_step(9_999), (10_000, 100));
    assert_eq!(ping_step(CYCLE_END - 1), (CYCLE_END, 100));
    assert_eq!(ping_step(CYCLE_END), (0, 100));
    let mut i = 0;
    for _ in 0..30_000 {
        i = ping_step(i).0;
        assert!(i <= CYCLE_END);
    }
}

#[test]
fn ping_glyphs_and_plans() {
    assert_eq!(b_glyph(Some('x')).glyph, 'x');
    assert_eq!(b_glyph(Some('x')).color, GlyphColor::Green);
    assert_eq!(b_glyph(None).glyph, MOD_B_GLYPH);
    assert_eq!(a_glyph().color, GlyphColor::Red);
    assert!(mod_a_plan("ModuleA::ping", "").ping);
    assert!(mod_a_plan("Async::started", "").start_loop);
    assert!(mod_a_plan("App::run", "a").start_async);
    assert!(!mod_a_plan("App::run", "b").start_async);
    assert!(mod_b_plan("App::run", "b").run_loop);
    assert!(mod_b_plan("ModuleB::ping", "").ping);
}

#[test]
fn lifecycle_of_events() {
    assert_eq!(
        lifecycle_steps(AppEvent::LOAD),
        vec![
            LifecycleStep::RequireApp,
            LifecycleStep::CreateInstance,
            LifecycleStep::GetInstance,
            LifecycleStep::InitLogger,
            LifecycleStep::RegisterHandlers,
            LifecycleStep::Init,
            LifecycleStep::LoadDepends,
            LifecycleStep::Boot,
        ]
    );
    assert_eq!(lifecycle_steps(AppEvent::META), vec![LifecycleStep::SetMetaResult]);
    assert_eq!(
        lifecycle_steps(AppEvent::UNLOAD),
        vec![
            LifecycleStep::RequireApp,
            LifecycleStep::GetInstance,
            LifecycleStep::RemoveInstance,
            LifecycleStep::Down,
        ]
    );
}

#[test]
fn lifecycle_errors() {
    assert_eq!(
        app_kernel::app_module::app_required().message,
        "Argument 'app' is empty in AppModuleExt::handle()"
    );
    assert_eq!(
        app_kernel::app_module::module_not_found("CmdModule").message,
        "Module 'CmdModule' does not found in App"
    );
    let m = app_kernel::app_module_meta::AppModuleMeta::answered_or_fallback(None, 0x10);
    assert_eq!(m.name, "0x10");
    assert_eq!(app_kernel::modules::cmd_mod::invalid_command("zz").message, "Invalid command: zz");
    assert_eq!(app_kernel::modules::cmd_mod::failed_execution("/b").message, "Failed execution: /b");
}
