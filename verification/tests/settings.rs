use app_kernel::app_config::{AppConfig, EnvInfo};
use app_kernel::app_module_meta::AppModuleMeta;
use app_kernel::main_mod::{creates_dirs, main_notify_plan, MainConfig};
use app_kernel::modules::async_mod::{RuntimeKind, TokioConfig};
use app_kernel::modules::config_mod::{
    config_init_plan, config_notify_plan, config_show, filter_list, filter_list_panics,
    select_module_meta, ConfigDisplay, ConfigShow,
};
use app_kernel::text::{decimal_exec, parse_u64};

fn pair(k: &str, v: &str) -> (String, String) {
    (k.to_string(), v.to_string())
}

fn meta(module: usize, name: &str) -> AppModuleMeta {
    AppModuleMeta {
        module,
        name: name.to_string(),
        depends: vec![],
        sends: vec![],
        notifies: vec![],
        hooks: vec![],
        commands: vec![],
    }
}

#[test]
fn display_is_sorted_lines() {
    let mut d = ConfigDisplay::new();
    d.push(vec![pair("b.x", "2"), pair("", "plain")]);
    d.push(vec![pair("a.y", "1"), pair("B", "3")]);
    assert_eq!(d.to_text(), "B=3\na.y=1\nb.x=2\nplain\n");
}

#[test]
fn filter_keeps_matching_lines() {
    let list = "a.x=1\nb.y=2\na.z=3\n";
    assert_eq!(filter_list(list, "a."), "a.x=1\na.z=3");
    assert_eq!(filter_list(list, "zz"), "");
}

#[test]
fn single_setting_shows_its_value() {
    let list = "a.x=1\nb.y=2\n";
    assert!(!filter_list_panics(list, "b.y"));
    assert_eq!(filter_list(list, "b.y"), "2");
    assert_eq!(filter_list(list, "b."), "b.y=2");
}

#[test]
fn filter_cut_inside_a_character_panics() {
    assert!(filter_list_panics("\u{e9}\u{e9}=1\n", "\u{e9}"));
}

#[test]
fn module_meta_selection() {
    let metas = vec![meta(1, "MOD_CMD"), meta(2, "MOD_HELP"), meta(3, "MOD_X")];
    assert_eq!(select_module_meta(&metas, &vec![]).unwrap(), vec![0, 1, 2]);
    assert_eq!(select_module_meta(&metas, &vec!["help".to_string()]).unwrap(), vec![1]);
    assert_eq!(select_module_meta(&metas, &vec!["mod_x".to_string()]).unwrap(), vec![2]);
    assert_eq!(select_module_meta(&metas, &vec!["nope".to_string(), "cmd".to_string()]).unwrap(), vec![0]);
    let err = select_module_meta(&metas, &vec!["nope".to_string()]).unwrap_err();
    assert_eq!(err.message, "Module not loaded: nope");
}

#[test]
fn name_short_drops_prefix() {
    assert_eq!(meta(1, "MOD_CMD").name_short(), "cmd");
    let m = AppModuleMeta::fallback(0x2a);
    assert_eq!(m.name, "0x2a");
    let c = meta(7, "MOD_Q").clone();
    assert_eq!(c.name, "MOD_Q");
    assert_eq!(c.module, 7);
}

#[test]
fn config_module_plans() {
    assert!(config_init_plan("config").add_command_options);
    assert!(!config_init_plan("x").add_command_options);
    let p = config_notify_plan("App::run", "c", false);
    assert!(p.run && !p.show_application && !p.collect);
    let p = config_notify_plan("App::shutdown", "x", true);
    assert!(p.show_application);
    let p = config_notify_plan("App::shutdown", "c", true);
    assert!(!p.show_application);
    assert!(config_notify_plan("Config::config_display", "", false).collect);
    assert_eq!(config_show(true, true, true, true), ConfigShow::Arguments);
    assert_eq!(config_show(false, true, true, true), ConfigShow::Application);
    assert_eq!(config_show(false, false, true, true), ConfigShow::ModuleMeta);
    assert_eq!(config_show(false, false, false, true), ConfigShow::Settings { from_files: true });
}

#[test]
fn app_config_defaults() {
    let c = AppConfig::defaults("app", "1.0", "now", false, None, None, None, None, None);
    assert_eq!(c.version, "v1.0 (now)");
    assert_eq!(c.config_file, "app.ini");
    assert_eq!(c.env_file, None);
    assert_eq!(c.pid_file, "app.pid");
    let c = AppConfig::defaults(
        "app",
        "1.0",
        "now",
        true,
        Some("".to_string()),
        Some("built.ini".to_string()),
        Some("e.env".to_string()),
        None,
        Some("p.pid".to_string()),
    );
    assert_eq!(c.config_file, "built.ini");
    assert_eq!(c.env_file, Some("e.env".to_string()));
    assert_eq!(c.pid_file, "p.pid");
    assert!(c.no_std);
}

#[test]
fn app_config_paths_resolve() {
    let c = AppConfig::defaults("app", "1", "t", false, None, None, None, Some("x.env".to_string()), None);
    let r = c.resolve(None, None, None, "/etc/app", "/run/app", "/var/app");
    assert_eq!(r.config_file, "/etc/app/app.ini");
    assert_eq!(r.pid_file, "/run/app/app.pid");
    assert_eq!(r.env_file, Some("/var/app/x.env".to_string()));
    let c = AppConfig::defaults("app", "1", "t", false, None, None, None, None, None);
    let r = c.resolve(
        Some("./local.ini".to_string()),
        Some(".env".to_string()),
        Some("/tmp/a.pid".to_string()),
        "/etc/app",
        "/run/app",
        "/var/app",
    );
    assert_eq!(r.config_file, "./local.ini");
    assert_eq!(r.pid_file, "/tmp/a.pid");
    assert_eq!(r.env_file, Some("/var/app/.env".to_string()));
}

#[test]
fn app_config_entries() {
    let c = AppConfig::defaults("app", "1", "t", false, None, None, None, None, None);
    let env = EnvInfo {
        profile: "debug".to_string(),
        env: "dev".to_string(),
        is_prod: false,
        is_dev: true,
        is_test: false,
        is_debug: true,
        is_release: false,
    };
    let e = c.iter_config(&env);
    assert_eq!(e.len(), 14);
    assert_eq!(e[3], pair("app.env_file", ""));
    assert_eq!(e[7], pair("app.mods_stack_limit", "20"));
    assert_eq!(e[10], pair("env.is_dev", "true"));
}

#[test]
fn main_config() {
    let c = MainConfig::defaults(None);
    assert_eq!(c.foo, Some("World".to_string()));
    let c = MainConfig::defaults(Some("".to_string())).with_option(None);
    assert_eq!(c.foo, Some("".to_string()));
    let c = c.with_option(Some("bar".to_string()));
    assert_eq!(c.iter_config("std"), vec![pair("app.features", "std"), pair("main.foo", "bar")]);
    assert!(main_notify_plan("App::run", "main").start_async);
    assert!(!main_notify_plan("App::run", "a").start_async);
    assert!(main_notify_plan("Config::config_display", "").show_config);
    assert!(creates_dirs(false, false));
    assert!(!creates_dirs(true, false));
}

#[test]
fn tokio_config_from_env() {
    let c = TokioConfig::from_env(None, None, None).unwrap();
    assert_eq!((c.threads, c.blocking_threads, c.blocking_threads_lifetime), (1, 512, 60));
    assert_eq!(c.thread_name, "tokio-worker");
    assert_eq!(c.runtime_kind(), RuntimeKind::MultiThread { workers: 1 });
    let c = TokioConfig::from_env(Some("0".to_string()), Some("+8".to_string()), None).unwrap();
    assert_eq!(c.runtime_kind(), RuntimeKind::CurrentThread);
    assert_eq!(c.blocking_threads, 8);
    assert!(TokioConfig::from_env(Some("many".to_string()), None, None).is_none());
    assert!(TokioConfig::from_env(None, None, Some("-1".to_string())).is_none());
    let e = c.custom("tokio-mod-a", 1).iter_config();
    assert_eq!(e[0], pair("tokio.threads", "1"));
    assert_eq!(e[3], pair("tokio.thread_name", "tokio-mod-a"));
}

#[test]
fn shown_numbers_parse_back() {
    for n in [0u64, 7, 10, 99, 12345, u64::MAX] {
        let shown: String = decimal_exec(n).into_iter().collect();
        assert_eq!(parse_u64(&shown.chars().collect()), Some(n));
    }
}
