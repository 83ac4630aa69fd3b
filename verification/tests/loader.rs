use app_kernel::app_module_meta::{AppModuleMeta, LdMeta};
use app_kernel::modules::ld_mod::{
    ld_notify, lib_name_ok, LdConfig, LdNotify, LoadLibraryPlan, LoadModulePlan, NT_LD_LOAD_MODULE,
};

fn meta(module: usize, name: &str, commands: &[&str]) -> AppModuleMeta {
    AppModuleMeta {
        module,
        name: name.to_string(),
        depends: vec![],
        sends: vec![],
        notifies: vec![],
        hooks: vec![],
        commands: commands.iter().map(|s| s.to_string()).collect(),
    }
}

fn config() -> LdConfig {
    let mut c = LdConfig::from_env(None, Some("/opt/lib"), Some("a, b a"), None);
    c.record_library(
        "/opt/lib/liba.so",
        LdMeta { lib: "a".to_string(), mods: vec![meta(0x10, "MOD_A", &["a", "aa"])] },
        false,
    );
    c
}

#[test]
fn env_settings() {
    let c = LdConfig::from_env(Some("on"), None, Some("x,y, x"), Some("m"));
    assert!(c.no_load());
    assert_eq!(*c.load_libs(), vec!["x".to_string(), "y".to_string()]);
    assert_eq!(*c.load_mods(), vec!["m".to_string()]);
    assert!(!LdConfig::from_env(Some("yes"), None, None, None).no_load());
}

#[test]
fn library_paths_and_names() {
    let c = config();
    assert_eq!(c.get_lib_path("foo"), "/opt/lib/libfoo.so");
    assert_eq!(c.get_lib_path("libfoo"), "/opt/lib/libfoo.so");
    assert_eq!(c.get_lib_path("./x/libbar.so"), "./x/libbar.so");
    assert_eq!(c.get_lib_path("/y/baz"), "/y/baz.so");
    assert!(lib_name_ok("/opt/lib/libfoo.so"));
    assert_eq!(c.get_lib_name("/opt/lib/libfoo.so"), "foo");
    assert_eq!(c.get_module_name("cmd"), "MOD_CMD");
    assert_eq!(c.get_module_name("MOD_x"), "MOD_X");
}

#[test]
fn lookups_in_loaded_libraries() {
    let c = config();
    assert_eq!(c.find_lib_by_module("MOD_A"), Some("/opt/lib/liba.so".to_string()));
    assert_eq!(c.find_lib_by_module("MOD_B"), None);
    assert_eq!(c.find_module_by_command("aa"), Some("MOD_A".to_string()));
    assert_eq!(c.find_module_by_name("MOD_A"), Some(0x10));
    assert_eq!(c.find_meta_by_name("MOD_A").unwrap().commands.len(), 2);
    assert_eq!(c.boot_command_module("a"), Some("MOD_A".to_string()));
    assert_eq!(c.boot_command_module(""), None);
    assert_eq!(c.library_state("/opt/lib/liba.so"), Some(false));
    assert_eq!(c.library_state("/nope"), None);
}

#[test]
fn load_module_plans() {
    let mut c = config();
    match c.plan_load_module("a").unwrap() {
        LoadModulePlan::Load { name, path } => {
            assert_eq!(name, "MOD_A");
            assert_eq!(path, "/opt/lib/liba.so");
        },
        LoadModulePlan::Loaded(_) => panic!("not loaded yet"),
    }
    let err = c.plan_load_module("b").unwrap_err();
    assert_eq!(err.message, "Library not found for module: b");
    c.record_module("MOD_A", 0x10, "a");
    assert!(matches!(c.plan_load_module("a").unwrap(), LoadModulePlan::Loaded(0x10)));
    assert_eq!(c.loaded_module("MOD_A"), Some(0x10));
    assert_eq!(c.modules_of_lib("a"), vec![("MOD_A".to_string(), 0x10)]);
    c.forget_module("MOD_A");
    assert_eq!(c.loaded_module("MOD_A"), None);
}

#[test]
fn open_and_close_state() {
    let mut c = config();
    assert!(!c.set_open("/opt/lib/liba.so", true));
    assert_eq!(c.library_state("/opt/lib/liba.so"), Some(true));
    assert!(c.set_open("/opt/lib/liba.so", false));
    assert!(!c.set_open("/nope", false));
}

#[test]
fn loader_entries() {
    let c = config();
    let e = c.iter_config();
    assert_eq!(e[0], ("ld.path".to_string(), "/opt/lib".to_string()));
    assert_eq!(e[1], ("ld.no_load".to_string(), "false".to_string()));
    assert_eq!(e[2], ("ld.load_libs".to_string(), "a,b".to_string()));
    assert_eq!(e[4], ("ld.loaded_libs".to_string(), "/opt/lib/liba.so".to_string()));
}

#[test]
fn loader_notifies() {
    assert_eq!(ld_notify(NT_LD_LOAD_MODULE), LdNotify::LoadModule);
    assert_eq!(ld_notify("Ld::close_library"), LdNotify::CloseLibrary);
    assert_eq!(ld_notify("Config::config_display"), LdNotify::ShowConfig);
    assert_eq!(ld_notify("x"), LdNotify::Nothing);
}

#[test]
fn record_replaces_and_forget_removes() {
    let mut c = config();
    c.record_module("MOD_A", 0x10, "a");
    c.record_module("MOD_B", 0x20, "b");
    c.record_module("MOD_A", 0x11, "a2");
    assert_eq!(c.loaded_module("MOD_A"), Some(0x11));
    assert_eq!(c.modules_of_lib("a2"), vec![("MOD_A".to_string(), 0x11)]);
    assert_eq!(c.modules_of_lib("a"), Vec::<(String, usize)>::new());
    c.forget_module("MOD_A");
    assert_eq!(c.loaded_module("MOD_A"), None);
    assert_eq!(c.loaded_module("MOD_B"), Some(0x20));
}

#[test]
fn bare_library_name_round_trips() {
    let c = LdConfig::from_env(None, Some("/usr/lib/app"), None, None);
    for name in ["foo", "a_b-c", ""] {
        let path = c.get_lib_path(name);
        assert!(lib_name_ok(&path));
        assert_eq!(c.get_lib_name(&path), name);
    }
}

#[test]
fn options_replace_settings() {
    let mut c = LdConfig::from_env(None, Some("/a"), Some("x"), None);
    c.apply_options(Some("true"), None, Some("y, z"), None);
    assert!(c.no_load());
    assert_eq!(c.lib_dir(), "/a");
    assert_eq!(*c.load_libs(), vec!["y".to_string(), "z".to_string()]);
    assert!(c.load_mods().is_empty());
}

#[test]
fn library_plans() {
    let c = config();
    match c.plan_load_library("b", true, true).unwrap() {
        LoadLibraryPlan::ReadMeta { path, keep_open } => {
            assert_eq!(path, "/opt/lib/libb.so");
            assert!(!keep_open);
        },
        _ => panic!("b is not recorded"),
    }
    assert_eq!(
        c.plan_load_library("b", false, false).unwrap_err().message,
        "Library not found: /opt/lib/libb.so"
    );
    assert!(matches!(c.plan_load_library("a", false, true).unwrap(), LoadLibraryPlan::Reopen { .. }));
    assert!(matches!(c.plan_load_library("a", true, true).unwrap(), LoadLibraryPlan::Loaded { .. }));
}
