use app_kernel::event::AppEvent;
use app_kernel::modules::cmd_mod::{bin_args, cmd_hook_plan, CmdAlias, CmdConfig, CmdFlags};

fn strings(v: &[&str]) -> Vec<String> {
    v.iter().map(|s| s.to_string()).collect()
}

fn config() -> CmdConfig {
    CmdConfig {
        default: Some("main".to_string()),
        bins: vec![
            ("tool".to_string(), CmdAlias::from_opt(Some("t, tl"))),
            ("".to_string(), CmdAlias::from_opt(Some("t"))),
            ("other".to_string(), CmdAlias::from_opt(Some("o"))),
        ],
    }
}

#[test]
fn alias_from_list() {
    let a = CmdAlias::from_opt(Some("a, b,,c"));
    assert_eq!(a.names, strings(&["a", "b", "c"]));
    assert_eq!(a.to_text(), "a,b,c");
    assert!(a.contains("b"));
    assert!(!a.contains("d"));
    assert!(CmdAlias::from_opt(None).names.is_empty());
}

#[test]
fn cmd_config_entries() {
    let e = config().iter_config();
    assert_eq!(
        e,
        vec![
            ("cmd.default".to_string(), "main".to_string()),
            ("cmd.bins".to_string(), "tool=t,tl".to_string()),
            ("cmd.bins".to_string(), "=t".to_string()),
            ("cmd.bins".to_string(), "other=o".to_string()),
        ]
    );
}

#[test]
fn bin_for_alias_and_fallback() {
    let c = config();
    let line = strings(&["app", "t", "x", "t", "y"]);
    let b = c.resolve_bin_cmd("t", "/bin", "app", &line).unwrap();
    assert_eq!(b.path, "/bin/app-tool");
    assert_eq!(b.args, strings(&["x", "y"]));
    let b = c.resolve_bin_cmd("zz", "/bin", "app", &line).unwrap();
    assert_eq!(b.path, "/bin/app-zz");
    assert!(c.resolve_bin_cmd("", "/bin", "app", &line).is_none());
}

#[test]
fn bin_args_after_double_dash() {
    let line = strings(&["app", "t", "a", "--", "b", "--", "c"]);
    assert_eq!(bin_args(&line, "t"), strings(&["b", "--", "c"]));
    assert_eq!(bin_args(&strings(&[]), "t"), Vec::<String>::new());
}

#[test]
fn cmd_hook_plans() {
    let p = cmd_hook_plan(AppEvent::LOAD, "MOD_CONFIG", false, true, false, false, "");
    assert!(p.reparse_args && p.set_default_cmd && !p.run_bin);
    let p = cmd_hook_plan(AppEvent::LOAD, "MOD_CONFIG", true, true, false, false, "");
    assert!(p.reparse_args && !p.set_default_cmd);
    let p = cmd_hook_plan(AppEvent::NOTIFY, "App::run", false, false, true, false, "t");
    assert!(!p.reparse_args && p.run_bin);
    let p = cmd_hook_plan(AppEvent::NOTIFY, "App::run", false, false, true, true, "t");
    assert!(!p.run_bin);
    let p = cmd_hook_plan(AppEvent::NOTIFY, "App::run", false, false, true, false, "");
    assert!(!p.run_bin);
}

#[test]
fn quiet_is_not_verbose() {
    let f = CmdFlags { force: true, debug: false, verbose: false, help: true, version: false };
    assert!(f.is_quiet() && f.is_force() && f.do_help() && !f.do_version() && !f.is_debug());
    let f = CmdFlags { verbose: true, ..f };
    assert!(!f.is_quiet() && f.is_verbose());
}
