use app_kernel::modules::help_mod::{
    help_hook_plan, help_not_found, help_notify, render_help, HelpContext, HelpMod, HelpShow,
    NT_CMD_HELP, NT_CMD_VERSION,
};

const HELP: &str = "#HELP:\nUsage: {bin} <cmd>\n{commands}\n#HELP: run, r\nRun things {cmd}\n#HELP: run fast\nFast run {x}\n";

fn context() -> HelpContext {
    let mut c = HelpContext::new();
    c.commands.push(("run".to_string(), "Run it".to_string()));
    c.commands.push(("stop".to_string(), "Halt".to_string()));
    c.params.push(("{x}".to_string(), "X".to_string()));
    c
}

#[test]
fn general_help_lists_commands() {
    let out = render_help(HELP, "", "", "app", "App", "v1", &context());
    assert!(out.found);
    assert_eq!(out.text, "Usage: app <cmd>\n    run  - Run it\n    stop - Halt");
}

#[test]
fn command_section_is_found() {
    let out = render_help(HELP, "run", "", "app", "App", "v1", &context());
    assert!(out.found);
    assert_eq!(out.text, "Run things run");
    let out = render_help(HELP, "r", "", "app", "App", "v1", &context());
    assert_eq!(out.text, "Run things r");
}

#[test]
fn subcommand_section_wins() {
    let out = render_help(HELP, "run", "fast", "app", "App", "v1", &context());
    assert!(out.found);
    assert_eq!(out.text, "Fast run X");
}

#[test]
fn unknown_command_falls_back_to_general_help() {
    let out = render_help(HELP, "zzz", "", "app", "App", "v1", &context());
    assert!(!out.found);
    assert_eq!(out.text, "Usage: app <cmd>\n    run  - Run it\n    stop - Halt");
    assert_eq!(help_not_found("zzz").message, "Help not found for command: zzz");
}

/// The built-in help text, as written before it is compressed.
const PLAIN: &str = r#"#HELP:
Usage: {bin} [command] [options]

Commands:
{commands}

Options:
  -h, --help                 Show this help
  -V, --version              Show the version
  -v, --verbose              Verbose output
  -D, --debug                Debug output
  -f, --force                Force the command
  -E, --env-file=FILE        The environment file
  -C, --config-file=FILE     The configuration file
  -P, --pid-file=FILE        The PID file
  -L, --ld-lib=LIBS          Libraries to load
  -M, --ld-mod=MODULES       Modules to load
  -N, --ld-no                Load no library

{name} {version}
#HELP: c, config
Usage: {bin} {cmd} [options] [filter]

Shows the settings, or those of them that hold the filter.

Options:
  -c, --config               The settings from the configuration files
  -a, --arguments            The parsed command line
  -A, --application          The state of the application
  -m, --module-meta=MODULES  The metadata of the modules
"#;

#[test]
fn show_help_decodes_built_in_text() {
    let c = context();
    let out = HelpMod::show_help("config", "", "app", "App", "v1", &c).unwrap();
    assert!(out.found);
    assert!(out.text.starts_with("Usage: app config [options] [filter]\n\nShows the settings"));
    let plain = render_help(PLAIN, "config", "", "app", "App", "v1", &c);
    assert_eq!(out.text, plain.text);
}

#[test]
fn show_help_general_and_unknown() {
    let c = context();
    let out = HelpMod::show_help("", "", "app", "App", "v1", &c).unwrap();
    assert!(out.found);
    assert!(out.text.starts_with("Usage: app [command] [options]\n\nCommands:\n    run  - Run it\n    stop - Halt\n"));
    assert!(out.text.ends_with("App v1"));
    let out = HelpMod::show_help("zzz", "", "app", "App", "v1", &c).unwrap();
    assert!(!out.found);
    assert_eq!(out.text, render_help(PLAIN, "", "", "app", "App", "v1", &c).text);
}

#[test]
fn version_line() {
    assert_eq!(HelpMod::show_version("app", "v1 (t)", true), "app v1 (t) [no_std]");
    assert_eq!(HelpMod::show_version("app", "v1 (t)", false), "app v1 (t) ");
}

#[test]
fn help_hook_before_and_after_run() {
    let p = help_hook_plan("App::run", true, true, true, false);
    assert!(p.add_help_handler && p.mark_handled);
    assert_eq!(p.show, HelpShow::Version);
    let p = help_hook_plan("App::run", true, false, true, false);
    assert_eq!(p.show, HelpShow::Help);
    let p = help_hook_plan("App::run", true, false, false, false);
    assert!(p.add_help_handler && !p.mark_handled);
    assert_eq!(p.show, HelpShow::Nothing);
    assert_eq!(help_hook_plan("App::run", false, false, false, false).show, HelpShow::Help);
    assert_eq!(help_hook_plan("App::run", false, false, false, true).show, HelpShow::Nothing);
    assert_eq!(help_hook_plan("other", true, true, true, false).show, HelpShow::Nothing);
}

#[test]
fn help_notifies() {
    assert_eq!(help_notify(NT_CMD_VERSION), HelpShow::Version);
    assert_eq!(help_notify(NT_CMD_HELP), HelpShow::Help);
    assert_eq!(help_notify("x"), HelpShow::Nothing);
}
