//! The main module of the sample application: its settings, and what it
//! does on the notifies it handles.

use crate::app::NT_APP_RUN;
use crate::app_config::{or_else, unwrap_or};
use crate::modules::cmd_mod::opt_view;
use crate::modules::config_mod::NT_CONFIG_DISPLAY;
use crate::text::{chars_of, str_eq, string_of};
use vstd::prelude::*;

verus! {

/// The command that runs the main module.
pub const MAIN_COMMAND: &'static str = "main";

/// The settings of the main module.
#[derive(Debug)]
pub struct MainConfig {
    pub foo: Option<String>,
}

/// The settings as `key=value` entries.
pub open spec fn spec_main_entries(features: Seq<char>, foo: Option<Seq<char>>) -> Seq<
    (Seq<char>, Seq<char>),
> {
    seq![("app.features"@, features), ("main.foo"@, unwrap_or(foo, Seq::empty()))]
}

impl MainConfig {
    /// The default: `FOO` from the environment (even empty), else `World`.
    pub fn defaults(env_foo: Option<String>) -> (res: Self)
        ensures
            opt_view(res.foo) == Some(unwrap_or(opt_view(env_foo), "World"@)),
    {
        match env_foo {
            Some(f) => MainConfig { foo: Some(f) },
            None => MainConfig { foo: Some(string_of(&chars_of("World"))) },
        }
    }

    /// The settings after the command line: a `--foo` given replaces the
    /// value.
    pub fn with_option(self, opt_foo: Option<String>) -> (res: Self)
        ensures
            opt_view(res.foo) == or_else(opt_view(opt_foo), opt_view(self.foo)),
    {
        match opt_foo {
            Some(f) => MainConfig { foo: Some(f) },
            None => self,
        }
    }

    /// The settings as `key=value` entries, with the build's features.
    pub fn iter_config(&self, features: &str) -> (res: Vec<(String, String)>)
        ensures
            res@.map_values(|p: (String, String)| (p.0@, p.1@)) == spec_main_entries(
                features@,
                opt_view(self.foo),
            ),
    {
        let foo = match &self.foo {
            Some(f) => string_of(&chars_of(f.as_str())),
            None => string_of(&chars_of("")),
        };
        proof {
            reveal_strlit("");
        }
        let mut res: Vec<(String, String)> = Vec::new();
        res.push((string_of(&chars_of("app.features")), string_of(&chars_of(features))));
        res.push((string_of(&chars_of("main.foo")), foo));
        let ghost m = res@.map_values(|p: (String, String)| (p.0@, p.1@));
        assert(m[0] == spec_main_entries(features@, opt_view(self.foo))[0]);
        assert(m[1] == spec_main_entries(features@, opt_view(self.foo))[1]);
        assert(res@.map_values(|p: (String, String)| (p.0@, p.1@)) =~= spec_main_entries(
            features@,
            opt_view(self.foo),
        ));
        res
    }
}

/// What the main module does on a notify.
#[derive(Debug, Clone, Copy, PartialEq, Eq, Structural)]
pub struct MainNotifyPlan {
    /// Marks the event handled and starts the runtime, blocking on it.
    pub start_async: bool,
    /// Adds its settings to those shown.
    pub show_config: bool,
}

pub open spec fn spec_main_notify_plan(notify: Seq<char>, cmd: Seq<char>) -> MainNotifyPlan {
    MainNotifyPlan {
        start_async: notify == NT_APP_RUN@ && cmd == MAIN_COMMAND@,
        show_config: notify == NT_CONFIG_DISPLAY@,
    }
}

pub fn main_notify_plan(notify: &str, cmd: &str) -> (res: MainNotifyPlan)
    ensures
        res == spec_main_notify_plan(notify@, cmd@),
{
    MainNotifyPlan {
        start_async: str_eq(notify, NT_APP_RUN) && str_eq(cmd, MAIN_COMMAND),
        show_config: str_eq(notify, NT_CONFIG_DISPLAY),
    }
}

/// Whether the main module creates its directories at boot: not when
/// only help or the version is asked for.
pub fn creates_dirs(do_help: bool, do_version: bool) -> (res: bool)
    ensures
        res == (!do_help && !do_version),
{
    !do_help && !do_version
}

} // verus!
