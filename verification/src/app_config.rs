//! The application's own settings: its name and version, and where its
//! configuration, environment and PID files are.

use crate::handlers::MODS_STACK_LIMIT;
use crate::modules::cmd_mod::opt_view;
use crate::modules::ld_mod::{bool_text, bool_text_exec};
use crate::text::{append_chars, chars_of, decimal, decimal_exec, string_of};
use vstd::prelude::*;

verus! {

/// The application's settings.
#[derive(Debug)]
pub struct AppConfig {
    pub name: String,
    pub version: String,
    pub no_std: bool,
    pub config_file: String,
    pub env_file: Option<String>,
    pub pid_file: String,
}

/// What the environment says of the build and the run, as the settings
/// show it.
#[derive(Debug)]
pub struct EnvInfo {
    pub profile: String,
    pub env: String,
    pub is_prod: bool,
    pub is_dev: bool,
    pub is_test: bool,
    pub is_debug: bool,
    pub is_release: bool,
}

/// A value that is present and not empty.
pub open spec fn non_empty(o: Option<Seq<char>>) -> Option<Seq<char>> {
    match o {
        Some(s) => if s.len() > 0 {
            Some(s)
        } else {
            None
        },
        None => None,
    }
}

/// The first value, else the second.
pub open spec fn or_else(a: Option<Seq<char>>, b: Option<Seq<char>>) -> Option<Seq<char>> {
    match a {
        Some(s) => Some(s),
        None => b,
    }
}

/// The value, else the default.
pub open spec fn unwrap_or(a: Option<Seq<char>>, d: Seq<char>) -> Seq<char> {
    match a {
        Some(s) => s,
        None => d,
    }
}

/// A relative file name put under a directory: a name that is empty or
/// starts with `/` (or, where `dot_is_absolute`, with `.`) stays as it is.
pub open spec fn under_dir(path: Seq<char>, dir: Seq<char>, dot_is_absolute: bool) -> Seq<char> {
    if path.len() == 0 || path[0] == '/' || (dot_is_absolute && path[0] == '.') {
        path
    } else {
        dir + "/"@ + path
    }
}

/// A non-empty name whose first character is neither `/` nor (where dots
/// count as absolute) `.` goes under the directory, whatever else it holds:
/// slashes further on do not keep it where it is.
pub proof fn law_relative_name_goes_under_dir(path: Seq<char>, dir: Seq<char>, dot_is_absolute: bool)
    requires
        path.len() > 0,
        path[0] != '/',
        !(dot_is_absolute && path[0] == '.'),
    ensures
        under_dir(path, dir, dot_is_absolute) == dir + "/"@ + path,
        under_dir(path, dir, dot_is_absolute).len() == dir.len() + 1 + path.len(),
{
    reveal_strlit("/");
}

/// An empty name, or one that starts with `/` (or, where dots count as
/// absolute, with `.`), is left exactly as it is.
pub proof fn law_absolute_name_stays(path: Seq<char>, dir: Seq<char>, dot_is_absolute: bool)
    requires
        path.len() == 0 || path[0] == '/' || (dot_is_absolute && path[0] == '.'),
    ensures
        under_dir(path, dir, dot_is_absolute) == path,
{
}

/// The version text: `v<version> (<build time>)`.
pub open spec fn spec_version_text(version: Seq<char>, build_time: Seq<char>) -> Seq<char> {
    "v"@ + version + " ("@ + build_time + ")"@
}

/// The settings as `key=value` entries.
pub open spec fn spec_app_entries(
    c: (Seq<char>, Seq<char>, bool, Seq<char>, Option<Seq<char>>, Seq<char>),
    e: (Seq<char>, Seq<char>, bool, bool, bool, bool, bool),
) -> Seq<(Seq<char>, Seq<char>)> {
    seq![
        ("app.name"@, c.0),
        ("app.version"@, c.1),
        ("app.config_file"@, c.3),
        ("app.env_file"@, unwrap_or(c.4, Seq::empty())),
        ("app.pid_file"@, c.5),
        ("app.no_std"@, bool_text(c.2)),
        ("app.profile"@, e.0),
        ("app.mods_stack_limit"@, decimal(MODS_STACK_LIMIT as nat)),
        ("env.env"@, e.1),
        ("env.is_prod"@, bool_text(e.2)),
        ("env.is_dev"@, bool_text(e.3)),
        ("env.is_test"@, bool_text(e.4)),
        ("env.is_debug"@, bool_text(e.5)),
        ("env.is_release"@, bool_text(e.6)),
    ]
}

fn opt_is_non_empty(o: &Option<String>) -> (res: bool)
    ensures
        res == non_empty(opt_view(*o)) is Some,
{
    match o {
        Some(s) => s.as_str().unicode_len() > 0,
        None => false,
    }
}

fn concat3(a: &str, b: &str, c: &str) -> (res: String)
    ensures
        res@ == a@ + b@ + c@,
{
    let mut v = chars_of(a);
    append_chars(&mut v, &chars_of(b));
    append_chars(&mut v, &chars_of(c));
    string_of(&v)
}

fn put_under_dir(path: &str, dir: &str, dot_is_absolute: bool) -> (res: String)
    ensures
        res@ == under_dir(path@, dir@, dot_is_absolute),
{
    let p = chars_of(path);
    if p.len() == 0 || p[0] == '/' || (dot_is_absolute && p[0] == '.') {
        string_of(&p)
    } else {
        concat3(dir, "/", path)
    }
}

impl AppConfig {
    pub const OPT_VERSION: &'static str = "V:version";
    pub const OPT_HELP: &'static str = "h:help";
    pub const OPT_VERBOSE: &'static str = "v:verbose";
    pub const OPT_DEBUG: &'static str = "D:debug";
    pub const OPT_FORCE: &'static str = "f:force";
    pub const OPT_ENV_FILE: &'static str = "E:env-file";
    pub const OPT_CONFIG_FILE: &'static str = "C:config-file";
    pub const OPT_PID_FILE: &'static str = "P:pid-file";

    /// The default settings. The configuration file is `CONFIG_FILE` from
    /// the environment where it is set and not empty, else the one fixed
    /// at build time, else `app.ini`; the environment file likewise from
    /// `ENV_FILE` or the build, else none; the PID file `PID_FILE`, else
    /// the application's name with `.pid`.
    pub fn defaults(
        name: &str,
        version: &str,
        build_time: &str,
        no_std: bool,
        env_config_file: Option<String>,
        built_config_file: Option<String>,
        env_env_file: Option<String>,
        built_env_file: Option<String>,
        env_pid_file: Option<String>,
    ) -> (res: Self)
        ensures
            res.name@ == name@,
            res.version@ == spec_version_text(version@, build_time@),
            res.no_std == no_std,
            res.config_file@ == unwrap_or(
                or_else(non_empty(opt_view(env_config_file)), opt_view(built_config_file)),
                "app.ini"@,
            ),
            opt_view(res.env_file) == or_else(
                non_empty(opt_view(env_env_file)),
                opt_view(built_env_file),
            ),
            res.pid_file@ == unwrap_or(non_empty(opt_view(env_pid_file)), name@ + ".pid"@),
    {
        let mut ver = chars_of("v");
        append_chars(&mut ver, &chars_of(version));
        append_chars(&mut ver, &chars_of(" ("));
        append_chars(&mut ver, &chars_of(build_time));
        append_chars(&mut ver, &chars_of(")"));
        let config_file = if opt_is_non_empty(&env_config_file) {
            env_config_file.unwrap()
        } else {
            match built_config_file {
                Some(f) => f,
                None => string_of(&chars_of("app.ini")),
            }
        };
        let env_file = if opt_is_non_empty(&env_env_file) {
            env_env_file
        } else {
            built_env_file
        };
        let pid_file = if opt_is_non_empty(&env_pid_file) {
            env_pid_file.unwrap()
        } else {
            concat3(name, ".pid", "")
        };
        proof {
            assert(name@ + ".pid"@ + ""@ =~= name@ + ".pid"@) by {
                reveal_strlit("");
            }
        }
        AppConfig {
            name: string_of(&chars_of(name)),
            version: string_of(&ver),
            no_std,
            config_file,
            env_file,
            pid_file,
        }
    }

    /// The settings after the command line: a file given by an option
    /// replaces the default; then relative names are put under their
    /// directories: the configuration file under `config_dir`, the PID
    /// file under `run_dir` (both unless they start with `/` or `.`), the
    /// environment file under `data_dir` (unless it starts with `/`).
    pub fn resolve(
        self,
        opt_config_file: Option<String>,
        opt_env_file: Option<String>,
        opt_pid_file: Option<String>,
        config_dir: &str,
        run_dir: &str,
        data_dir: &str,
    ) -> (res: Self)
        ensures
            res.name == self.name,
            res.version == self.version,
            res.no_std == self.no_std,
            res.config_file@ == under_dir(
                unwrap_or(opt_view(opt_config_file), self.config_file@),
                config_dir@,
                true,
            ),
            res.pid_file@ == under_dir(
                unwrap_or(opt_view(opt_pid_file), self.pid_file@),
                run_dir@,
                true,
            ),
            opt_view(res.env_file) == match or_else(
                opt_view(opt_env_file),
                opt_view(self.env_file),
            ) {
                Some(f) => Some(under_dir(f, data_dir@, false)),
                None => None,
            },
    {
        let config_file = match opt_config_file {
            Some(f) => f,
            None => self.config_file,
        };
        let pid_file = match opt_pid_file {
            Some(f) => f,
            None => self.pid_file,
        };
        let env_file = match opt_env_file {
            Some(f) => Some(f),
            None => self.env_file,
        };
        let env_file = match env_file {
            Some(f) => Some(put_under_dir(f.as_str(), data_dir, false)),
            None => None,
        };
        AppConfig {
            name: self.name,
            version: self.version,
            no_std: self.no_std,
            config_file: put_under_dir(config_file.as_str(), config_dir, true),
            env_file,
            pid_file: put_under_dir(pid_file.as_str(), run_dir, true),
        }
    }

    /// The settings as `key=value` entries, with what the environment says.
    pub fn iter_config(&self, env: &EnvInfo) -> (res: Vec<(String, String)>)
        ensures
            res@.map_values(|p: (String, String)| (p.0@, p.1@)) == spec_app_entries(
                (
                    self.name@,
                    self.version@,
                    self.no_std,
                    self.config_file@,
                    opt_view(self.env_file),
                    self.pid_file@,
                ),
                (
                    env.profile@,
                    env.env@,
                    env.is_prod,
                    env.is_dev,
                    env.is_test,
                    env.is_debug,
                    env.is_release,
                ),
            ),
    {
        let mut res: Vec<(String, String)> = Vec::new();
        let env_file = match &self.env_file {
            Some(f) => string_of(&chars_of(f.as_str())),
            None => string_of(&chars_of("")),
        };
        res.push((string_of(&chars_of("app.name")), string_of(&chars_of(self.name.as_str()))));
        res.push(
            (string_of(&chars_of("app.version")), string_of(&chars_of(self.version.as_str()))),
        );
        res.push(
            (
                string_of(&chars_of("app.config_file")),
                string_of(&chars_of(self.config_file.as_str())),
            ),
        );
        res.push((string_of(&chars_of("app.env_file")), env_file));
        res.push(
            (string_of(&chars_of("app.pid_file")), string_of(&chars_of(self.pid_file.as_str()))),
        );
        res.push((string_of(&chars_of("app.no_std")), bool_text_exec(self.no_std)));
        res.push(
            (string_of(&chars_of("app.profile")), string_of(&chars_of(env.profile.as_str()))),
        );
        res.push(
            (
                string_of(&chars_of("app.mods_stack_limit")),
                string_of(&decimal_exec(MODS_STACK_LIMIT as u64)),
            ),
        );
        res.push((string_of(&chars_of("env.env")), string_of(&chars_of(env.env.as_str()))));
        res.push((string_of(&chars_of("env.is_prod")), bool_text_exec(env.is_prod)));
        res.push((string_of(&chars_of("env.is_dev")), bool_text_exec(env.is_dev)));
        res.push((string_of(&chars_of("env.is_test")), bool_text_exec(env.is_test)));
        res.push((string_of(&chars_of("env.is_debug")), bool_text_exec(env.is_debug)));
        res.push((string_of(&chars_of("env.is_release")), bool_text_exec(env.is_release)));
        proof {
            reveal_strlit("");
        }
        let ghost m = res@.map_values(|p: (String, String)| (p.0@, p.1@));
        let ghost t = spec_app_entries(
            (
                self.name@,
                self.version@,
                self.no_std,
                self.config_file@,
                opt_view(self.env_file),
                self.pid_file@,
            ),
            (
                env.profile@,
                env.env@,
                env.is_prod,
                env.is_dev,
                env.is_test,
                env.is_debug,
                env.is_release,
            ),
        );
        assert(m.len() == t.len());
        assert(m[0] == t[0]);
        assert(m[3] == t[3]);
        assert(m[5] == t[5]);
        assert(m[7] == t[7]);
        assert(m[13] == t[13]);
        assert(res@.map_values(|p: (String, String)| (p.0@, p.1@)) =~= spec_app_entries(
            (
                self.name@,
                self.version@,
                self.no_std,
                self.config_file@,
                opt_view(self.env_file),
                self.pid_file@,
            ),
            (
                env.profile@,
                env.env@,
                env.is_prod,
                env.is_dev,
                env.is_test,
                env.is_debug,
                env.is_release,
            ),
        ));
        res
    }
}

} // verus!
