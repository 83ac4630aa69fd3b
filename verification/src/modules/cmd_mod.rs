use crate::app::{AppError, NT_APP_RUN};
use crate::event::AppEvent;
use crate::text::{
    append_chars, chars_of, join, join_exec, str_eq, string_of, tokens, tokens_exec, views,
};
use vstd::prelude::*;

verus! {

/// The view of an optional string.
pub open spec fn opt_view(o: Option<String>) -> Option<Seq<char>> {
    match o {
        Some(s) => Some(s@),
        None => None,
    }
}

/// The views of strings.
pub open spec fn string_views(v: Seq<String>) -> Seq<Seq<char>> {
    v.map_values(|s: String| s@)
}

fn strings_of(v: &Vec<Vec<char>>) -> (res: Vec<String>)
    ensures
        string_views(res@) == views(v@),
{
    let mut res: Vec<String> = Vec::new();
    for i in 0..v.len()
        invariant
            string_views(res@) == views(v@).take(i as int),
    {
        let s = string_of(&v[i]);
        let ghost old_res = res@;
        res.push(s);
        assert(string_views(res@) =~= string_views(old_res).push(s@));
        assert(views(v@).take(i + 1) =~= views(v@).take(i as int).push(v@[i as int]@));
    }
    assert(views(v@).take(v.len() as int) =~= views(v@));
    res
}

fn chars_of_all(v: &Vec<String>) -> (res: Vec<Vec<char>>)
    ensures
        views(res@) == string_views(v@),
{
    let mut res: Vec<Vec<char>> = Vec::new();
    for i in 0..v.len()
        invariant
            views(res@) == string_views(v@).take(i as int),
    {
        let c = chars_of(v[i].as_str());
        let ghost old_res = res@;
        res.push(c);
        assert(views(res@) =~= views(old_res).push(c@));
        assert(string_views(v@).take(i + 1) =~= string_views(v@).take(i as int).push(v@[i as int]@));
    }
    assert(string_views(v@).take(v.len() as int) =~= string_views(v@));
    res
}

/// The strings joined with the separator.
pub fn strings_join(v: &Vec<String>, sep: &str) -> (res: String)
    ensures
        res@ == join(string_views(v@), sep@),
{
    let parts = chars_of_all(v);
    string_of(&join_exec(&parts, &chars_of(sep)))
}

/// The aliases of a command binary: a list of names.
#[derive(Debug)]
pub struct CmdAlias {
    pub names: Vec<String>,
}

impl CmdAlias {
    /// The names in a comma- or space-separated list; none for `None`.
    pub fn from_opt(value: Option<&str>) -> (res: Self)
        ensures
            string_views(res.names@) == tokens(
                match value {
                    Some(s) => s@,
                    None => Seq::empty(),
                },
                seq![',', ' '],
            ),
    {
        let text = match value {
            Some(s) => chars_of(s),
            None => Vec::new(),
        };
        let mut seps: Vec<char> = Vec::new();
        seps.push(',');
        seps.push(' ');
        assert(seps@ =~= seq![',', ' ']);
        let toks = tokens_exec(&text, &seps);
        proof {
            if value is None {
                assert(text@ =~= Seq::<char>::empty());
            }
        }
        CmdAlias { names: strings_of(&toks) }
    }

    /// The names joined with commas, as the alias is shown.
    pub fn to_text(&self) -> (res: String)
        ensures
            res@ == join(string_views(self.names@), ","@),
    {
        strings_join(&self.names, ",")
    }

    /// Whether the alias names the command.
    pub fn contains(&self, cmd: &str) -> (res: bool)
        ensures
            res == string_views(self.names@).contains(cmd@),
    {
        for i in 0..self.names.len()
            invariant
                forall|j: int| 0 <= j < i ==> self.names@[j]@ != cmd@,
        {
            if str_eq(self.names[i].as_str(), cmd) {
                assert(string_views(self.names@)[i as int] == cmd@);
                return true;
            }
        }
        proof {
            if string_views(self.names@).contains(cmd@) {
                let j = choose|j: int|
                    0 <= j < string_views(self.names@).len() && string_views(self.names@)[j] == cmd@;
                assert(self.names@[j]@ == cmd@);
            }
        }
        false
    }
}

/// The command module's settings: the default command, and the binaries
/// that run commands, each with its aliases.
#[derive(Debug)]
pub struct CmdConfig {
    pub default: Option<String>,
    pub bins: Vec<(String, CmdAlias)>,
}

/// The binaries, by name and alias names.
pub open spec fn bins_view(bins: Seq<(String, CmdAlias)>) -> Seq<(Seq<char>, Seq<Seq<char>>)> {
    bins.map_values(|b: (String, CmdAlias)| (b.0@, string_views(b.1.names@)))
}

/// The settings as `key=value` entries: the default command, then one
/// `cmd.bins` entry per binary.
pub open spec fn spec_cmd_config_entries(
    default: Option<Seq<char>>,
    bins: Seq<(Seq<char>, Seq<Seq<char>>)>,
) -> Seq<(Seq<char>, Seq<char>)> {
    seq![
        ("cmd.default"@, match default {
            Some(d) => d,
            None => Seq::empty(),
        }),
    ] + bins.map_values(
        |b: (Seq<char>, Seq<Seq<char>>)| ("cmd.bins"@, b.0 + "="@ + join(b.1, ","@)),
    )
}

/// The binary that runs the command: the last one with a non-empty name
/// whose aliases hold it.
pub open spec fn chosen_bin(bins: Seq<(Seq<char>, Seq<Seq<char>>)>, cmd: Seq<char>) -> Option<
    Seq<char>,
>
    decreases bins.len(),
{
    if bins.len() == 0 {
        None
    } else if bins.last().1.contains(cmd) && bins.last().0.len() > 0 {
        Some(bins.last().0)
    } else {
        chosen_bin(bins.drop_last(), cmd)
    }
}

/// The index of the first `--`, or -1.
pub open spec fn dash_dash_at(s: Seq<Seq<char>>, i: int) -> int
    decreases s.len() - i,
{
    if i < 0 || i >= s.len() {
        -1
    } else if s[i] == "--"@ {
        i
    } else {
        dash_dash_at(s, i + 1)
    }
}

/// `s` without the elements equal to `x`.
pub open spec fn drop_equal(s: Seq<Seq<char>>, x: Seq<char>) -> Seq<Seq<char>>
    decreases s.len(),
{
    if s.len() == 0 {
        s
    } else if s.last() == x {
        drop_equal(s.drop_last(), x)
    } else {
        drop_equal(s.drop_last(), x).push(s.last())
    }
}

/// The arguments handed to a command binary: those after the first `--`
/// when there is one; else all but the command itself. The program name
/// is not handed on.
pub open spec fn spec_bin_args(line: Seq<Seq<char>>, cmd: Seq<char>) -> Seq<Seq<char>> {
    let rest = if line.len() >= 1 {
        line.drop_first()
    } else {
        seq![]
    };
    let d = dash_dash_at(rest, 0);
    if d >= 0 {
        rest.subrange(d + 1, rest.len() as int)
    } else {
        drop_equal(rest, cmd)
    }
}

/// The path of the binary that runs the command.
pub open spec fn spec_bin_path(
    bin_dir: Seq<char>,
    exe_file: Seq<char>,
    bins: Seq<(Seq<char>, Seq<Seq<char>>)>,
    cmd: Seq<char>,
) -> Seq<char> {
    bin_dir + "/"@ + exe_file + "-"@ + match chosen_bin(bins, cmd) {
        Some(b) => b,
        None => cmd,
    }
}

/// A command binary to run, with its arguments.
#[derive(Debug)]
pub struct BinCmd {
    pub path: String,
    pub args: Vec<String>,
}

impl CmdConfig {
    /// The settings as `key=value` entries.
    pub fn iter_config(&self) -> (res: Vec<(String, String)>)
        ensures
            res@.map_values(|p: (String, String)| (p.0@, p.1@)) == spec_cmd_config_entries(
                opt_view(self.default),
                bins_view(self.bins@),
            ),
    {
        let ghost target = spec_cmd_config_entries(
            opt_view(self.default),
            bins_view(self.bins@),
        );
        let mut res: Vec<(String, String)> = Vec::new();
        let default = match &self.default {
            Some(d) => d.clone(),
            None => String::new(),
        };
        proof {
            reveal_strlit("cmd.default");
            reveal_strlit("cmd.bins");
            reveal_strlit("=");
            reveal_strlit(",");
        }
        res.push((string_of(&chars_of("cmd.default")), default));
        let eq = chars_of("=");
        for i in 0..self.bins.len()
            invariant
                target == spec_cmd_config_entries(
                    match self.default {
                        Some(d) => Some(d@),
                        None => None,
                    },
                    bins_view(self.bins@),
                ),
                eq@ == "="@,
                res@.map_values(|p: (String, String)| (p.0@, p.1@)) == target.take(i + 1),
        {
            let mut line = chars_of(self.bins[i].0.as_str());
            append_chars(&mut line, &eq);
            append_chars(&mut line, &chars_of(self.bins[i].1.to_text().as_str()));
            let key = string_of(&chars_of("cmd.bins"));
            let value = string_of(&line);
            let ghost old_res = res@;
            res.push((key, value));
            assert(res@.map_values(|p: (String, String)| (p.0@, p.1@)) =~= old_res.map_values(
                |p: (String, String)| (p.0@, p.1@),
            ).push((key@, value@)));
            assert(target[i + 1] == (key@, value@));
            assert(target.take(i + 2) =~= target.take(i + 1).push(target[i + 1]));
        }
        assert(target.take(self.bins.len() + 1) =~= target);
        res
    }

    /// The binary and the arguments that run the command, from the
    /// directory of binaries, the executable's file name and the command
    /// line; `None` when there is no command.
    pub fn resolve_bin_cmd(&self, cmd: &str, bin_dir: &str, exe_file: &str, args_line: &Vec<String>) -> (res: Option<BinCmd>)
        ensures
            cmd@.len() == 0 ==> res is None,
            cmd@.len() > 0 ==> res is Some && res->Some_0.path@ == spec_bin_path(
                bin_dir@,
                exe_file@,
                bins_view(self.bins@),
                cmd@,
            ) && string_views(res->Some_0.args@) == spec_bin_args(string_views(args_line@), cmd@),
    {
        if cmd.unicode_len() == 0 {
            return None;
        }
        let ghost bv = bins_view(self.bins@);
        let mut chosen: Option<usize> = None;
        for i in 0..self.bins.len()
            invariant
                bv == bins_view(self.bins@),
                match chosen {
                    Some(k) => k < i && chosen_bin(bv.take(i as int), cmd@) == Some(bv[k as int].0),
                    None => chosen_bin(bv.take(i as int), cmd@) is None,
                },
        {
            assert(bv.take(i + 1).drop_last() =~= bv.take(i as int));
            assert(bv.take(i + 1).last() == bv[i as int]);
            if self.bins[i].1.contains(cmd) && self.bins[i].0.unicode_len() > 0 {
                chosen = Some(i);
            }
        }
        assert(bv.take(self.bins.len() as int) =~= bv);
        let mut path = chars_of(bin_dir);
        append_chars(&mut path, &chars_of("/"));
        append_chars(&mut path, &chars_of(exe_file));
        append_chars(&mut path, &chars_of("-"));
        match chosen {
            Some(k) => append_chars(&mut path, &chars_of(self.bins[k].0.as_str())),
            None => append_chars(&mut path, &chars_of(cmd)),
        }
        let args = bin_args(args_line, cmd);
        Some(BinCmd { path: string_of(&path), args })
    }
}

/// The index of the first `--` from `i` on.
fn find_dash_dash(args_line: &Vec<String>, start: usize) -> (res: Option<usize>)
    requires
        start <= args_line.len(),
    ensures
        match res {
            Some(k) => start <= k < args_line.len() && dash_dash_at(
                string_views(args_line@),
                start as int,
            ) == k,
            None => dash_dash_at(string_views(args_line@), start as int) == -1,
        },
{
    let mut i = start;
    proof {
        reveal_strlit("--");
    }
    while i < args_line.len()
        invariant
            start <= i <= args_line.len(),
            dash_dash_at(string_views(args_line@), start as int) == dash_dash_at(
                string_views(args_line@),
                i as int,
            ),
        decreases args_line.len() - i,
    {
        assert(string_views(args_line@)[i as int] == args_line@[i as int]@);
        if str_eq(args_line[i].as_str(), "--") {
            return Some(i);
        }
        i += 1;
    }
    None
}

proof fn lemma_dash_dash_shift(line: Seq<Seq<char>>, start: int, i: int)
    requires
        0 <= start <= i <= line.len(),
    ensures
        dash_dash_at(line.subrange(start, line.len() as int), i - start) == if dash_dash_at(line, i)
            < 0 {
            -1
        } else {
            dash_dash_at(line, i) - start
        },
    decreases line.len() - i,
{
    if i < line.len() {
        lemma_dash_dash_shift(line, start, i + 1);
    }
}

proof fn lemma_drop_equal_is_filter(s: Seq<Seq<char>>, x: Seq<char>)
    ensures
        drop_equal(s, x) == s.filter(|a: Seq<char>| a != x),
    decreases s.len(),
{
    reveal(Seq::filter);
    if s.len() > 0 {
        lemma_drop_equal_is_filter(s.drop_last(), x);
    }
}

proof fn lemma_dash_dash_first(s: Seq<Seq<char>>, i: int, d: int)
    requires
        0 <= i <= d,
        forall|j: int| i <= j < d && j < s.len() ==> s[j] != "--"@,
        d >= s.len() || s[d] == "--"@,
    ensures
        dash_dash_at(s, i) == if d < s.len() {
            d
        } else {
            -1
        },
    decreases s.len() - i,
{
    if i < s.len() && i < d {
        lemma_dash_dash_first(s, i + 1, d);
    }
}

/// Without a `--` on the line, the binary gets exactly the arguments after
/// the program name that differ from the command, each one (options with
/// a leading `-` among them), in their order.
pub proof fn law_bin_args_without_dash_dash(line: Seq<Seq<char>>, cmd: Seq<char>)
    requires
        line.len() >= 1,
        forall|j: int| 1 <= j < line.len() ==> line[j] != "--"@,
    ensures
        spec_bin_args(line, cmd) == line.drop_first().filter(|a: Seq<char>| a != cmd),
        forall|j: int|
            1 <= j < line.len() && line[j] != cmd ==> #[trigger] spec_bin_args(line, cmd).contains(
                line[j],
            ),
{
    let rest = line.drop_first();
    assert forall|j: int| 0 <= j < rest.len() implies rest[j] != "--"@ by {
        assert(rest[j] == line[j + 1]);
    }
    lemma_dash_dash_first(rest, 0, rest.len() as int);
    lemma_drop_equal_is_filter(rest, cmd);
    assert forall|j: int| 1 <= j < line.len() && line[j] != cmd implies #[trigger] spec_bin_args(
        line,
        cmd,
    ).contains(line[j]) by {
        let pred = |a: Seq<char>| a != cmd;
        assert(rest[j - 1] == line[j]);
        rest.lemma_filter_contains(pred, j - 1);
    }
}

/// With a `--` on the line, the binary gets exactly what follows the first
/// one, whatever it holds.
pub proof fn law_bin_args_after_dash_dash(line: Seq<Seq<char>>, cmd: Seq<char>, d: int)
    requires
        1 <= d < line.len(),
        line[d] == "--"@,
        forall|j: int| 1 <= j < d ==> line[j] != "--"@,
    ensures
        spec_bin_args(line, cmd) == line.subrange(d + 1, line.len() as int),
{
    let rest = line.drop_first();
    assert(rest[d - 1] == line[d]);
    assert forall|j: int| 0 <= j < d - 1 && j < rest.len() implies rest[j] != "--"@ by {
        assert(rest[j] == line[j + 1]);
    }
    lemma_dash_dash_first(rest, 0, d - 1);
    assert(rest.subrange(d, rest.len() as int) =~= line.subrange(d + 1, line.len() as int));
}

/// The arguments handed to a command binary.
pub fn bin_args(args_line: &Vec<String>, cmd: &str) -> (res: Vec<String>)
    ensures
        string_views(res@) == spec_bin_args(string_views(args_line@), cmd@),
{
    let ghost line = string_views(args_line@);
    let ghost rest = if line.len() >= 1 {
        line.drop_first()
    } else {
        seq![]
    };
    let start: usize = if args_line.len() >= 1 {
        1
    } else {
        0
    };
    assert(rest =~= line.subrange(start as int, line.len() as int));
    proof {
        lemma_dash_dash_shift(line, start as int, start as int);
    }
    let d = find_dash_dash(args_line, start);
    let mut res: Vec<String> = Vec::new();
    match d {
        Some(k) => {
            let mut j = k + 1;
            while j < args_line.len()
                invariant
                    k + 1 <= j <= args_line.len(),
                    line == string_views(args_line@),
                    string_views(res@) == line.subrange(k + 1, j as int),
                decreases args_line.len() - j,
            {
                let a = args_line[j].clone();
                let ghost old_res = res@;
                res.push(a);
                assert(string_views(res@) =~= string_views(old_res).push(a@));
                assert(line.subrange(k + 1, j + 1) =~= line.subrange(k + 1, j as int).push(line[j as int]));
                j += 1;
            }
            assert(rest.subrange(k + 1 - start, rest.len() as int) =~= line.subrange(
                k + 1,
                line.len() as int,
            ));
        },
        None => {
            let mut j = start;
            while j < args_line.len()
                invariant
                    start <= j <= args_line.len(),
                    line == string_views(args_line@),
                    rest == line.subrange(start as int, line.len() as int),
                    string_views(res@) == drop_equal(rest.take(j - start), cmd@),
                decreases args_line.len() - j,
            {
                assert(rest.take(j + 1 - start).drop_last() =~= rest.take(j - start));
                assert(rest.take(j + 1 - start).last() == line[j as int]);
                if !str_eq(args_line[j].as_str(), cmd) {
                    let a = args_line[j].clone();
                    let ghost old_res = res@;
                    res.push(a);
                    assert(string_views(res@) =~= string_views(old_res).push(a@));
                }
                j += 1;
            }
            assert(rest.take(args_line.len() - start) =~= rest);
        },
    }
    res
}


// ---------------------------------------------------------------------
// What the command module does around loads and the run
// ---------------------------------------------------------------------

/// What the command module does on a hook.
#[derive(Debug, Clone, Copy, PartialEq, Eq, Structural)]
pub struct CmdHookPlan {
    /// Drops the parsed arguments, to parse them again.
    pub reparse_args: bool,
    /// Sets the default command from the configuration.
    pub set_default_cmd: bool,
    /// Marks the run handled and runs the command's executable.
    pub run_bin: bool,
}

/// On every load the arguments are parsed again; after the configuration
/// module is loaded, the default command is set if none is; after a run
/// that nothing handled, with a command given, its executable runs.
pub open spec fn spec_cmd_hook_plan(
    event: AppEvent,
    notify: Seq<char>,
    is_pre_hook: bool,
    sender_is_config: bool,
    has_default_cmd: bool,
    handled: bool,
    cmd: Seq<char>,
) -> CmdHookPlan {
    CmdHookPlan {
        reparse_args: event == AppEvent::LOAD,
        set_default_cmd: event == AppEvent::LOAD && !is_pre_hook && sender_is_config
            && !has_default_cmd,
        run_bin: notify == NT_APP_RUN@ && !is_pre_hook && !handled && cmd.len() > 0,
    }
}

pub fn cmd_hook_plan(
    event: AppEvent,
    notify: &str,
    is_pre_hook: bool,
    sender_is_config: bool,
    has_default_cmd: bool,
    handled: bool,
    cmd: &str,
) -> (res: CmdHookPlan)
    ensures
        res == spec_cmd_hook_plan(
            event,
            notify@,
            is_pre_hook,
            sender_is_config,
            has_default_cmd,
            handled,
            cmd@,
        ),
{
    let load = event == AppEvent::LOAD;
    CmdHookPlan {
        reparse_args: load,
        set_default_cmd: load && !is_pre_hook && sender_is_config && !has_default_cmd,
        run_bin: str_eq(notify, NT_APP_RUN) && !is_pre_hook && !handled && cmd.unicode_len()
            > 0,
    }
}


/// The error when no executable runs the command.
pub fn invalid_command(cmd: &str) -> (res: AppError)
    ensures
        res.message@ == "Invalid command: "@ + cmd@,
{
    let mut m = chars_of("Invalid command: ");
    append_chars(&mut m, &chars_of(cmd));
    AppError { message: string_of(&m) }
}

/// The error when the command's executable fails.
pub fn failed_execution(bin: &str) -> (res: AppError)
    ensures
        res.message@ == "Failed execution: "@ + bin@,
{
    let mut m = chars_of("Failed execution: ");
    append_chars(&mut m, &chars_of(bin));
    AppError { message: string_of(&m) }
}

/// The kernel's flags on the command line.
#[derive(Debug, Clone, Copy, PartialEq, Eq, Structural)]
pub struct CmdFlags {
    pub force: bool,
    pub debug: bool,
    pub verbose: bool,
    pub help: bool,
    pub version: bool,
}

impl CmdFlags {
    pub fn is_force(&self) -> (res: bool)
        ensures
            res == self.force,
    {
        self.force
    }

    pub fn is_debug(&self) -> (res: bool)
        ensures
            res == self.debug,
    {
        self.debug
    }

    pub fn is_verbose(&self) -> (res: bool)
        ensures
            res == self.verbose,
    {
        self.verbose
    }

    /// Quiet is the absence of `--verbose`.
    pub fn is_quiet(&self) -> (res: bool)
        ensures
            res == !self.verbose,
    {
        !self.verbose
    }

    pub fn do_help(&self) -> (res: bool)
        ensures
            res == self.help,
    {
        self.help
    }

    pub fn do_version(&self) -> (res: bool)
        ensures
            res == self.version,
    {
        self.version
    }
}

} // verus!
