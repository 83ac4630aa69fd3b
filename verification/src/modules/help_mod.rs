use crate::app::{AppError, NT_APP_RUN};
use crate::modules::help_data::{HELP_TEXT, HELP_TEXT_LEN};
use crate::text::{
    append_chars, chars_of, str_eq, find_from, find_from_exec, lemma_find_from, replace, replace_exec,
    slice_of, split, split_exec, string_of, trim, trim_chars, trim_end, trim_end_chars, views,
};
use compression::prelude::DecodeExt;
use vstd::prelude::*;
use vstd::utf8::{decode_utf8, encode_utf8, valid_utf8};

verus! {

/// The notify that shows the help.
pub const NT_CMD_HELP: &'static str = "Cmd::help";

/// The notify that shows the version.
pub const NT_CMD_VERSION: &'static str = "Cmd::version";

/// What other modules add to the help: commands with their descriptions,
/// and `{name}` placeholders with their values.
#[derive(Debug)]
pub struct HelpContext {
    pub commands: Vec<(String, String)>,
    pub params: Vec<(String, String)>,
}

impl HelpContext {
    pub fn new() -> (res: Self)
        ensures
            res.commands@.len() == 0,
            res.params@.len() == 0,
    {
        HelpContext { commands: Vec::new(), params: Vec::new() }
    }
}

/// The shown help, and whether a section for the command was found.
#[derive(Debug)]
pub struct HelpOutput {
    pub text: String,
    pub found: bool,
}

/// The views of pairs of strings.
pub open spec fn pair_views(v: Seq<(String, String)>) -> Seq<(Seq<char>, Seq<char>)> {
    v.map_values(|p: (String, String)| (p.0@, p.1@))
}

/// Where a help section's first line ends.
pub open spec fn newline_at(s: Seq<char>) -> int {
    let f = find_from(s, seq!['\n'], 0);
    if f < 0 {
        s.len() as int
    } else {
        f
    }
}

/// The non-empty pieces, each trimmed.
pub open spec fn nonempty_trimmed(ps: Seq<Seq<char>>) -> Seq<Seq<char>>
    decreases ps.len(),
{
    if ps.len() == 0 {
        seq![]
    } else if ps.last().len() > 0 {
        nonempty_trimmed(ps.drop_last()).push(trim(ps.last()))
    } else {
        nonempty_trimmed(ps.drop_last())
    }
}

/// The names a section is for: its first line, trimmed, split at commas;
/// each non-empty piece trimmed.
pub open spec fn section_names(s: Seq<char>) -> Seq<Seq<char>> {
    nonempty_trimmed(split(trim(s.subrange(0, newline_at(s))), seq![',']))
}

/// The text of a section: what follows its first line, trimmed.
pub open spec fn section_item(s: Seq<char>) -> Seq<char> {
    trim(s.subrange(newline_at(s), s.len() as int))
}

/// One section's names checked against the command: a name equal to the
/// command selects the section unless one was found; a name equal to the
/// command with its subcommand selects it and ends the search.
pub open spec fn names_scan(
    names: Seq<Seq<char>>,
    j: int,
    cmd: Seq<char>,
    full: Seq<char>,
    item: Seq<char>,
    fs: Seq<char>,
    f: bool,
) -> (Seq<char>, bool, bool)
    decreases names.len() - j,
{
    if j < 0 || j >= names.len() {
        (fs, f, false)
    } else {
        let name = names[j];
        let fs1 = if name == cmd && !f {
            item
        } else {
            fs
        };
        let f1 = if name == cmd && !f {
            true
        } else {
            f
        };
        if name == full {
            (item, true, true)
        } else {
            names_scan(names, j + 1, cmd, full, item, fs1, f1)
        }
    }
}

/// The sections from `i` on, searched for the command: a section without
/// names is the general help, found at once when there is no command.
pub open spec fn sections_scan(
    secs: Seq<Seq<char>>,
    i: int,
    cmd: Seq<char>,
    full: Seq<char>,
    fs: Seq<char>,
    f: bool,
) -> (Seq<char>, bool)
    decreases secs.len() - i,
{
    if i < 0 || i >= secs.len() {
        (fs, f)
    } else {
        let s = secs[i];
        if trim(s).len() == 0 {
            sections_scan(secs, i + 1, cmd, full, fs, f)
        } else {
            let item = section_item(s);
            let names = section_names(s);
            if names.len() == 0 && !f {
                if cmd.len() == 0 {
                    (item, true)
                } else {
                    sections_scan(secs, i + 1, cmd, full, item, f)
                }
            } else {
                let (fs2, f2, stop) = names_scan(names, 0, cmd, full, item, fs, f);
                if stop {
                    (fs2, f2)
                } else {
                    sections_scan(secs, i + 1, cmd, full, fs2, f2)
                }
            }
        }
    }
}

/// The command with its subcommand, as help sections name them.
pub open spec fn cmd_and_sub(cmd: Seq<char>, sub: Seq<char>) -> Seq<char> {
    if cmd.len() == 0 {
        seq![]
    } else if sub.len() == 0 {
        cmd
    } else {
        cmd + seq![' '] + sub
    }
}

/// The help section for the command, and whether one was found: the
/// text is split at `#HELP:` into sections.
pub open spec fn help_lookup(text: Seq<char>, cmd: Seq<char>, sub: Seq<char>) -> (Seq<char>, bool) {
    sections_scan(split(text, "#HELP:"@), 0, cmd, cmd_and_sub(cmd, sub), seq![], false)
}

proof fn lemma_names_scan_found(
    names: Seq<Seq<char>>,
    j: int,
    cmd: Seq<char>,
    full: Seq<char>,
    item: Seq<char>,
    fs: Seq<char>,
    f: bool,
)
    requires
        0 <= j,
    ensures
        f ==> names_scan(names, j, cmd, full, item, fs, f).1,
        names_scan(names, j, cmd, full, item, fs, f).2 ==> names_scan(
            names,
            j,
            cmd,
            full,
            item,
            fs,
            f,
        ).1,
        (exists|m: int| j <= m < names.len() && names[m] == cmd) ==> names_scan(
            names,
            j,
            cmd,
            full,
            item,
            fs,
            f,
        ).1,
    decreases names.len() - j,
{
    if j < names.len() {
        let name = names[j];
        let fs1 = if name == cmd && !f {
            item
        } else {
            fs
        };
        let f1 = if name == cmd && !f {
            true
        } else {
            f
        };
        lemma_names_scan_found(names, j + 1, cmd, full, item, fs1, f1);
        if exists|m: int| j <= m < names.len() && names[m] == cmd {
            let m = choose|m: int| j <= m < names.len() && names[m] == cmd;
            if m > j {
                assert(exists|m2: int| j + 1 <= m2 < names.len() && names[m2] == cmd);
            }
        }
    }
}

proof fn lemma_sections_scan_found(
    secs: Seq<Seq<char>>,
    i: int,
    cmd: Seq<char>,
    full: Seq<char>,
    fs: Seq<char>,
    f: bool,
)
    requires
        0 <= i,
        cmd.len() > 0,
        f || exists|k: int|
            i <= k < secs.len() && trim(#[trigger] secs[k]).len() > 0 && section_names(
                secs[k],
            ).contains(cmd),
    ensures
        sections_scan(secs, i, cmd, full, fs, f).1,
    decreases secs.len() - i,
{
    if i < secs.len() {
        let s = secs[i];
        let later = exists|k: int|
            i + 1 <= k < secs.len() && trim(#[trigger] secs[k]).len() > 0 && section_names(
                secs[k],
            ).contains(cmd);
        let here = trim(s).len() > 0 && section_names(s).contains(cmd);
        assert(f || here || later) by {
            if !f {
                let k = choose|k: int|
                    i <= k < secs.len() && trim(#[trigger] secs[k]).len() > 0 && section_names(
                        secs[k],
                    ).contains(cmd);
                if k > i {
                    assert(i + 1 <= k < secs.len() && trim(secs[k]).len() > 0 && section_names(
                        secs[k],
                    ).contains(cmd));
                }
            }
        }
        if trim(s).len() == 0 {
            lemma_sections_scan_found(secs, i + 1, cmd, full, fs, f);
        } else {
            let item = section_item(s);
            let names = section_names(s);
            if names.len() == 0 && !f {
                lemma_sections_scan_found(secs, i + 1, cmd, full, item, f);
            } else {
                lemma_names_scan_found(names, 0, cmd, full, item, fs, f);
                if here {
                    let m = choose|m: int| 0 <= m < names.len() && names[m] == cmd;
                    assert(exists|m2: int| 0 <= m2 < names.len() && names[m2] == cmd);
                }
                let (fs2, f2, stop) = names_scan(names, 0, cmd, full, item, fs, f);
                if !stop {
                    lemma_sections_scan_found(secs, i + 1, cmd, full, fs2, f2);
                }
            }
        }
    }
}

/// When a help section (one that is not blank) names the command itself,
/// the lookup finds help, whatever the subcommand: a section named for the
/// command with its subcommand is preferred, but its absence is no failure.
pub proof fn law_named_command_is_found(text: Seq<char>, cmd: Seq<char>, sub: Seq<char>, k: int)
    requires
        cmd.len() > 0,
        0 <= k < split(text, "#HELP:"@).len(),
        trim(split(text, "#HELP:"@)[k]).len() > 0,
        section_names(split(text, "#HELP:"@)[k]).contains(cmd),
    ensures
        help_lookup(text, cmd, sub).1,
{
    let secs = split(text, "#HELP:"@);
    assert(0 <= k < secs.len() && trim(secs[k]).len() > 0 && section_names(secs[k]).contains(cmd));
    lemma_sections_scan_found(secs, 0, cmd, cmd_and_sub(cmd, sub), seq![], false);
}

/// A section that is not blank and names `name`.
pub open spec fn section_names_it(s: Seq<char>, name: Seq<char>) -> bool {
    trim(s).len() > 0 && section_names(s).contains(name)
}

proof fn lemma_names_scan_none(
    names: Seq<Seq<char>>,
    j: int,
    cmd: Seq<char>,
    full: Seq<char>,
    item: Seq<char>,
    fs: Seq<char>,
    f: bool,
)
    requires
        0 <= j,
        !names.contains(full),
        !f ==> !names.contains(cmd),
    ensures
        names_scan(names, j, cmd, full, item, fs, f) == (fs, f, false),
    decreases names.len() - j,
{
    if j < names.len() {
        assert(names[j] != full);
        assert(!f ==> names[j] != cmd);
        lemma_names_scan_none(names, j + 1, cmd, full, item, fs, f);
    }
}

proof fn lemma_names_scan_first(
    names: Seq<Seq<char>>,
    j: int,
    cmd: Seq<char>,
    full: Seq<char>,
    item: Seq<char>,
    fs: Seq<char>,
)
    requires
        0 <= j,
        exists|m: int| j <= m < names.len() && names[m] == cmd,
        full == cmd || !names.contains(full),
    ensures
        names_scan(names, j, cmd, full, item, fs, false).0 == item,
        names_scan(names, j, cmd, full, item, fs, false).1,
        full == cmd ==> names_scan(names, j, cmd, full, item, fs, false).2,
    decreases names.len() - j,
{
    let name = names[j];
    if name == cmd {
        if name != full {
            lemma_names_scan_none(names, j + 1, cmd, full, item, item, true);
        }
    } else {
        assert(name != full);
        let m = choose|m: int| j <= m < names.len() && names[m] == cmd;
        assert(j + 1 <= m);
        lemma_names_scan_first(names, j + 1, cmd, full, item, fs);
    }
}

proof fn lemma_sections_scan_after(
    secs: Seq<Seq<char>>,
    i: int,
    cmd: Seq<char>,
    full: Seq<char>,
    fs: Seq<char>,
)
    requires
        0 <= i,
        forall|j: int| i <= j < secs.len() ==> !section_names_it(#[trigger] secs[j], full),
    ensures
        sections_scan(secs, i, cmd, full, fs, true) == (fs, true),
    decreases secs.len() - i,
{
    if i < secs.len() {
        let s = secs[i];
        assert(!section_names_it(secs[i], full));
        if trim(s).len() > 0 {
            lemma_names_scan_none(section_names(s), 0, cmd, full, section_item(s), fs, true);
        }
        lemma_sections_scan_after(secs, i + 1, cmd, full, fs);
    }
}

proof fn lemma_sections_scan_first(
    secs: Seq<Seq<char>>,
    i: int,
    k: int,
    cmd: Seq<char>,
    full: Seq<char>,
    fs: Seq<char>,
)
    requires
        0 <= i <= k < secs.len(),
        cmd.len() > 0,
        section_names_it(secs[k], cmd),
        forall|j: int| i <= j < k ==> !section_names_it(#[trigger] secs[j], cmd),
        full == cmd || forall|j: int|
            0 <= j < secs.len() ==> !section_names_it(#[trigger] secs[j], full),
    ensures
        sections_scan(secs, i, cmd, full, fs, false) == (section_item(secs[k]), true),
    decreases k - i,
{
    let s = secs[i];
    let item = section_item(s);
    let names = section_names(s);
    if i == k {
        let m = choose|m: int| 0 <= m < names.len() && names[m] == cmd;
        if full != cmd {
            assert(!section_names_it(secs[i], full));
        }
        lemma_names_scan_first(names, 0, cmd, full, item, fs);
        let (fs2, f2, stop) = names_scan(names, 0, cmd, full, item, fs, false);
        if !stop {
            lemma_sections_scan_after(secs, i + 1, cmd, full, fs2);
        }
    } else {
        assert(!section_names_it(secs[i], cmd));
        if trim(s).len() == 0 {
            lemma_sections_scan_first(secs, i + 1, k, cmd, full, fs);
        } else if names.len() == 0 {
            lemma_sections_scan_first(secs, i + 1, k, cmd, full, item);
        } else {
            if full != cmd {
                assert(!section_names_it(secs[i], full));
            }
            lemma_names_scan_none(names, 0, cmd, full, item, fs, false);
            lemma_sections_scan_first(secs, i + 1, k, cmd, full, fs);
        }
    }
}

/// Where no section is named for the command with its subcommand (or there
/// is no subcommand), the help shown is the text of the first section that
/// names the command, and help is found.
pub proof fn law_first_named_section_is_shown(
    text: Seq<char>,
    cmd: Seq<char>,
    sub: Seq<char>,
    k: int,
)
    requires
        cmd.len() > 0,
        0 <= k < split(text, "#HELP:"@).len(),
        section_names_it(split(text, "#HELP:"@)[k], cmd),
        forall|j: int| 0 <= j < k ==> !section_names_it(#[trigger] split(text, "#HELP:"@)[j], cmd),
        sub.len() == 0 || forall|j: int|
            0 <= j < split(text, "#HELP:"@).len() ==> !section_names_it(
                #[trigger] split(text, "#HELP:"@)[j],
                cmd + seq![' '] + sub,
            ),
    ensures
        help_lookup(text, cmd, sub) == (section_item(split(text, "#HELP:"@)[k]), true),
{
    let secs = split(text, "#HELP:"@);
    lemma_sections_scan_first(secs, 0, k, cmd, cmd_and_sub(cmd, sub), seq![]);
}

/// The length of a string in UTF-8 bytes.
pub open spec fn byte_len(s: Seq<char>) -> usize {
    encode_utf8(s).len() as usize
}

/// The longest byte length of the commands.
pub open spec fn max_command_len(cs: Seq<(Seq<char>, Seq<char>)>) -> usize
    decreases cs.len(),
{
    if cs.len() == 0 {
        0
    } else {
        let m = max_command_len(cs.drop_last());
        let l = byte_len(cs.last().0);
        if l > m {
            l
        } else {
            m
        }
    }
}

/// `s` with spaces after it up to `width` characters.
pub open spec fn pad_right(s: Seq<char>, width: nat) -> Seq<char> {
    if s.len() >= width {
        s
    } else {
        s + Seq::new((width - s.len()) as nat, |i: int| ' ')
    }
}

/// One line per command: four spaces, the command padded, ` - `, the
/// description.
pub open spec fn command_lines(cs: Seq<(Seq<char>, Seq<char>)>, width: nat) -> Seq<char>
    decreases cs.len(),
{
    if cs.len() == 0 {
        seq![]
    } else {
        command_lines(cs.drop_last(), width) + "    "@ + pad_right(cs.last().0, width) + " - "@
            + cs.last().1 + seq!['\n']
    }
}

/// The placeholders replaced in order, each one everywhere.
pub open spec fn replace_params(s: Seq<char>, ps: Seq<(Seq<char>, Seq<char>)>) -> Seq<char>
    decreases ps.len(),
{
    if ps.len() == 0 {
        s
    } else {
        replace(replace_params(s, ps.drop_last()), ps.last().0, ps.last().1)
    }
}

/// The placeholders that every help text may hold.
pub open spec fn fixed_params(
    bin: Seq<char>,
    name: Seq<char>,
    version: Seq<char>,
    cmd: Seq<char>,
    sub: Seq<char>,
    commands: Seq<(Seq<char>, Seq<char>)>,
) -> Seq<(Seq<char>, Seq<char>)> {
    seq![
        ("{bin}"@, bin),
        ("{name}"@, name),
        ("{version}"@, version),
        ("{cmd}"@, cmd),
        ("{sub_cmd}"@, sub),
        ("{commands}"@, trim_end(command_lines(commands, max_command_len(commands) as nat))),
    ]
}

/// The shown help for the command.
pub open spec fn spec_render_help(
    text: Seq<char>,
    cmd: Seq<char>,
    sub: Seq<char>,
    bin: Seq<char>,
    name: Seq<char>,
    version: Seq<char>,
    commands: Seq<(Seq<char>, Seq<char>)>,
    params: Seq<(Seq<char>, Seq<char>)>,
) -> Seq<char> {
    replace_params(
        replace_params(help_lookup(text, cmd, sub).0, fixed_params(bin, name, version, cmd, sub, commands)),
        params,
    )
}

proof fn lemma_newline_at(s: Seq<char>)
    ensures
        0 <= newline_at(s) <= s.len(),
{
    lemma_find_from(s, seq!['\n'], 0);
}

fn newline_at_exec(s: &Vec<char>) -> (res: usize)
    ensures
        res == newline_at(s@),
{
    let mut nl: Vec<char> = Vec::new();
    nl.push('\n');
    assert(nl@ =~= seq!['\n']);
    match find_from_exec(s, &nl, 0) {
        Some(i) => i,
        None => s.len(),
    }
}

fn section_names_exec(s: &Vec<char>) -> (res: Vec<Vec<char>>)
    ensures
        views(res@) == section_names(s@),
{
    let end = newline_at_exec(s);
    proof {
        lemma_newline_at(s@);
    }
    let header = trim_chars(&slice_of(s, 0, end));
    let mut comma: Vec<char> = Vec::new();
    comma.push(',');
    assert(comma@ =~= seq![',']);
    let pieces = split_exec(&header, &comma);
    let mut res: Vec<Vec<char>> = Vec::new();
    for k in 0..pieces.len()
        invariant
            views(res@) == nonempty_trimmed(views(pieces@).take(k as int)),
    {
        let ghost t = views(pieces@).take(k + 1);
        assert(t.drop_last() =~= views(pieces@).take(k as int));
        assert(t.last() == pieces@[k as int]@);
        if pieces[k].len() > 0 {
            let ghost old_res = res@;
            let name = trim_chars(&pieces[k]);
            res.push(name);
            assert(views(res@) =~= views(old_res).push(name@));
        }
    }
    assert(views(pieces@).take(pieces.len() as int) =~= views(pieces@));
    res
}

fn names_scan_exec(
    names: &Vec<Vec<char>>,
    cmd: &Vec<char>,
    full: &Vec<char>,
    item: &Vec<char>,
    found_text: Vec<char>,
    found: bool,
) -> (res: (Vec<char>, bool, bool))
    ensures
        (res.0@, res.1, res.2) == names_scan(views(names@), 0, cmd@, full@, item@, found_text@, found),
{
    let ghost fs0 = found_text@;
    let ghost f0 = found;
    let mut fs = found_text;
    let mut f = found;
    let ghost target = names_scan(views(names@), 0, cmd@, full@, item@, fs@, f);
    for j in 0..names.len()
        invariant
            target == names_scan(views(names@), 0, cmd@, full@, item@, fs0, f0),
            fs0 == found_text@,
            f0 == found,
            target == names_scan(views(names@), j as int, cmd@, full@, item@, fs@, f),
    {
        let name = &names[j];
        assert(views(names@)[j as int] == name@);
        let ghost before = (fs@, f);
        let is_full = vec_eq(name, full);
        if vec_eq(name, cmd) && !f {
            fs = item.clone();
            assert(fs@ =~= item@);
            f = true;
        }
        if is_full {
            assert(views(names@)[j as int] == full@);
            assert(names_scan(views(names@), j as int, cmd@, full@, item@, before.0, before.1) == (item@, true, true));
            assert(target == names_scan(views(names@), j as int, cmd@, full@, item@, before.0, before.1));
            assert(target == (item@, true, true));
            let r = item.clone();
            assert(r@ =~= item@);
            return (r, true, true);
        }
    }
    (fs, f, false)
}

/// Whether two character vectors are equal.
pub fn vec_eq(a: &Vec<char>, b: &Vec<char>) -> (res: bool)
    ensures
        res == (a@ == b@),
{
    if a.len() != b.len() {
        return false;
    }
    for i in 0..a.len()
        invariant
            a.len() == b.len(),
            forall|j: int| 0 <= j < i ==> a@[j] == b@[j],
    {
        if a[i] != b[i] {
            return false;
        }
    }
    assert(a@ =~= b@);
    true
}

fn cmd_and_sub_exec(cmd: &Vec<char>, sub: &Vec<char>) -> (res: Vec<char>)
    ensures
        res@ == cmd_and_sub(cmd@, sub@),
{
    if cmd.len() == 0 {
        let v: Vec<char> = Vec::new();
        assert(v@ =~= seq![]);
        v
    } else if sub.len() == 0 {
        cmd.clone()
    } else {
        let mut v = cmd.clone();
        v.push(' ');
        append_chars(&mut v, sub);
        assert(v@ =~= cmd@ + seq![' '] + sub@);
        v
    }
}

/// The help section for the command.
pub fn help_lookup_exec(text: &Vec<char>, cmd: &Vec<char>, sub: &Vec<char>) -> (res: (Vec<char>, bool))
    ensures
        (res.0@, res.1) == help_lookup(text@, cmd@, sub@),
{
    let full = cmd_and_sub_exec(cmd, sub);
    let id = chars_of("#HELP:");
    proof {
        reveal_strlit("#HELP:");
    }
    let secs = split_exec(text, &id);
    let ghost target = help_lookup(text@, cmd@, sub@);
    let mut fs: Vec<char> = Vec::new();
    let mut f = false;
    assert(fs@ =~= seq![]);
    for i in 0..secs.len()
        invariant
            target == help_lookup(text@, cmd@, sub@),
            target == sections_scan(views(secs@), i as int, cmd@, full@, fs@, f),
    {
        let s = &secs[i];
        assert(views(secs@)[i as int] == s@);
        if trim_chars(s).len() == 0 {
        } else {
            let end = newline_at_exec(s);
            proof {
                lemma_newline_at(s@);
            }
            let item = trim_chars(&slice_of(s, end, s.len()));
            let names = section_names_exec(s);
            if names.len() == 0 && !f {
                if cmd.len() == 0 {
                    return (item, true);
                }
                fs = item;
            } else {
                let (fs2, f2, stop) = names_scan_exec(&names, cmd, &full, &item, fs, f);
                if stop {
                    return (fs2, f2);
                }
                fs = fs2;
                f = f2;
            }
        }
    }
    (fs, f)
}


fn pad_right_exec(s: &Vec<char>, width: usize) -> (res: Vec<char>)
    ensures
        res@ == pad_right(s@, width as nat),
{
    let mut v = s.clone();
    assert(v@ =~= s@);
    if s.len() >= width {
        return v;
    }
    let mut k = s.len();
    while k < width
        invariant
            s.len() <= k <= width,
            v@ == s@ + Seq::new((k - s.len()) as nat, |i: int| ' '),
        decreases width - k,
    {
        v.push(' ');
        assert(v@ =~= s@ + Seq::new((k + 1 - s.len()) as nat, |i: int| ' '));
        k += 1;
    }
    v
}

/// The byte length of a string.
fn byte_len_exec(s: &String) -> (res: usize)
    ensures
        res == byte_len(s@),
{
    s.as_str().len()
}

fn command_lines_exec(cs: &Vec<(String, String)>) -> (res: Vec<char>)
    ensures
        res@ == command_lines(pair_views(cs@), max_command_len(pair_views(cs@)) as nat),
{
    let ghost pv = pair_views(cs@);
    let mut width: usize = 0;
    for k in 0..cs.len()
        invariant
            pv == pair_views(cs@),
            width == max_command_len(pv.take(k as int)),
    {
        assert(pv.take(k + 1).drop_last() =~= pv.take(k as int));
        let l = byte_len_exec(&cs[k].0);
        if l > width {
            width = l;
        }
    }
    assert(pv.take(cs.len() as int) =~= pv);
    let four = chars_of("    ");
    let dash = chars_of(" - ");
    let mut out: Vec<char> = Vec::new();
    for k in 0..cs.len()
        invariant
            pv == pair_views(cs@),
            width == max_command_len(pv),
            four@ == "    "@,
            dash@ == " - "@,
            out@ == command_lines(pv.take(k as int), width as nat),
    {
        assert(pv.take(k + 1).drop_last() =~= pv.take(k as int));
        let ghost before = out@;
        let cmd = chars_of(cs[k].0.as_str());
        let desc = chars_of(cs[k].1.as_str());
        append_chars(&mut out, &four);
        append_chars(&mut out, &pad_right_exec(&cmd, width));
        append_chars(&mut out, &dash);
        append_chars(&mut out, &desc);
        out.push('\n');
        assert(out@ =~= command_lines(pv.take(k + 1), width as nat));
    }
    assert(pv.take(cs.len() as int) =~= pv);
    out
}

fn replace_params_exec(s: Vec<char>, ps: &Vec<(Vec<char>, Vec<char>)>) -> (res: Vec<char>)
    ensures
        res@ == replace_params(s@, ps@.map_values(|p: (Vec<char>, Vec<char>)| (p.0@, p.1@))),
{
    let ghost pv = ps@.map_values(|p: (Vec<char>, Vec<char>)| (p.0@, p.1@));
    let ghost s0 = s@;
    let mut cur = s;
    for k in 0..ps.len()
        invariant
            pv == ps@.map_values(|p: (Vec<char>, Vec<char>)| (p.0@, p.1@)),
            cur@ == replace_params(s0, pv.take(k as int)),
    {
        assert(pv.take(k + 1).drop_last() =~= pv.take(k as int));
        cur = replace_exec(&cur, &ps[k].0, &ps[k].1);
    }
    assert(pv.take(ps.len() as int) =~= pv);
    cur
}

/// The help for the command, from the decoded help text: the section
/// found, with its placeholders replaced by the values given, then by the
/// context's parameters.
pub fn render_help(
    text: &str,
    cmd: &str,
    sub_cmd: &str,
    bin: &str,
    name: &str,
    version: &str,
    context: &HelpContext,
) -> (res: HelpOutput)
    ensures
        res.text@ == spec_render_help(
            text@,
            cmd@,
            sub_cmd@,
            bin@,
            name@,
            version@,
            pair_views(context.commands@),
            pair_views(context.params@),
        ),
        res.found == help_lookup(text@, cmd@, sub_cmd@).1,
{
    let t = chars_of(text);
    let c = chars_of(cmd);
    let s = chars_of(sub_cmd);
    let (found_str, found) = help_lookup_exec(&t, &c, &s);
    let lines = command_lines_exec(&context.commands);
    let commands = trim_end_chars(&lines);
    let mut fixed: Vec<(Vec<char>, Vec<char>)> = Vec::new();
    fixed.push((chars_of("{bin}"), chars_of(bin)));
    fixed.push((chars_of("{name}"), chars_of(name)));
    fixed.push((chars_of("{version}"), chars_of(version)));
    fixed.push((chars_of("{cmd}"), c));
    fixed.push((chars_of("{sub_cmd}"), s));
    fixed.push((chars_of("{commands}"), commands));
    assert(fixed@.map_values(|p: (Vec<char>, Vec<char>)| (p.0@, p.1@)) =~= fixed_params(
        bin@,
        name@,
        version@,
        cmd@,
        sub_cmd@,
        pair_views(context.commands@),
    ));
    let help = replace_params_exec(found_str, &fixed);
    let mut extra: Vec<(Vec<char>, Vec<char>)> = Vec::new();
    for k in 0..context.params.len()
        invariant
            extra@.map_values(|p: (Vec<char>, Vec<char>)| (p.0@, p.1@)) == pair_views(
                context.params@,
            ).take(k as int),
    {
        let ghost before = extra@;
        let key = chars_of(context.params[k].0.as_str());
        let value = chars_of(context.params[k].1.as_str());
        assert(pair_views(context.params@)[k as int] == (key@, value@));
        extra.push((key, value));
        assert(pair_views(context.params@).take(k + 1) =~= pair_views(context.params@).take(k as int).push((key@, value@)));
        assert(extra@.map_values(|p: (Vec<char>, Vec<char>)| (p.0@, p.1@)) =~= pair_views(
            context.params@,
        ).take(k + 1));
    }
    assert(pair_views(context.params@).take(context.params.len() as int) =~= pair_views(
        context.params@,
    ));
    let help = replace_params_exec(help, &extra);
    HelpOutput { text: string_of(&help), found }
}

/// The error for a command without a help section.
pub fn help_not_found(cmd: &str) -> (res: AppError)
    ensures
        res.message@ == "Help not found for command: "@ + cmd@,
{
    let mut m = chars_of("Help not found for command: ");
    append_chars(&mut m, &chars_of(cmd));
    AppError { message: string_of(&m) }
}


/// What zlib decoding gives for the bytes: the data, or the text of the
/// error.
pub uninterp spec fn zlib_decoded(data: Seq<u8>) -> Result<Seq<u8>, Seq<char>>;

/// The text of the error that `String::from_utf8` gives for bytes that are
/// not UTF-8.
pub uninterp spec fn utf8_error_text(bytes: Seq<u8>) -> Seq<char>;

/// Decodes zlib data with `compression`'s `ZlibDecoder`: the decoded bytes,
/// or the `Display` text of the first `CompressionError`. What it decodes
/// is named, not stated: the result depends on the bytes alone. Only the
/// built-in help text is admitted: the decoder panics on some malformed
/// streams (a block of type 3, a length code of 286 or 287), which that
/// text, a valid zlib stream, does not hold.
#[verifier::external_body]
fn zlib_decode(data: &[u8; HELP_TEXT_LEN]) -> (res: Result<Vec<u8>, String>)
    requires
        data@ == HELP_TEXT@,
    ensures
        match zlib_decoded(data@) {
            Ok(v) => res is Ok && res->Ok_0@ == v,
            Err(e) => res is Err && res->Err_0@ == e,
        },
{
    data.to_vec().decode(&mut compression::prelude::ZlibDecoder::new()).collect::<Result<
        Vec<u8>,
        compression::prelude::CompressionError,
    >>().map_err(|e| e.to_string())
}

/// `String::from_utf8`: the string that the bytes encode when they are
/// UTF-8; else the text of its error.
#[verifier::external_body]
fn string_from_utf8(bytes: Vec<u8>) -> (res: Result<String, String>)
    ensures
        valid_utf8(bytes@) ==> res is Ok && res->Ok_0@ == decode_utf8(bytes@),
        !valid_utf8(bytes@) ==> res is Err && res->Err_0@ == utf8_error_text(bytes@),
{
    String::from_utf8(bytes).map_err(|e| e.to_string())
}

/// The version line: name, version, and `[no_std]` for a build without std.
pub open spec fn spec_version_line(name: Seq<char>, version: Seq<char>, no_std: bool) -> Seq<char> {
    name + " "@ + version + " "@ + if no_std {
        "[no_std]"@
    } else {
        Seq::empty()
    }
}

/// The help module: what it shows for `--help` and `--version`.
#[derive(Debug)]
pub struct HelpMod;

impl HelpMod {
    /// The help for the command, from the built-in zlib-compressed help
    /// text: the text is decoded, then read as UTF-8, then rendered.
    pub fn show_help(
        cmd: &str,
        sub_cmd: &str,
        bin: &str,
        name: &str,
        version: &str,
        context: &HelpContext,
    ) -> (res: Result<HelpOutput, AppError>)
        ensures
            match zlib_decoded(HELP_TEXT@) {
                Err(e) => res is Err && res->Err_0.message@ == e,
                Ok(bytes) => if !valid_utf8(bytes) {
                    res is Err && res->Err_0.message@ == utf8_error_text(bytes)
                } else {
                    res is Ok && res->Ok_0.found == help_lookup(decode_utf8(bytes), cmd@, sub_cmd@).1
                        && res->Ok_0.text@ == spec_render_help(
                        decode_utf8(bytes),
                        cmd@,
                        sub_cmd@,
                        bin@,
                        name@,
                        version@,
                        pair_views(context.commands@),
                        pair_views(context.params@),
                    )
                },
            },
    {
        let bytes = match zlib_decode(&HELP_TEXT) {
            Ok(b) => b,
            Err(e) => {
                return Err(AppError { message: e });
            },
        };
        let text = match string_from_utf8(bytes) {
            Ok(t) => t,
            Err(e) => {
                return Err(AppError { message: e });
            },
        };
        Ok(render_help(text.as_str(), cmd, sub_cmd, bin, name, version, context))
    }

    /// The version line that `--version` prints.
    pub fn show_version(name: &str, version: &str, no_std: bool) -> (res: String)
        ensures
            res@ == spec_version_line(name@, version@, no_std),
    {
        let mut v = chars_of(name);
        let sp = chars_of(" ");
        append_chars(&mut v, &sp);
        append_chars(&mut v, &chars_of(version));
        append_chars(&mut v, &sp);
        if no_std {
            append_chars(&mut v, &chars_of("[no_std]"));
        }
        assert(!no_std ==> v@ =~= spec_version_line(name@, version@, no_std));
        string_of(&v)
    }
}

// ---------------------------------------------------------------------
// When help and version are shown
// ---------------------------------------------------------------------

/// What the help module shows.
#[derive(Debug, Clone, Copy, PartialEq, Eq, Structural)]
pub enum HelpShow {
    Nothing,
    Version,
    Help,
}

/// What the help module does around the run of the application.
#[derive(Debug, Clone, Copy, PartialEq, Eq, Structural)]
pub struct HelpHookPlan {
    /// Registers itself, last, as a handler of the help notify.
    pub add_help_handler: bool,
    /// Marks the run and the hook handled, so that nothing else runs.
    pub mark_handled: bool,
    /// What it sends to be shown.
    pub show: HelpShow,
}

/// Before the run: the version when asked, else the help when asked, and
/// the run stops there; after a run that nothing handled: the help.
pub open spec fn spec_help_hook_plan(
    notify: Seq<char>,
    is_pre_hook: bool,
    do_version: bool,
    do_help: bool,
    handled: bool,
) -> HelpHookPlan {
    if notify == NT_APP_RUN@ && is_pre_hook {
        if do_version {
            HelpHookPlan { add_help_handler: true, mark_handled: true, show: HelpShow::Version }
        } else if do_help {
            HelpHookPlan { add_help_handler: true, mark_handled: true, show: HelpShow::Help }
        } else {
            HelpHookPlan { add_help_handler: true, mark_handled: false, show: HelpShow::Nothing }
        }
    } else if notify == NT_APP_RUN@ && !handled {
        HelpHookPlan { add_help_handler: false, mark_handled: false, show: HelpShow::Help }
    } else {
        HelpHookPlan { add_help_handler: false, mark_handled: false, show: HelpShow::Nothing }
    }
}

pub fn help_hook_plan(
    notify: &str,
    is_pre_hook: bool,
    do_version: bool,
    do_help: bool,
    handled: bool,
) -> (res: HelpHookPlan)
    ensures
        res == spec_help_hook_plan(notify@, is_pre_hook, do_version, do_help, handled),
{
    let run = str_eq(notify, NT_APP_RUN);
    if run && is_pre_hook {
        if do_version {
            HelpHookPlan { add_help_handler: true, mark_handled: true, show: HelpShow::Version }
        } else if do_help {
            HelpHookPlan { add_help_handler: true, mark_handled: true, show: HelpShow::Help }
        } else {
            HelpHookPlan { add_help_handler: true, mark_handled: false, show: HelpShow::Nothing }
        }
    } else if run && !handled {
        HelpHookPlan { add_help_handler: false, mark_handled: false, show: HelpShow::Help }
    } else {
        HelpHookPlan { add_help_handler: false, mark_handled: false, show: HelpShow::Nothing }
    }
}

/// What the help module shows on a notify (and marks it handled): the
/// version on its notify, the help on its own.
pub open spec fn spec_help_notify(notify: Seq<char>) -> HelpShow {
    if notify == NT_CMD_VERSION@ {
        HelpShow::Version
    } else if notify == NT_CMD_HELP@ {
        HelpShow::Help
    } else {
        HelpShow::Nothing
    }
}

pub fn help_notify(notify: &str) -> (res: HelpShow)
    ensures
        res == spec_help_notify(notify@),
{
    if str_eq(notify, NT_CMD_VERSION) {
        HelpShow::Version
    } else if str_eq(notify, NT_CMD_HELP) {
        HelpShow::Help
    } else {
        HelpShow::Nothing
    }
}

} // verus!