use crate::app::{AppError, NT_APP_RUN, NT_APP_SHUTDOWN};
use crate::app_module_meta::{spec_name_short, AppModuleMeta};
use crate::modules::ld_mod::entry_views;
use crate::modules::help_mod::{byte_len, vec_eq};
use crate::text::{lower_chars, str_eq, upper_chars};
use crate::text::{
    append_chars, chars_of, contains, contains_exec, join, join_exec, lemma_find_from, lines,
    lines_exec, matches_at, slice_of, starts_with, starts_with_exec, string_of, to_lower, to_upper,
    trim, trim_chars, views,
};
use vstd::prelude::*;
use vstd::relations::{sorted_by, total_ordering};

verus! {

broadcast use vstd::seq_lib::group_to_multiset_ensures;

/// The notify that collects the settings to show.
pub const NT_CONFIG_DISPLAY: &'static str = "Config::config_display";

// ---------------------------------------------------------------------
// The order of strings
// ---------------------------------------------------------------------

/// `a` comes strictly before `b`: the order of `String`, character by
/// character, a prefix first.
pub open spec fn lex_lt(a: Seq<char>, b: Seq<char>) -> bool
    decreases a.len(),
{
    if a.len() == 0 {
        b.len() > 0
    } else if b.len() == 0 {
        false
    } else if a[0] != b[0] {
        a[0] < b[0]
    } else {
        lex_lt(a.drop_first(), b.drop_first())
    }
}

pub open spec fn lex_le(a: Seq<char>, b: Seq<char>) -> bool {
    a == b || lex_lt(a, b)
}

/// The order in which settings are shown.
pub open spec fn text_le() -> spec_fn(Seq<char>, Seq<char>) -> bool {
    |a: Seq<char>, b: Seq<char>| lex_le(a, b)
}

proof fn lemma_lex_asymmetric(a: Seq<char>, b: Seq<char>)
    ensures
        lex_lt(a, b) ==> !lex_lt(b, a),
    decreases a.len(),
{
    if a.len() > 0 && b.len() > 0 && a[0] == b[0] {
        lemma_lex_asymmetric(a.drop_first(), b.drop_first());
    }
}

proof fn lemma_lex_transitive(a: Seq<char>, b: Seq<char>, c: Seq<char>)
    ensures
        lex_lt(a, b) && lex_lt(b, c) ==> lex_lt(a, c),
    decreases a.len(),
{
    if a.len() > 0 && b.len() > 0 && c.len() > 0 {
        lemma_lex_transitive(a.drop_first(), b.drop_first(), c.drop_first());
    }
}

proof fn lemma_lex_total(a: Seq<char>, b: Seq<char>)
    ensures
        a == b || lex_lt(a, b) || lex_lt(b, a),
    decreases a.len(),
{
    if a.len() == 0 && b.len() == 0 {
        assert(a =~= b);
    } else if a.len() > 0 && b.len() > 0 && a[0] == b[0] {
        lemma_lex_total(a.drop_first(), b.drop_first());
        if a.drop_first() == b.drop_first() {
            assert(a.drop_first().len() == b.drop_first().len());
            assert(a.len() == b.len());
            assert forall|k: int| 0 <= k < a.len() implies a[k] == b[k] by {
                if k > 0 {
                    assert(a[k] == a.drop_first()[k - 1]);
                    assert(b[k] == b.drop_first()[k - 1]);
                }
            }
            assert(a =~= b);
        }
    }
}

/// The order in which settings are shown is a total order.
pub proof fn lemma_text_le_total()
    ensures
        total_ordering(text_le()),
{
    let le = text_le();
    assert forall|x: Seq<char>| #[trigger] le(x, x) by {}
    assert forall|x: Seq<char>, y: Seq<char>| #[trigger] le(x, y) && #[trigger] le(y, x) implies x
        == y by {
        lemma_lex_asymmetric(x, y);
    }
    assert forall|x: Seq<char>, y: Seq<char>, z: Seq<char>| #[trigger] le(x, y) && #[trigger] le(
        y,
        z,
    ) implies le(x, z) by {
        lemma_lex_transitive(x, y, z);
    }
    assert forall|x: Seq<char>, y: Seq<char>| #[trigger] le(x, y) || #[trigger] le(y, x) by {
        lemma_lex_total(x, y);
    }
}

/// Whether `a` comes strictly before `b`.
pub fn lex_lt_exec(a: &Vec<char>, b: &Vec<char>) -> (res: bool)
    ensures
        res == lex_lt(a@, b@),
{
    let mut i: usize = 0;
    assert(a@.subrange(0, a.len() as int) =~= a@);
    assert(b@.subrange(0, b.len() as int) =~= b@);
    loop
        invariant
            i <= a.len(),
            i <= b.len(),
            lex_lt(a@, b@) == lex_lt(
                a@.subrange(i as int, a.len() as int),
                b@.subrange(i as int, b.len() as int),
            ),
        decreases a.len() - i,
    {
        if i == a.len() {
            return i < b.len();
        }
        if i == b.len() {
            return false;
        }
        if a[i] != b[i] {
            return a[i] < b[i];
        }
        assert(a@.subrange(i as int, a.len() as int).drop_first() =~= a@.subrange(
            i + 1,
            a.len() as int,
        ));
        assert(b@.subrange(i as int, b.len() as int).drop_first() =~= b@.subrange(
            i + 1,
            b.len() as int,
        ));
        i += 1;
    }
}

/// The texts in order: `[String]::sort`.
pub fn sort_texts(v: &Vec<Vec<char>>) -> (res: Vec<Vec<char>>)
    ensures
        views(res@) == views(v@).sort_by(text_le()),
{
    proof {
        lemma_text_le_total();
    }
    let ghost le = text_le();
    let mut r: Vec<Vec<char>> = Vec::new();
    for i in 0..v.len()
        invariant
            le == text_le(),
            total_ordering(le),
            sorted_by(views(r@), le),
            views(r@).to_multiset() == views(v@).take(i as int).to_multiset(),
    {
        let x = v[i].clone();
        assert(x@ =~= v@[i as int]@);
        let mut pos: usize = 0;
        while pos < r.len() && !lex_lt_exec(&x, &r[pos])
            invariant
                pos <= r.len(),
                forall|k: int| 0 <= k < pos ==> !lex_lt(x@, #[trigger] r@[k]@),
            decreases r.len() - pos,
        {
            pos += 1;
        }
        let ghost rv = views(r@);
        proof {
            assert forall|k: int| 0 <= k < pos implies le(#[trigger] rv[k], x@) by {
                assert(rv[k] == r@[k]@);
                lemma_lex_total(rv[k], x@);
            }
            assert forall|k: int| pos <= k < rv.len() implies lex_lt(x@, #[trigger] rv[k]) by {
                assert(rv[pos as int] == r@[pos as int]@);
                if k > pos {
                    assert(le(rv[pos as int], rv[k]));
                    lemma_lex_transitive(x@, rv[pos as int], rv[k]);
                }
            }
        }
        r.insert(pos, x);
        proof {
            let nv = views(r@);
            assert(nv =~= rv.insert(pos as int, x@));
            assert(sorted_by(nv, le)) by {
                assert forall|a: int, b: int| 0 <= a < b < nv.len() implies #[trigger] le(nv[a], nv[b]) by {
                    if a < pos && b < pos {
                        assert(nv[a] == rv[a] && nv[b] == rv[b]);
                    } else if a < pos && b == pos {
                        assert(nv[a] == rv[a]);
                    } else if a < pos {
                        assert(nv[a] == rv[a] && nv[b] == rv[b - 1]);
                        assert(le(rv[a], x@));
                        assert(lex_lt(x@, rv[b - 1]));
                        if rv[a] != x@ {
                            lemma_lex_transitive(rv[a], x@, rv[b - 1]);
                        }
                    } else if a == pos {
                        assert(nv[b] == rv[b - 1]);
                    } else {
                        assert(nv[a] == rv[a - 1] && nv[b] == rv[b - 1]);
                    }
                }
            }
            assert(views(v@).take(i + 1) =~= views(v@).take(i as int).push(x@));
        }
    }
    proof {
        assert(views(v@).take(v.len() as int) =~= views(v@));
        views(v@).lemma_sort_by_ensures(le);
        vstd::seq_lib::lemma_sorted_unique(views(r@), views(v@).sort_by(le), le);
    }
    r
}


// ---------------------------------------------------------------------
// Showing the settings
// ---------------------------------------------------------------------

/// How a setting is shown: `key=value`, or the value alone for an empty key.
pub open spec fn entry_line(k: Seq<char>, v: Seq<char>) -> Seq<char> {
    if k.len() == 0 {
        v
    } else {
        k + "="@ + v
    }
}

/// Each line with a newline after it.
pub open spec fn lines_text(ls: Seq<Seq<char>>) -> Seq<char>
    decreases ls.len(),
{
    if ls.len() == 0 {
        seq![]
    } else {
        lines_text(ls.drop_last()) + ls.last() + seq!['\n']
    }
}

/// The settings as shown: one line per setting, in order.
pub open spec fn display_text(es: Seq<(Seq<char>, Seq<char>)>) -> Seq<char> {
    lines_text(
        es.map_values(|e: (Seq<char>, Seq<char>)| entry_line(e.0, e.1)).sort_by(text_le()),
    )
}

/// The lines of the shown settings.
pub open spec fn display_lines(es: Seq<(Seq<char>, Seq<char>)>) -> Seq<Seq<char>> {
    es.map_values(|e: (Seq<char>, Seq<char>)| entry_line(e.0, e.1)).sort_by(text_le())
}

/// The settings are shown one line per entry, each line once for each
/// entry that gives it, in the order of strings.
pub proof fn law_display_sorted(es: Seq<(Seq<char>, Seq<char>)>)
    ensures
        display_text(es) == lines_text(display_lines(es)),
        sorted_by(display_lines(es), text_le()),
        display_lines(es).to_multiset() == es.map_values(
            |e: (Seq<char>, Seq<char>)| entry_line(e.0, e.1),
        ).to_multiset(),
{
    lemma_text_le_total();
    es.map_values(|e: (Seq<char>, Seq<char>)| entry_line(e.0, e.1)).lemma_sort_by_ensures(text_le());
}

/// The settings that the modules hand in to be shown.
#[derive(Debug)]
pub struct ConfigDisplay {
    pub entries: Vec<(String, String)>,
}

impl ConfigDisplay {
    pub fn new() -> (res: Self)
        ensures
            res.entries@.len() == 0,
    {
        ConfigDisplay { entries: Vec::new() }
    }

    /// Adds the `key=value` entries of a configuration.
    pub fn push(&mut self, entries: Vec<(String, String)>)
        ensures
            entry_views(final(self).entries@) == entry_views(old(self).entries@) + entry_views(
                entries@,
            ),
    {
        let mut entries = entries;
        let ghost added = entry_views(entries@);
        let ghost before = entry_views(self.entries@);
        self.entries.append(&mut entries);
        assert(entry_views(self.entries@) =~= before + added);
    }

    /// The settings as shown.
    pub fn to_text(&self) -> (res: String)
        ensures
            res@ == display_text(entry_views(self.entries@)),
    {
        let ghost es = entry_views(self.entries@);
        let ghost ls = es.map_values(|e: (Seq<char>, Seq<char>)| entry_line(e.0, e.1));
        let mut lines: Vec<Vec<char>> = Vec::new();
        for i in 0..self.entries.len()
            invariant
                es == entry_views(self.entries@),
                ls == es.map_values(|e: (Seq<char>, Seq<char>)| entry_line(e.0, e.1)),
                views(lines@) == ls.take(i as int),
        {
            let k = chars_of(self.entries[i].0.as_str());
            let mut line = k.clone();
            assert(line@ =~= k@);
            if k.len() == 0 {
                line = chars_of(self.entries[i].1.as_str());
            } else {
                append_chars(&mut line, &chars_of("="));
                append_chars(&mut line, &chars_of(self.entries[i].1.as_str()));
            }
            assert(line@ == ls[i as int]);
            let ghost old_lines = lines@;
            lines.push(line);
            assert(views(lines@) =~= views(old_lines).push(line@));
            assert(ls.take(i + 1) =~= ls.take(i as int).push(ls[i as int]));
        }
        assert(ls.take(self.entries.len() as int) =~= ls);
        let sorted = sort_texts(&lines);
        let ghost sv = views(sorted@);
        let mut out: Vec<char> = Vec::new();
        for i in 0..sorted.len()
            invariant
                sv == views(sorted@),
                out@ == lines_text(sv.take(i as int)),
        {
            assert(sv.take(i + 1).drop_last() =~= sv.take(i as int));
            assert(sv[i as int] == sorted@[i as int]@);
            append_chars(&mut out, &sorted[i]);
            out.push('\n');
        }
        assert(sv.take(sorted.len() as int) =~= sv);
        string_of(&out)
    }
}

/// The lines that hold `f`.
pub open spec fn lines_containing(ls: Seq<Seq<char>>, f: Seq<char>) -> Seq<Seq<char>>
    decreases ls.len(),
{
    if ls.len() == 0 {
        ls
    } else if contains(ls.last(), f) {
        lines_containing(ls.drop_last(), f).push(ls.last())
    } else {
        lines_containing(ls.drop_last(), f)
    }
}

/// `f` occurs somewhere in `l`, at its start or anywhere after.
pub open spec fn occurs_in(l: Seq<char>, f: Seq<char>) -> bool {
    exists|i: int| matches_at(l, f, i)
}

proof fn lemma_contains_occurs(l: Seq<char>, f: Seq<char>)
    ensures
        contains(l, f) <==> occurs_in(l, f),
{
    lemma_find_from(l, f, 0);
    if contains(l, f) {
        assert(matches_at(l, f, crate::text::find_from(l, f, 0)));
    }
}

/// The filter keeps a line exactly when the filter occurs in it anywhere,
/// not only at its start, and keeps the lines in their order.
pub proof fn law_lines_kept_hold_filter(ls: Seq<Seq<char>>, f: Seq<char>)
    ensures
        lines_containing(ls, f) == ls.filter(|l: Seq<char>| occurs_in(l, f)),
        forall|k: int|
            0 <= k < ls.len() && occurs_in(ls[k], f) ==> #[trigger] lines_containing(
                ls,
                f,
            ).contains(ls[k]),
        forall|k: int|
            0 <= k < lines_containing(ls, f).len() ==> occurs_in(
                #[trigger] lines_containing(ls, f)[k],
                f,
            ),
    decreases ls.len(),
{
    reveal(Seq::filter);
    let pred = |l: Seq<char>| occurs_in(l, f);
    if ls.len() > 0 {
        law_lines_kept_hold_filter(ls.drop_last(), f);
        lemma_contains_occurs(ls.last(), f);
    }
    assert forall|k: int| 0 <= k < ls.len() && occurs_in(ls[k], f) implies #[trigger] lines_containing(
        ls,
        f,
    ).contains(ls[k]) by {
        ls.lemma_filter_contains(pred, k);
    }
    assert forall|k: int| 0 <= k < lines_containing(ls, f).len() implies occurs_in(
        #[trigger] lines_containing(ls, f)[k],
        f,
    ) by {
        ls.lemma_filter_pred(pred, k);
    }
}

/// The filtered list is the trimmed list's lines in which the filter
/// occurs anywhere, joined by newlines.
pub proof fn law_filtered_lines(list: Seq<char>, filter: Seq<char>)
    ensures
        filtered(list, filter) == join(
            lines(trim(list)).filter(|l: Seq<char>| occurs_in(l, filter)),
            "\n"@,
        ),
{
    law_lines_kept_hold_filter(lines(trim(list)), filter);
}

/// The lines of the list that hold the filter, joined by newlines.
pub open spec fn filtered(list: Seq<char>, filter: Seq<char>) -> Seq<char> {
    join(lines_containing(lines(trim(list)), filter), "\n"@)
}

/// Whether the one remaining line is the filter's own setting: it starts
/// with the filter, and its character at the filter's byte length (not
/// its character count) is `=`.
pub open spec fn single_setting(j: Seq<char>, filter: Seq<char>) -> bool {
    lines(j).len() == 1 && starts_with(j, filter) && byte_len(filter) < j.len() && j[byte_len(
        filter,
    ) as int] == '='
}

/// The shown settings filtered: the lines that hold the filter; a single
/// `filter=value` line becomes its value.
pub open spec fn spec_filter_list(list: Seq<char>, filter: Seq<char>) -> Seq<char> {
    let j = filtered(list, filter);
    if single_setting(j, filter) {
        j.subrange(filter.len() + 1 as int, j.len() as int)
    } else {
        j
    }
}

/// Whether filtering panics: the setting's value is cut out at a byte
/// that is not a character's end.
pub open spec fn filter_panics(list: Seq<char>, filter: Seq<char>) -> bool {
    let j = filtered(list, filter);
    single_setting(j, filter) && (j[filter.len() as int] as u32) >= 128
}

fn filtered_exec(list: &str, filter: &str) -> (res: Vec<char>)
    ensures
        res@ == filtered(list@, filter@),
{
    let f = chars_of(filter);
    let ls = lines_exec(&trim_chars(&chars_of(list)));
    let ghost lv = views(ls@);
    let mut kept: Vec<Vec<char>> = Vec::new();
    for i in 0..ls.len()
        invariant
            lv == views(ls@),
            f@ == filter@,
            views(kept@) == lines_containing(lv.take(i as int), f@),
    {
        assert(lv.take(i + 1).drop_last() =~= lv.take(i as int));
        assert(lv[i as int] == ls@[i as int]@);
        if contains_exec(&ls[i], &f) {
            let line = ls[i].clone();
            assert(line@ =~= ls@[i as int]@);
            let ghost old_kept = kept@;
            kept.push(line);
            assert(views(kept@) =~= views(old_kept).push(line@));
        }
    }
    assert(lv.take(ls.len() as int) =~= lv);
    join_exec(&kept, &chars_of("\n"))
}

proof fn lemma_encode_len(s: Seq<char>)
    ensures
        vstd::utf8::encode_utf8(s).len() >= s.len(),
    decreases s.len(),
{
    if s.len() > 0 {
        lemma_encode_len(s.drop_first());
    }
}

/// The byte length of a string, with what it bounds.
fn filter_byte_len(filter: &str) -> (res: usize)
    ensures
        res == vstd::utf8::encode_utf8(filter@).len(),
        res == byte_len(filter@),
        res >= filter@.len(),
{
    let bytes = filter.as_bytes();
    proof {
        lemma_encode_len(filter@);
    }
    bytes.len()
}

fn single_setting_exec(j: &Vec<char>, filter: &str) -> (res: bool)
    ensures
        res == single_setting(j@, filter@),
{
    let f = chars_of(filter);
    let blen = filter_byte_len(filter);
    lines_exec(j).len() == 1 && starts_with_exec(j, &f) && blen < j.len() && j[blen] == '='
}

/// Whether filtering the list by the filter panics (see `filter_panics`).
pub fn filter_list_panics(list: &str, filter: &str) -> (res: bool)
    ensures
        res == filter_panics(list@, filter@),
{
    let j = filtered_exec(list, filter);
    if single_setting_exec(&j, filter) {
        let f = chars_of(filter);
        // The filter's byte length bounds its length in characters.
        let blen = filter_byte_len(filter);
        assert(f.len() <= blen < j.len());
        (j[f.len()] as u32) >= 128
    } else {
        false
    }
}

/// The shown settings filtered: the lines that hold the filter; a single
/// `filter=value` line becomes its value.
pub fn filter_list(list: &str, filter: &str) -> (res: String)
    requires
        !filter_panics(list@, filter@),
    ensures
        res@ == spec_filter_list(list@, filter@),
{
    let j = filtered_exec(list, filter);
    if single_setting_exec(&j, filter) {
        let f = chars_of(filter);
        // The filter's byte length bounds its length in characters.
        let blen = filter_byte_len(filter);
        assert(f.len() <= blen < j.len());
        string_of(&slice_of(&j, f.len() + 1, j.len()))
    } else {
        string_of(&j)
    }
}


// ---------------------------------------------------------------------
// The module metadata to show
// ---------------------------------------------------------------------

/// A module name asked for on the command line names the module: its
/// upper case is the module's name, or its lower case the short name.
pub open spec fn meta_matches(name: Seq<char>, asked: Seq<char>) -> bool {
    name == to_upper(asked) || spec_name_short(name) == to_lower(asked)
}

/// One of the asked names names the module.
pub open spec fn meta_selected(name: Seq<char>, asked: Seq<String>) -> bool {
    exists|k: int| 0 <= k < asked.len() && meta_matches(name, #[trigger] asked[k]@)
}

/// The message when no loaded module has an asked name.
pub open spec fn not_loaded_message(asked: Seq<char>) -> Seq<char> {
    "Module not loaded: "@ + asked
}

fn name_matches_any(meta: &AppModuleMeta, asked: &Vec<String>) -> (res: bool)
    ensures
        res == meta_selected(meta.name@, asked@),
{
    let name = chars_of(meta.name.as_str());
    let short = chars_of(meta.name_short().as_str());
    for k in 0..asked.len()
        invariant
            name@ == meta.name@,
            short@ == spec_name_short(meta.name@),
            forall|j: int| 0 <= j < k ==> !meta_matches(meta.name@, #[trigger] asked@[j]@),
    {
        let a = chars_of(asked[k].as_str());
        if vec_eq(&name, &upper_chars(&a)) || vec_eq(&short, &lower_chars(&a)) {
            assert(meta_matches(meta.name@, asked@[k as int]@));
            return true;
        }
    }
    false
}

/// Which module metadata the `--module-meta` option shows, by position
/// among the loaded modules: with no names, all of them; else the first
/// module that one of the names names, or an error that names the first.
pub fn select_module_meta(metas: &Vec<AppModuleMeta>, asked: &Vec<String>) -> (res: Result<
    Vec<usize>,
    AppError,
>)
    ensures
        asked@.len() == 0 ==> res is Ok && res->Ok_0@ == Seq::new(
            metas@.len(),
            |i: int| i as usize,
        ),
        asked@.len() > 0 ==> match res {
            Ok(v) => {
                &&& v@.len() == 1
                &&& v@[0] < metas@.len()
                &&& meta_selected(metas@[v@[0] as int].name@, asked@)
                &&& forall|j: int| 0 <= j < v@[0] ==> !meta_selected(#[trigger] metas@[j].name@, asked@)
            },
            Err(e) => {
                &&& forall|j: int| 0 <= j < metas@.len() ==> !meta_selected(#[trigger] metas@[j].name@, asked@)
                &&& e.message@ == not_loaded_message(asked@[0]@)
            },
        },
{
    if asked.len() == 0 {
        let mut all: Vec<usize> = Vec::new();
        for i in 0..metas.len()
            invariant
                all@ == Seq::new(i as nat, |j: int| j as usize),
        {
            all.push(i);
            assert(all@ =~= Seq::new((i + 1) as nat, |j: int| j as usize));
        }
        return Ok(all);
    }
    for i in 0..metas.len()
        invariant
            asked@.len() > 0,
            forall|j: int| 0 <= j < i ==> !meta_selected(#[trigger] metas@[j].name@, asked@),
    {
        if name_matches_any(&metas[i], asked) {
            let mut one: Vec<usize> = Vec::new();
            one.push(i);
            return Ok(one);
        }
    }
    let mut msg = chars_of("Module not loaded: ");
    append_chars(&mut msg, &chars_of(asked[0].as_str()));
    Err(AppError { message: string_of(&msg) })
}


// ---------------------------------------------------------------------
// The configuration module's options and notifies
// ---------------------------------------------------------------------

/// The options of the configuration module.
pub const OPT_CONFIG: &'static str = "c:config";
pub const OPT_ARGUMENTS: &'static str = "a:arguments";
pub const OPT_APPLICATION: &'static str = "A:application";
pub const OPT_MODULE_META: &'static str = "m:module-meta";

/// Whether the command is one of the configuration module's (`c`,
/// `config`).
pub open spec fn is_config_command(cmd: Seq<char>) -> bool {
    cmd == "c"@ || cmd == "config"@
}

pub fn config_command(cmd: &str) -> (res: bool)
    ensures
        res == is_config_command(cmd@),
{
    str_eq(cmd, "c") || str_eq(cmd, "config")
}

/// The options that the module declares at init: the application flag
/// always; the settings and arguments flags and the module-meta option
/// only under its own command.
#[derive(Debug, Clone, Copy, PartialEq, Eq, Structural)]
pub struct ConfigInitPlan {
    pub add_application_flag: bool,
    pub add_command_options: bool,
}

pub fn config_init_plan(cmd: &str) -> (res: ConfigInitPlan)
    ensures
        res.add_application_flag,
        res.add_command_options == is_config_command(cmd@),
{
    ConfigInitPlan { add_application_flag: true, add_command_options: config_command(cmd) }
}

/// What the module does on a notify.
#[derive(Debug, Clone, Copy, PartialEq, Eq, Structural)]
pub struct ConfigNotifyPlan {
    /// Marks the run handled, collects the settings and shows them.
    pub run: bool,
    /// Shows the application's state at shutdown.
    pub show_application: bool,
    /// Adds the kernel's settings to those shown.
    pub collect: bool,
}

pub open spec fn spec_config_notify_plan(
    notify: Seq<char>,
    cmd: Seq<char>,
    application_flag: bool,
) -> ConfigNotifyPlan {
    ConfigNotifyPlan {
        run: notify == NT_APP_RUN@ && is_config_command(cmd),
        show_application: notify == NT_APP_SHUTDOWN@ && application_flag && !is_config_command(
            cmd,
        ),
        collect: notify == NT_CONFIG_DISPLAY@,
    }
}

pub fn config_notify_plan(notify: &str, cmd: &str, application_flag: bool) -> (res:
    ConfigNotifyPlan)
    ensures
        res == spec_config_notify_plan(notify@, cmd@, application_flag),
{
    let own = config_command(cmd);
    ConfigNotifyPlan {
        run: str_eq(notify, NT_APP_RUN) && own,
        show_application: str_eq(notify, NT_APP_SHUTDOWN) && application_flag && !own,
        collect: str_eq(notify, NT_CONFIG_DISPLAY),
    }
}

/// What the configuration command shows.
#[derive(Debug, Clone, Copy, PartialEq, Eq, Structural)]
pub enum ConfigShow {
    /// The parsed command line.
    Arguments,
    /// The application's state.
    Application,
    /// The metadata of modules.
    ModuleMeta,
    /// The settings from the files (with `--config`) or those collected,
    /// filtered by the second argument where one is given.
    Settings { from_files: bool },
}

/// The arguments flag first, then the application flag, then the
/// module-meta option, else the settings.
pub open spec fn spec_config_show(
    arguments: bool,
    application: bool,
    module_meta: bool,
    config: bool,
) -> ConfigShow {
    if arguments {
        ConfigShow::Arguments
    } else if application {
        ConfigShow::Application
    } else if module_meta {
        ConfigShow::ModuleMeta
    } else {
        ConfigShow::Settings { from_files: config }
    }
}

pub fn config_show(arguments: bool, application: bool, module_meta: bool, config: bool) -> (res:
    ConfigShow)
    ensures
        res == spec_config_show(arguments, application, module_meta, config),
{
    if arguments {
        ConfigShow::Arguments
    } else if application {
        ConfigShow::Application
    } else if module_meta {
        ConfigShow::ModuleMeta
    } else {
        ConfigShow::Settings { from_files: config }
    }
}

} // verus!