use crate::app::AppError;
use crate::app_module_meta::{AppModuleMeta, LdMeta};
use crate::handlers::ModuleId;
use crate::modules::cmd_mod::{string_views, strings_join};
use crate::text::{
    append_chars, chars_of, dedup_seq, ends_with, ends_with_exec, first_index, lemma_first_index,
    join, lemma_first_index_at, rfind, rfind_before, rfind_exec, slice_of, starts_with, starts_with_exec, str_eq, string_of,
    to_upper, tokens, tokens_exec, upper_chars, views,
};
use vstd::prelude::*;

verus! {

/// The notify that loads a module from a library.
pub const NT_LD_LOAD_MODULE: &'static str = "Ld::load_module";

/// The notify that loads a library's metadata.
pub const NT_LD_LOAD_LIBRARY: &'static str = "Ld::load_library";

/// The notify that closes a library and unloads its modules.
pub const NT_LD_CLOSE_LIBRARY: &'static str = "Ld::close_library";

/// The function that a library exports its metadata with.
pub const FN_LD_META: &'static str = "__ld_meta";

/// A loaded library: its metadata, and whether it is open. The open
/// library itself is the caller's to hold.
#[derive(Debug)]
pub struct LdItem {
    pub meta: LdMeta,
    pub open: bool,
}

/// The library loader's settings and what it has loaded.
#[derive(Debug)]
pub struct LdConfig {
    no_load: bool,
    lib_dir: String,
    load_libs: Vec<String>,
    load_mods: Vec<String>,
    /// Library path and what was loaded of it, in loading order.
    loaded_libs: Vec<(String, LdItem)>,
    /// Module name, module, and the name of its library.
    loaded_mods: Vec<(String, ModuleId, String)>,
}

/// A module of a loaded library, as the loader sees it: name, module,
/// commands.
pub open spec fn meta_entry(m: AppModuleMeta) -> (Seq<char>, ModuleId, Seq<Seq<char>>) {
    (m.name@, m.module, string_views(m.commands@))
}

/// The loader's state.
pub struct LdConfigView {
    pub no_load: bool,
    pub lib_dir: Seq<char>,
    pub load_libs: Seq<Seq<char>>,
    pub load_mods: Seq<Seq<char>>,
    /// Path, the modules of the library, whether it is open, and the name
    /// the library gives itself.
    pub loaded_libs: Seq<(Seq<char>, Seq<(Seq<char>, ModuleId, Seq<Seq<char>>)>, bool, Seq<char>)>,
    pub loaded_mods: Seq<(Seq<char>, ModuleId, Seq<char>)>,
}

impl View for LdConfig {
    type V = LdConfigView;

    closed spec fn view(&self) -> LdConfigView {
        LdConfigView {
            no_load: self.no_load,
            lib_dir: self.lib_dir@,
            load_libs: string_views(self.load_libs@),
            load_mods: string_views(self.load_mods@),
            loaded_libs: self.loaded_libs@.map_values(
                |e: (String, LdItem)|
                    (
                        e.0@,
                        e.1.meta.mods@.map_values(|m: AppModuleMeta| meta_entry(m)),
                        e.1.open,
                        e.1.meta.lib@,
                    ),
            ),
            loaded_mods: self.loaded_mods@.map_values(
                |e: (String, ModuleId, String)| (e.0@, e.1, e.2@),
            ),
        }
    }
}

impl LdConfig {
    /// The whole metadata of the modules of each loaded library, in loading
    /// order.
    pub closed spec fn lib_metas(&self) -> Seq<Seq<AppModuleMeta>> {
        self.loaded_libs@.map_values(|e: (String, LdItem)| e.1.meta.mods@)
    }

    /// The view's module entries of each loaded library are those of its
    /// whole metadata.
    pub proof fn lemma_lib_metas(&self)
        ensures
            self.lib_metas().len() == self@.loaded_libs.len(),
            forall|i: int|
                0 <= i < self@.loaded_libs.len() ==> #[trigger] self@.loaded_libs[i].1
                    == self.lib_metas()[i].map_values(|m: AppModuleMeta| meta_entry(m)),
    {
    }
}

/// Whether the name starts with `/` or `.`: a path, not a bare name.
pub open spec fn is_path(s: Seq<char>) -> bool {
    s.len() > 0 && (s[0] == '/' || s[0] == '.')
}

/// The path of a library: a bare name gets `lib` before it, `.so` after
/// it and the library directory in front; `.so` is added where missing.
pub open spec fn spec_lib_path(lib_dir: Seq<char>, lib_name: Seq<char>) -> Seq<char> {
    let p = if !is_path(lib_name) && !starts_with(lib_name, "lib"@) {
        "lib"@ + lib_name
    } else {
        lib_name
    };
    let p = if !ends_with(p, ".so"@) {
        p + ".so"@
    } else {
        p
    };
    if !is_path(lib_name) {
        lib_dir + "/"@ + p
    } else {
        p
    }
}

/// Where the library name starts in a path: after the last `/lib`.
pub open spec fn lib_name_start(path: Seq<char>) -> int {
    let s = rfind(path, "/lib"@);
    if s < 0 {
        0
    } else {
        s + 4
    }
}

/// Where the library name ends in a path: at the last `.`.
pub open spec fn lib_name_end(path: Seq<char>) -> int {
    let e = rfind(path, "."@);
    if e < 0 {
        path.len() as int
    } else {
        e
    }
}

/// The library name of a path: between the last `/lib` and the last `.`.
pub open spec fn spec_lib_name(path: Seq<char>) -> Seq<char> {
    path.subrange(lib_name_start(path), lib_name_end(path))
}

/// The name a module is exported under: `MOD_` and the name, in upper case.
pub open spec fn spec_module_name(name: Seq<char>) -> Seq<char> {
    if starts_with(name, "MOD_"@) {
        to_upper(name)
    } else {
        "MOD_"@ + to_upper(name)
    }
}

proof fn lemma_rfind_bounds(s: Seq<char>, p: Seq<char>, i: int)
    ensures
        rfind_before(s, p, i) == -1 || (0 <= rfind_before(s, p, i) <= i && crate::text::matches_at(
            s,
            p,
            rfind_before(s, p, i),
        )),
    decreases i + 1,
{
    if i >= 0 && !crate::text::matches_at(s, p, i) {
        lemma_rfind_bounds(s, p, i - 1);
    }
}


impl LdConfig {
    pub const OPT_PATH: &'static str = "ld-path";
    pub const OPT_LOAD_LIB: &'static str = "L:ld-lib";
    pub const OPT_LOAD_MOD: &'static str = "M:ld-mod";
    pub const OPT_NO_LOAD: &'static str = "N:ld-no";

    /// Whether loading libraries at boot is off.
    pub fn no_load(&self) -> (res: bool)
        ensures
            res == self@.no_load,
    {
        self.no_load
    }

    /// The directory of libraries given by bare name.
    pub fn lib_dir(&self) -> (res: &str)
        ensures
            res@ == self@.lib_dir,
    {
        self.lib_dir.as_str()
    }

    /// The libraries to load at boot.
    pub fn load_libs(&self) -> (res: &Vec<String>)
        ensures
            string_views(res@) == self@.load_libs,
    {
        &self.load_libs
    }

    /// The modules to load at boot.
    pub fn load_mods(&self) -> (res: &Vec<String>)
        ensures
            string_views(res@) == self@.load_mods,
    {
        &self.load_mods
    }


    /// The path of a library, from its name or path.
    pub fn get_lib_path(&self, lib_name: &str) -> (res: String)
        ensures
            res@ == spec_lib_path(self@.lib_dir, lib_name@),
    {
        let name = chars_of(lib_name);
        let bare = !(name.len() > 0 && (name[0] == '/' || name[0] == '.'));
        let lib = chars_of("lib");
        let so = chars_of(".so");
        let mut p: Vec<char> = if bare && !starts_with_exec(&name, &lib) {
            let mut v = lib.clone();
            append_chars(&mut v, &name);
            v
        } else {
            name.clone()
        };
        if !ends_with_exec(&p, &so) {
            append_chars(&mut p, &so);
        }
        if bare {
            let mut v = chars_of(self.lib_dir.as_str());
            append_chars(&mut v, &chars_of("/"));
            append_chars(&mut v, &p);
            p = v;
        }
        proof {
            reveal_strlit("lib");
            reveal_strlit(".so");
        }
        string_of(&p)
    }

    /// The library name of a path; needs `lib_name_ok`.
    pub fn get_lib_name(&self, path: &str) -> (res: String)
        requires
            lib_name_start(path@) <= lib_name_end(path@),
        ensures
            res@ == spec_lib_name(path@),
    {
        let p = chars_of(path);
        proof {
            reveal_strlit("/lib");
            reveal_strlit(".");
            lemma_rfind_bounds(p@, "/lib"@, p@.len() - "/lib"@.len());
            lemma_rfind_bounds(p@, "."@, p@.len() - "."@.len());
        }
        let pat = chars_of("/lib");
        assert(pat@.len() == 4);
        let start = match rfind_exec(&p, &pat) {
            Some(s) => {
                assert(s as int == rfind_before(p@, pat@, p@.len() - 4));
                proof {
                    lemma_rfind_bounds(p@, pat@, p@.len() - 4);
                }
                assert(crate::text::matches_at(p@, pat@, s as int));
                assert(p@.len() == p.len());
                s + 4
            },
            None => 0,
        };
        let end = match rfind_exec(&p, &chars_of(".")) {
            Some(e) => e,
            None => p.len(),
        };
        string_of(&slice_of(&p, start, end))
    }

    /// The name a module is exported under.
    pub fn get_module_name(&self, module_name: &str) -> (res: String)
        ensures
            res@ == spec_module_name(module_name@),
    {
        let name = chars_of(module_name);
        let prefix = chars_of("MOD_");
        let upper = upper_chars(&name);
        if starts_with_exec(&name, &prefix) {
            string_of(&upper)
        } else {
            let mut v = prefix;
            append_chars(&mut v, &upper);
            string_of(&v)
        }
    }
}

/// Whether `get_lib_name` can take the path: the name's start is not after
/// its end. Cutting the name out of any other path is a panic.
pub fn lib_name_ok(path: &str) -> (res: bool)
    ensures
        res == (lib_name_start(path@) <= lib_name_end(path@)),
{
    let p = chars_of(path);
    proof {
        reveal_strlit("/lib");
        reveal_strlit(".");
        lemma_rfind_bounds(p@, "/lib"@, p@.len() - "/lib"@.len());
        lemma_rfind_bounds(p@, "."@, p@.len() - "."@.len());
    }
    let pat = chars_of("/lib");
    assert(pat@.len() == 4);
    let start = match rfind_exec(&p, &pat) {
        Some(s) => {
            assert(s as int == rfind_before(p@, pat@, p@.len() - 4));
            proof {
                lemma_rfind_bounds(p@, pat@, p@.len() - 4);
            }
            assert(crate::text::matches_at(p@, pat@, s as int));
            assert(p@.len() == p.len());
            s + 4
        },
        None => 0,
    };
    let end = match rfind_exec(&p, &chars_of(".")) {
        Some(e) => e,
        None => p.len(),
    };
    start <= end
}


/// The characters of an optional string; none for `None`.
pub open spec fn opt_chars(v: Option<&str>) -> Seq<char> {
    match v {
        Some(s) => s@,
        None => Seq::empty(),
    }
}

/// Whether a setting turns something on: `1`, `on` or `true`.
pub open spec fn is_on(v: Option<&str>) -> bool {
    match v {
        Some(s) => s@ == "1"@ || s@ == "on"@ || s@ == "true"@,
        None => false,
    }
}

/// A comma- or space-separated list of names, each kept once.
pub open spec fn name_list(v: Option<&str>) -> Seq<Seq<char>> {
    dedup_seq(tokens(opt_chars(v), seq![',', ' ']))
}

fn name_list_exec(v: Option<&str>) -> (res: Vec<String>)
    ensures
        string_views(res@) == name_list(v),
{
    let text = match v {
        Some(s) => chars_of(s),
        None => Vec::new(),
    };
    assert(text@ == opt_chars(v));
    let mut seps: Vec<char> = Vec::new();
    seps.push(',');
    seps.push(' ');
    assert(seps@ =~= seq![',', ' ']);
    let toks = tokens_exec(&text, &seps);
    let ghost tv = views(toks@);
    let mut res: Vec<String> = Vec::new();
    for i in 0..toks.len()
        invariant
            tv == views(toks@),
            string_views(res@) == dedup_seq(tv.take(i as int)),
    {
        assert(tv.take(i + 1).drop_last() =~= tv.take(i as int));
        assert(tv.take(i + 1).last() == toks@[i as int]@);
        let s = string_of(&toks[i]);
        let mut found = false;
        for k in 0..res.len()
            invariant
                found == exists|t: int| 0 <= t < k && res@[t]@ == s@,
        {
            if str_eq(res[k].as_str(), s.as_str()) {
                found = true;
            }
        }
        proof {
            let sv = string_views(res@);
            if found {
                let t = choose|t: int| 0 <= t < res@.len() && res@[t]@ == s@;
                assert(sv[t] == s@);
            } else {
                assert forall|t: int| 0 <= t < sv.len() implies sv[t] != s@ by {
                    assert(sv[t] == res@[t]@);
                }
            }
        }
        if !found {
            let ghost old_res = res@;
            res.push(s);
            assert(string_views(res@) =~= string_views(old_res).push(s@));
        }
    }
    assert(tv.take(toks.len() as int) =~= tv);
    res
}

/// A module entry of the name.
pub open spec fn mod_named(name: Seq<char>) -> spec_fn((Seq<char>, ModuleId, Seq<Seq<char>>)) -> bool {
    |e: (Seq<char>, ModuleId, Seq<Seq<char>>)| e.0 == name
}

/// A module entry that runs the command.
pub open spec fn mod_with_cmd(cmd: Seq<char>) -> spec_fn((Seq<char>, ModuleId, Seq<Seq<char>>)) -> bool {
    |e: (Seq<char>, ModuleId, Seq<Seq<char>>)| e.2.contains(cmd)
}

/// A loaded library with a module entry that satisfies `pe`.
pub open spec fn lib_has(pe: spec_fn((Seq<char>, ModuleId, Seq<Seq<char>>)) -> bool) -> spec_fn(
    (Seq<char>, Seq<(Seq<char>, ModuleId, Seq<Seq<char>>)>, bool, Seq<char>),
) -> bool {
    |l: (Seq<char>, Seq<(Seq<char>, ModuleId, Seq<Seq<char>>)>, bool, Seq<char>)| first_index(l.1, pe, 0) >= 0
}

/// The text of a boolean, as `Display` shows it.
pub open spec fn bool_text(b: bool) -> Seq<char> {
    if b {
        "true"@
    } else {
        "false"@
    }
}

impl LdConfig {
    /// The settings from the environment: `LD_NO`, `LD_PATH`,
    /// `LD_LOAD_LIB` and `LD_LOAD_MOD`; nothing loaded yet.
    pub fn from_env(
        ld_no: Option<&str>,
        ld_path: Option<&str>,
        ld_load_lib: Option<&str>,
        ld_load_mod: Option<&str>,
    ) -> (res: Self)
        ensures
            res@.no_load == is_on(ld_no),
            res@.lib_dir == opt_chars(ld_path),
            res@.load_libs == name_list(ld_load_lib),
            res@.load_mods == name_list(ld_load_mod),
            res@.loaded_libs.len() == 0,
            res@.loaded_mods.len() == 0,
    {
        let no_load = match ld_no {
            Some(v) => str_eq(v, "1") || str_eq(v, "on") || str_eq(v, "true"),
            None => false,
        };
        let lib_dir = match ld_path {
            Some(v) => v.to_owned(),
            None => String::new(),
        };
        let res = LdConfig {
            no_load,
            lib_dir,
            load_libs: name_list_exec(ld_load_lib),
            load_mods: name_list_exec(ld_load_mod),
            loaded_libs: Vec::new(),
            loaded_mods: Vec::new(),
        };
        proof {
            reveal_strlit("1");
            reveal_strlit("on");
            reveal_strlit("true");
        }
        res
    }

    /// The settings after the command line: an option given replaces the
    /// setting, read by the rules of the environment's (`on`, `1` or
    /// `true` turns loading off; lists are comma- or space-separated, each
    /// name once).
    pub fn apply_options(
        &mut self,
        ld_no: Option<&str>,
        ld_path: Option<&str>,
        ld_load_lib: Option<&str>,
        ld_load_mod: Option<&str>,
    )
        ensures
            final(self)@.no_load == if ld_no is Some {
                is_on(ld_no)
            } else {
                old(self)@.no_load
            },
            final(self)@.lib_dir == if ld_path is Some {
                opt_chars(ld_path)
            } else {
                old(self)@.lib_dir
            },
            final(self)@.load_libs == if ld_load_lib is Some {
                name_list(ld_load_lib)
            } else {
                old(self)@.load_libs
            },
            final(self)@.load_mods == if ld_load_mod is Some {
                name_list(ld_load_mod)
            } else {
                old(self)@.load_mods
            },
            final(self)@.loaded_libs == old(self)@.loaded_libs,
            final(self)@.loaded_mods == old(self)@.loaded_mods,
            final(self).lib_metas() == old(self).lib_metas(),
    {
        let given = LdConfig::from_env(ld_no, ld_path, ld_load_lib, ld_load_mod);
        if ld_no.is_some() {
            self.no_load = given.no_load;
        }
        if ld_path.is_some() {
            self.lib_dir = given.lib_dir;
        }
        if ld_load_lib.is_some() {
            self.load_libs = given.load_libs;
        }
        if ld_load_mod.is_some() {
            self.load_mods = given.load_mods;
        }
    }

    /// Takes the directory given when no library directory is set.
    pub fn default_lib_dir(&mut self, dir: &str)
        ensures
            final(self).lib_metas() == old(self).lib_metas(),
            final(self)@ == (LdConfigView {
                lib_dir: if old(self)@.lib_dir.len() == 0 {
                    dir@
                } else {
                    old(self)@.lib_dir
                },
                ..old(self)@
            }),
    {
        if self.lib_dir.as_str().unicode_len() == 0 {
            self.lib_dir = dir.to_owned();
        }
    }

    /// The path of the first loaded library that has a module of the name.
    pub fn find_lib_by_module(&self, module_name: &str) -> (res: Option<String>)
        ensures
            ({
                let libs = self@.loaded_libs;
                let i = first_index(
                    libs,
                    lib_has(mod_named(module_name@)),
                    0,
                );
                if i < 0 {
                    res is None
                } else {
                    res is Some && res->Some_0@ == libs[i].0
                }
            }),
    {
        let ghost libs = self@.loaded_libs;
        let ghost pe = mod_named(module_name@);
        let ghost pl = lib_has(pe);
        for i in 0..self.loaded_libs.len()
            invariant
                libs == self@.loaded_libs,
                pe == mod_named(module_name@),
                pl == lib_has(pe),
                first_index(libs, pl, 0) == first_index(libs, pl, i as int),
        {
            let item = &self.loaded_libs[i].1;
            let ghost mods = libs[i as int].1;
            assert(mods == item.meta.mods@.map_values(|m: AppModuleMeta| meta_entry(m)));
            match find_meta(&item.meta.mods, module_name) {
                Some(_) => {
                    return Some(self.loaded_libs[i].0.clone());
                },
                None => {},
            }
        }
        None
    }

    /// The name of the first module, in the loaded libraries, that runs
    /// the command.
    pub fn find_module_by_command(&self, cmd: &str) -> (res: Option<String>)
        ensures
            ({
                let libs = self@.loaded_libs;
                let pe = mod_with_cmd(cmd@);
                let i = first_index(
                    libs,
                    lib_has(pe),
                    0,
                );
                if i < 0 {
                    res is None
                } else {
                    res is Some && res->Some_0@ == libs[i].1[first_index(libs[i].1, pe, 0)].0
                }
            }),
    {
        let ghost libs = self@.loaded_libs;
        let ghost pe = mod_with_cmd(cmd@);
        let ghost pl = lib_has(pe);
        for i in 0..self.loaded_libs.len()
            invariant
                libs == self@.loaded_libs,
                pe == mod_with_cmd(cmd@),
                pl == lib_has(pe),
                first_index(libs, pl, 0) == first_index(libs, pl, i as int),
        {
            let mods = &self.loaded_libs[i].1.meta.mods;
            let ghost mv = libs[i as int].1;
            assert(mv == mods@.map_values(|m: AppModuleMeta| meta_entry(m)));
            for j in 0..mods.len()
                invariant
                    mv == mods@.map_values(|m: AppModuleMeta| meta_entry(m)),
                    pe == mod_with_cmd(cmd@),
                    first_index(mv, pe, 0) == first_index(mv, pe, j as int),
                    libs == self@.loaded_libs,
                    pl == lib_has(pe),
                    first_index(libs, pl, 0) == first_index(libs, pl, i as int),
                    i < libs.len(),
                    mv == libs[i as int].1,
            {
                assert(mv[j as int] == meta_entry(mods@[j as int]));
                if mods[j].has_command(cmd) {
                    proof {
                        let c = string_views(mods@[j as int].commands@);
                        let k = choose|k: int| 0 <= k < mods@[j as int].commands@.len() && mods@[j as int].commands@[k]@ == cmd@;
                        assert(c[k] == cmd@);
                        assert(pe(mv[j as int]));
                        assert(first_index(mv, pe, j as int) == j);
                        assert(pl(libs[i as int]));
                        assert(first_index(libs, pl, i as int) == i);
                    }
                    return Some(mods[j].name.clone());
                }
                proof {
                    let c = string_views(mods@[j as int].commands@);
                    if c.contains(cmd@) {
                        let k = choose|k: int| 0 <= k < c.len() && c[k] == cmd@;
                        assert(mods@[j as int].commands@[k]@ == cmd@);
                    }
                }
            }
        }
        None
    }

    /// The first module of the name in the loaded libraries.
    pub fn find_module_by_name(&self, module_name: &str) -> (res: Option<ModuleId>)
        ensures
            ({
                let libs = self@.loaded_libs;
                let pe = mod_named(module_name@);
                let i = first_index(
                    libs,
                    lib_has(pe),
                    0,
                );
                if i < 0 {
                    res is None
                } else {
                    res == Some(libs[i].1[first_index(libs[i].1, pe, 0)].1)
                }
            }),
    {
        match self.find_meta_by_name(module_name) {
            Some(m) => Some(m.module),
            None => None,
        }
    }

    /// The metadata of the first module of the name in the loaded libraries.
    pub fn find_meta_by_name(&self, module_name: &str) -> (res: Option<&AppModuleMeta>)
        ensures
            ({
                let libs = self@.loaded_libs;
                let pe = mod_named(module_name@);
                let i = first_index(
                    libs,
                    lib_has(pe),
                    0,
                );
                if i < 0 {
                    res is None
                } else {
                    res is Some && *res->Some_0 == self.lib_metas()[i][first_index(
                        libs[i].1,
                        pe,
                        0,
                    )] && meta_entry(*res->Some_0) == libs[i].1[first_index(libs[i].1, pe, 0)]
                }
            }),
    {
        let ghost libs = self@.loaded_libs;
        let ghost pe = mod_named(module_name@);
        let ghost pl = lib_has(pe);
        for i in 0..self.loaded_libs.len()
            invariant
                libs == self@.loaded_libs,
                pe == mod_named(module_name@),
                pl == lib_has(pe),
                first_index(libs, pl, 0) == first_index(libs, pl, i as int),
        {
            let mods = &self.loaded_libs[i].1.meta.mods;
            let ghost mv = libs[i as int].1;
            assert(mv == mods@.map_values(|m: AppModuleMeta| meta_entry(m)));
            match find_meta(mods, module_name) {
                Some(j) => {
                    return Some(&mods[j]);
                },
                None => {},
            }
        }
        None
    }
}

/// The entries of a loaded library, by path.
pub open spec fn lib_key(path: Seq<char>) -> spec_fn(
    (Seq<char>, Seq<(Seq<char>, ModuleId, Seq<Seq<char>>)>, bool, Seq<char>),
) -> bool {
    |l: (Seq<char>, Seq<(Seq<char>, ModuleId, Seq<Seq<char>>)>, bool, Seq<char>)| l.0 == path
}

/// The entries of a loaded module, by name.
pub open spec fn mod_key(name: Seq<char>) -> spec_fn((Seq<char>, ModuleId, Seq<char>)) -> bool {
    |m: (Seq<char>, ModuleId, Seq<char>)| m.0 == name
}

/// The module-name rule gives a name that starts with `MOD_`, holds no
/// lower-case ASCII letter, and is its own module name: applying the rule
/// twice gives the same name.
pub proof fn law_module_name_idempotent(name: Seq<char>)
    ensures
        starts_with(spec_module_name(name), "MOD_"@),
        forall|i: int|
            0 <= i < spec_module_name(name).len() ==> !('a' <= #[trigger] spec_module_name(name)[i]
                <= 'z'),
        spec_module_name(spec_module_name(name)) == spec_module_name(name),
{
    reveal_strlit("MOD_");
    let r = spec_module_name(name);
    let u = to_upper(name);
    assert forall|i: int| 0 <= i < u.len() implies !('a' <= #[trigger] u[i] <= 'z') by {
        let c = name[i];
        if 'a' <= c <= 'z' {
            assert(u[i] == ((c as u32) - 32) as char);
        }
    }
    if starts_with(name, "MOD_"@) {
        assert(r == u);
        assert(u.subrange(0, 4) =~= "MOD_"@) by {
            assert forall|i: int| 0 <= i < 4 implies u[i] == "MOD_"@[i] by {
                assert(name.subrange(0, 4)[i] == name[i]);
            }
        }
    } else {
        assert(r == "MOD_"@ + u);
        assert(r.subrange(0, 4) =~= "MOD_"@);
        assert forall|i: int| 0 <= i < r.len() implies !('a' <= #[trigger] r[i] <= 'z') by {
            if i >= 4 {
                assert(r[i] == u[i - 4]);
            }
        }
    }
    assert(starts_with(r, "MOD_"@));
    assert(to_upper(r) =~= r) by {
        assert forall|i: int| 0 <= i < r.len() implies #[trigger] to_upper(r)[i] == r[i] by {
            assert(!('a' <= r[i] <= 'z'));
        }
    }
}

/// The last match at or before `start` is at `k`, when `p` occurs at `k`
/// and nowhere after it up to `start`.
proof fn lemma_rfind_before_at(s: Seq<char>, p: Seq<char>, start: int, k: int)
    requires
        0 <= k <= start,
        crate::text::matches_at(s, p, k),
        forall|i: int| k < i <= start ==> !crate::text::matches_at(s, p, i),
    ensures
        rfind_before(s, p, start) == k,
    decreases start - k,
{
    if start > k {
        lemma_rfind_before_at(s, p, start - 1, k);
    }
}

/// A bare library name gives back itself: the name of the path of a name
/// without `/` or `.` that does not start with `lib` is that name, whatever
/// the library directory.
pub proof fn law_lib_name_round_trip(lib_dir: Seq<char>, name: Seq<char>)
    requires
        forall|i: int| 0 <= i < name.len() ==> name[i] != '/' && name[i] != '.',
        !starts_with(name, "lib"@),
    ensures
        lib_name_start(spec_lib_path(lib_dir, name)) <= lib_name_end(spec_lib_path(lib_dir, name)),
        spec_lib_name(spec_lib_path(lib_dir, name)) == name,
{
    reveal_strlit("lib");
    reveal_strlit(".so");
    reveal_strlit("/");
    reveal_strlit("/lib");
    reveal_strlit(".");
    let k = lib_dir.len() as int;
    let n = name.len() as int;
    let p1 = "lib"@ + name;
    assert(!is_path(name)) by {
        if name.len() > 0 {
            assert(name[0] != '/' && name[0] != '.');
        }
    }
    assert(!ends_with(p1, ".so"@)) by {
        if ends_with(p1, ".so"@) {
            assert(p1.subrange(p1.len() - 3, p1.len() as int)[0] == '.');
            assert(p1[p1.len() - 3] == '.');
            if p1.len() - 3 < 3 {
                assert(p1[p1.len() - 3] == "lib"@[p1.len() - 3]);
            } else {
                assert(p1[p1.len() - 3] == name[p1.len() - 6]);
            }
        }
    }
    let path = lib_dir + "/"@ + (p1 + ".so"@);
    assert(spec_lib_path(lib_dir, name) == path);
    let len = path.len() as int;
    assert(len == k + 4 + n + 3);
    assert forall|i: int| 0 <= i < n implies #[trigger] path[k + 4 + i] == name[i] by {
        assert(path[k + 4 + i] == (p1 + ".so"@)[3 + i]);
        assert(p1[3 + i] == name[i]);
    }
    assert(path[k] == '/');
    assert(path[k + 1] == 'l' && path[k + 2] == 'i' && path[k + 3] == 'b');
    assert(path[len - 3] == '.' && path[len - 2] == 's' && path[len - 1] == 'o');
    // The last `/lib` is the one before the name.
    assert(crate::text::matches_at(path, "/lib"@, k)) by {
        assert(path.subrange(k, k + 4) =~= "/lib"@);
    }
    assert forall|i: int| k < i <= len - 4 implies !crate::text::matches_at(path, "/lib"@, i) by {
        if crate::text::matches_at(path, "/lib"@, i) {
            assert(path.subrange(i, i + 4)[0] == '/');
            assert(path[i] == '/');
            if i >= k + 4 && i < k + 4 + n {
                assert(path[k + 4 + (i - k - 4)] == name[i - k - 4]);
            }
        }
    }
    lemma_rfind_before_at(path, "/lib"@, len - 4, k);
    assert(lib_name_start(path) == k + 4);
    // The last `.` is the one of `.so`.
    assert(crate::text::matches_at(path, "."@, len - 3)) by {
        assert(path.subrange(len - 3, len - 2) =~= "."@);
    }
    assert forall|i: int| len - 3 < i <= len - 1 implies !crate::text::matches_at(path, "."@, i) by {
        if crate::text::matches_at(path, "."@, i) {
            assert(path.subrange(i, i + 1)[0] == '.');
        }
    }
    lemma_rfind_before_at(path, "."@, len - 1, len - 3);
    assert(lib_name_end(path) == len - 3);
    assert(path.subrange(k + 4, len - 3) =~= name);
}

/// The loaded modules after recording one: the entry of its name is
/// replaced, or the entry is added last.
pub open spec fn spec_record_module(
    ms: Seq<(Seq<char>, ModuleId, Seq<char>)>,
    name: Seq<char>,
    module: ModuleId,
    lib: Seq<char>,
) -> Seq<(Seq<char>, ModuleId, Seq<char>)> {
    let i = first_index(ms, mod_key(name), 0);
    if i < 0 {
        ms.push((name, module, lib))
    } else {
        ms.update(i, (name, module, lib))
    }
}

/// The loaded modules after forgetting one: the entry of its name is
/// removed, the last entry taking its place.
pub open spec fn spec_forget_module(ms: Seq<(Seq<char>, ModuleId, Seq<char>)>, name: Seq<char>) -> Seq<
    (Seq<char>, ModuleId, Seq<char>),
> {
    let i = first_index(ms, mod_key(name), 0);
    if i < 0 {
        ms
    } else if i == ms.len() - 1 {
        ms.drop_last()
    } else {
        ms.update(i, ms.last()).drop_last()
    }
}

/// No two loaded modules share a name.
pub open spec fn names_unique(ms: Seq<(Seq<char>, ModuleId, Seq<char>)>) -> bool {
    forall|i: int, j: int| 0 <= i < ms.len() && 0 <= j < ms.len() && i != j ==> ms[i].0 != ms[j].0
}

/// A module recorded under a name is what a lookup of the name finds,
/// with its library.
pub proof fn law_record_then_lookup(
    ms: Seq<(Seq<char>, ModuleId, Seq<char>)>,
    name: Seq<char>,
    module: ModuleId,
    lib: Seq<char>,
)
    ensures
        ({
            let r = spec_record_module(ms, name, module, lib);
            let i = first_index(r, mod_key(name), 0);
            0 <= i < r.len() && r[i].1 == module && r[i].2 == lib
        }),
{
    let p = mod_key(name);
    let i0 = first_index(ms, p, 0);
    lemma_first_index(ms, p, 0);
    let r = spec_record_module(ms, name, module, lib);
    if i0 < 0 {
        assert forall|j: int| 0 <= j < ms.len() implies !p(#[trigger] r[j]) by {
            assert(r[j] == ms[j]);
        }
        lemma_first_index_at(r, p, 0, ms.len() as int);
    } else {
        assert forall|j: int| 0 <= j < i0 implies !p(#[trigger] r[j]) by {
            lemma_first_before(ms, p, 0, j);
        }
        lemma_first_index_at(r, p, 0, i0);
    }
}

/// No element before the first index satisfies the predicate.
proof fn lemma_first_before<A>(s: Seq<A>, pred: spec_fn(A) -> bool, i: int, j: int)
    requires
        0 <= i <= j,
        j < first_index(s, pred, i),
    ensures
        !pred(s[j]),
    decreases j - i,
{
    if i < j {
        if pred(s[i]) {
            assert(first_index(s, pred, i) == i);
        } else {
            lemma_first_before(s, pred, i + 1, j);
        }
    } else {
        lemma_first_index(s, pred, i);
    }
}

/// Recording a module keeps the names of the loaded modules unique.
pub proof fn law_record_keeps_names_unique(
    ms: Seq<(Seq<char>, ModuleId, Seq<char>)>,
    name: Seq<char>,
    module: ModuleId,
    lib: Seq<char>,
)
    requires
        names_unique(ms),
    ensures
        names_unique(spec_record_module(ms, name, module, lib)),
{
    let p = mod_key(name);
    let i0 = first_index(ms, p, 0);
    lemma_first_index(ms, p, 0);
    let r = spec_record_module(ms, name, module, lib);
    assert forall|i: int, j: int| 0 <= i < r.len() && 0 <= j < r.len() && i != j implies r[i].0
        != r[j].0 by {
        if i0 < 0 {
            if i == ms.len() {
                assert(!p(ms[j]));
            } else if j == ms.len() {
                assert(!p(ms[i]));
            }
        } else {
            if i == i0 {
                assert(ms[i0].0 == name);
            } else if j == i0 {
                assert(ms[i0].0 == name);
            }
        }
    }
}

/// Forgetting a module keeps the names of the loaded modules unique.
pub proof fn law_forget_keeps_names_unique(ms: Seq<(Seq<char>, ModuleId, Seq<char>)>, name: Seq<char>)
    requires
        names_unique(ms),
    ensures
        names_unique(spec_forget_module(ms, name)),
{
    let p = mod_key(name);
    let i0 = first_index(ms, p, 0);
    lemma_first_index(ms, p, 0);
    let f = spec_forget_module(ms, name);
    if i0 >= 0 && i0 < ms.len() - 1 {
        let last = ms.len() - 1;
        assert forall|i: int, j: int| 0 <= i < f.len() && 0 <= j < f.len() && i != j implies f[i].0
            != f[j].0 by {
            let si = if i == i0 {
                last
            } else {
                i
            };
            let sj = if j == i0 {
                last
            } else {
                j
            };
            assert(f[i] == ms[si] && f[j] == ms[sj]);
        }
    }
}

/// A forgotten module is not found by its name any more, when names are
/// unique.
pub proof fn law_forget_then_lookup(ms: Seq<(Seq<char>, ModuleId, Seq<char>)>, name: Seq<char>)
    requires
        names_unique(ms),
    ensures
        first_index(spec_forget_module(ms, name), mod_key(name), 0) == -1,
{
    let p = mod_key(name);
    let i0 = first_index(ms, p, 0);
    lemma_first_index(ms, p, 0);
    let f = spec_forget_module(ms, name);
    lemma_first_index(f, p, 0);
    if first_index(f, p, 0) >= 0 {
        let k = first_index(f, p, 0);
        if i0 < 0 {
            assert(!p(ms[k]));
        } else if i0 == ms.len() - 1 {
            assert(f[k] == ms[k]);
            assert(ms[k].0 == name && ms[i0].0 == name);
        } else if k == i0 {
            assert(f[k] == ms.last());
            assert(ms[ms.len() - 1].0 == name && ms[i0].0 == name);
        } else {
            assert(f[k] == ms[k]);
            assert(ms[k].0 == name && ms[i0].0 == name);
        }
    }
}

/// What loading a library takes.
#[derive(Debug)]
pub enum LoadLibraryPlan {
    /// Open the library at the path, read its metadata, record it, and keep
    /// it open unless only its metadata is wanted.
    ReadMeta { path: String, keep_open: bool },
    /// Open again the recorded library, closed after its metadata was read.
    Reopen { path: String },
    /// Nothing to do: the library is recorded, and open where it has to be.
    Loaded { path: String },
}

/// What loading a module by name takes.
#[derive(Debug)]
pub enum LoadModulePlan {
    /// It was loaded before: this is the module.
    Loaded(ModuleId),
    /// It is exported, under `name`, by the library at `path`, which is
    /// to be opened; its module is then recorded.
    Load { name: String, path: String },
}

impl LdConfig {
    /// The module loaded under the name.
    pub fn loaded_module(&self, name: &str) -> (res: Option<ModuleId>)
        ensures
            ({
                let i = first_index(self@.loaded_mods, mod_key(name@), 0);
                if i < 0 {
                    res is None
                } else {
                    res == Some(self@.loaded_mods[i].1)
                }
            }),
    {
        match self.mod_index(name) {
            Some(i) => Some(self.loaded_mods[i].1),
            None => None,
        }
    }

    fn mod_index(&self, name: &str) -> (res: Option<usize>)
        ensures
            match res {
                Some(i) => i < self.loaded_mods.len() && i as int == first_index(
                    self@.loaded_mods,
                    mod_key(name@),
                    0,
                ),
                None => first_index(self@.loaded_mods, mod_key(name@), 0) == -1,
            },
    {
        let ghost ms = self@.loaded_mods;
        for i in 0..self.loaded_mods.len()
            invariant
                ms == self@.loaded_mods,
                first_index(ms, mod_key(name@), 0) == first_index(ms, mod_key(name@), i as int),
        {
            assert(ms[i as int].0 == self.loaded_mods@[i as int].0@);
            if str_eq(self.loaded_mods[i].0.as_str(), name) {
                return Some(i);
            }
        }
        None
    }

    fn lib_index(&self, path: &str) -> (res: Option<usize>)
        ensures
            match res {
                Some(i) => i < self.loaded_libs.len() && i as int == first_index(
                    self@.loaded_libs,
                    lib_key(path@),
                    0,
                ),
                None => first_index(self@.loaded_libs, lib_key(path@), 0) == -1,
            },
    {
        let ghost ls = self@.loaded_libs;
        for i in 0..self.loaded_libs.len()
            invariant
                ls == self@.loaded_libs,
                first_index(ls, lib_key(path@), 0) == first_index(ls, lib_key(path@), i as int),
        {
            assert(ls[i as int].0 == self.loaded_libs@[i as int].0@);
            if str_eq(self.loaded_libs[i].0.as_str(), path) {
                return Some(i);
            }
        }
        None
    }

    /// Records the module loaded under the name from the library: a name
    /// recorded before keeps its place and takes the new module.
    pub fn record_module(&mut self, name: &str, module: ModuleId, lib_name: &str)
        ensures
            final(self).lib_metas() == old(self).lib_metas(),
            final(self)@ == (LdConfigView {
                loaded_mods: spec_record_module(old(self)@.loaded_mods, name@, module, lib_name@),
                ..old(self)@
            }),
    {
        let ghost old_v = self@;
        let entry = (name.to_owned(), module, lib_name.to_owned());
        match self.mod_index(name) {
            Some(i) => {
                self.loaded_mods.remove(i);
                self.loaded_mods.insert(i, entry);
                assert(self@.loaded_mods =~= old_v.loaded_mods.update(i as int, (name@, module, lib_name@)));
            },
            None => {
                self.loaded_mods.push(entry);
                assert(self@.loaded_mods =~= old_v.loaded_mods.push((name@, module, lib_name@)));
            },
        }
    }

    /// Forgets the module loaded under the name; the last one recorded
    /// takes its place.
    pub fn forget_module(&mut self, name: &str)
        ensures
            final(self).lib_metas() == old(self).lib_metas(),
            final(self)@ == (LdConfigView {
                loaded_mods: spec_forget_module(old(self)@.loaded_mods, name@),
                ..old(self)@
            }),
    {
        let ghost old_v = self@;
        match self.mod_index(name) {
            Some(i) => {
                let ghost ms = old_v.loaded_mods;
                self.loaded_mods.swap_remove(i);
                proof {
                    if i as int == ms.len() - 1 {
                        assert(self@.loaded_mods =~= ms.drop_last());
                    } else {
                        assert(self@.loaded_mods =~= ms.update(i as int, ms.last()).drop_last());
                    }
                }
            },
            None => {},
        }
    }

    /// The modules loaded from the library of the name, in order.
    pub fn modules_of_lib(&self, lib_name: &str) -> (res: Vec<(String, ModuleId)>)
        ensures
            res@.map_values(|e: (String, ModuleId)| (e.0@, e.1)) == self@.loaded_mods.filter(
                |m: (Seq<char>, ModuleId, Seq<char>)| m.2 == lib_name@,
            ).map_values(|m: (Seq<char>, ModuleId, Seq<char>)| (m.0, m.1)),
    {
        let ghost ms = self@.loaded_mods;
        let ghost f = |m: (Seq<char>, ModuleId, Seq<char>)| m.2 == lib_name@;
        let ghost g = |m: (Seq<char>, ModuleId, Seq<char>)| (m.0, m.1);
        let mut res: Vec<(String, ModuleId)> = Vec::new();
        for i in 0..self.loaded_mods.len()
            invariant
                ms == self@.loaded_mods,
                f == (|m: (Seq<char>, ModuleId, Seq<char>)| m.2 == lib_name@),
                g == (|m: (Seq<char>, ModuleId, Seq<char>)| (m.0, m.1)),
                res@.map_values(|e: (String, ModuleId)| (e.0@, e.1)) == ms.take(i as int).filter(
                    f,
                ).map_values(g),
        {
            reveal_with_fuel(Seq::filter, 1);
            assert(ms.take(i + 1).drop_last() =~= ms.take(i as int));
            assert(ms[i as int] == (self.loaded_mods@[i as int].0@, self.loaded_mods@[i as int].1, self.loaded_mods@[i as int].2@));
            if str_eq(self.loaded_mods[i].2.as_str(), lib_name) {
                let ghost old_res = res@;
                res.push((self.loaded_mods[i].0.clone(), self.loaded_mods[i].1));
                assert(res@.map_values(|e: (String, ModuleId)| (e.0@, e.1)) =~= old_res.map_values(
                    |e: (String, ModuleId)| (e.0@, e.1),
                ).push(g(ms[i as int])));
                assert(ms.take(i + 1).filter(f) == ms.take(i as int).filter(f).push(ms[i as int]));
                assert(ms.take(i + 1).filter(f).map_values(g) =~= ms.take(i as int).filter(f).map_values(
                    g,
                ).push(g(ms[i as int])));
            } else {
                assert(ms.take(i + 1).filter(f) == ms.take(i as int).filter(f));
            }
        }
        assert(ms.take(self.loaded_mods.len() as int) =~= ms);
        res
    }

    /// Whether a library is loaded, and if so whether it is open.
    pub fn library_state(&self, path: &str) -> (res: Option<bool>)
        ensures
            ({
                let i = first_index(self@.loaded_libs, lib_key(path@), 0);
                if i < 0 {
                    res is None
                } else {
                    res == Some(self@.loaded_libs[i].2)
                }
            }),
    {
        match self.lib_index(path) {
            Some(i) => Some(self.loaded_libs[i].1.open),
            None => None,
        }
    }

    /// Records a library loaded for the first time, with its metadata.
    pub fn record_library(&mut self, path: &str, meta: LdMeta, open: bool)
        requires
            first_index(old(self)@.loaded_libs, lib_key(path@), 0) == -1,
        ensures
            final(self)@ == (LdConfigView {
                loaded_libs: old(self)@.loaded_libs.push(
                    (path@, meta.mods@.map_values(|m: AppModuleMeta| meta_entry(m)), open, meta.lib@),
                ),
                ..old(self)@
            }),
            final(self).lib_metas() == old(self).lib_metas().push(meta.mods@),
    {
        let ghost old_v = self@;
        let ghost mods = meta.mods@.map_values(|m: AppModuleMeta| meta_entry(m));
        let ghost lib = meta.lib@;
        self.loaded_libs.push((path.to_owned(), LdItem { meta, open }));
        assert(self@.loaded_libs =~= old_v.loaded_libs.push((path@, mods, open, lib)));
    }

    /// Marks a loaded library open or closed. Returns whether it was open.
    pub fn set_open(&mut self, path: &str, open: bool) -> (res: bool)
        ensures
            final(self).lib_metas() == old(self).lib_metas(),
            ({
                let i = first_index(old(self)@.loaded_libs, lib_key(path@), 0);
                let ls = old(self)@.loaded_libs;
                res == (i >= 0 && ls[i].2) && final(self)@ == (LdConfigView {
                    loaded_libs: if i < 0 {
                        ls
                    } else {
                        ls.update(i, (ls[i].0, ls[i].1, open, ls[i].3))
                    },
                    ..old(self)@
                })
            }),
    {
        let ghost old_v = self@;
        match self.lib_index(path) {
            Some(i) => {
                let mut e = self.loaded_libs.remove(i);
                let was = e.1.open;
                e.1.open = open;
                self.loaded_libs.insert(i, e);
                assert(self@.loaded_libs =~= old_v.loaded_libs.update(
                    i as int,
                    (
                        old_v.loaded_libs[i as int].0,
                        old_v.loaded_libs[i as int].1,
                        open,
                        old_v.loaded_libs[i as int].3,
                    ),
                ));
                was
            },
            None => false,
        }
    }

    /// What loading a library takes, given whether a file is at its path:
    /// a library not recorded yet is read (an error names a missing path);
    /// a recorded one closed is opened again when more than its metadata
    /// is wanted.
    pub fn plan_load_library(&self, lib_name: &str, only_meta: bool, path_exists: bool) -> (res:
        Result<LoadLibraryPlan, AppError>)
        ensures
            ({
                let path = spec_lib_path(self@.lib_dir, lib_name@);
                let i = first_index(self@.loaded_libs, lib_key(path), 0);
                if i < 0 {
                    if path_exists {
                        res matches Ok(LoadLibraryPlan::ReadMeta { path: p, keep_open: k }) && p@
                            == path && k == !only_meta
                    } else {
                        res is Err && res->Err_0.message@ == "Library not found: "@ + path
                    }
                } else if !only_meta && !self@.loaded_libs[i].2 {
                    res matches Ok(LoadLibraryPlan::Reopen { path: p }) && p@ == path
                } else {
                    res matches Ok(LoadLibraryPlan::Loaded { path: p }) && p@ == path
                }
            }),
    {
        let path = self.get_lib_path(lib_name);
        match self.library_state(path.as_str()) {
            None => {
                if path_exists {
                    Ok(LoadLibraryPlan::ReadMeta { path, keep_open: !only_meta })
                } else {
                    let mut m = chars_of("Library not found: ");
                    append_chars(&mut m, &chars_of(path.as_str()));
                    Err(AppError { message: string_of(&m) })
                }
            },
            Some(open) => {
                if !only_meta && !open {
                    Ok(LoadLibraryPlan::Reopen { path })
                } else {
                    Ok(LoadLibraryPlan::Loaded { path })
                }
            },
        }
    }

    /// What loading the module of the name takes: the module loaded
    /// before, or the library that exports it; an error when no loaded
    /// library has it.
    pub fn plan_load_module(&self, module_name: &str) -> (res: Result<LoadModulePlan, AppError>)
        ensures
            ({
                let name = spec_module_name(module_name@);
                let i = first_index(self@.loaded_mods, mod_key(name), 0);
                let pe = mod_named(name);
                let li = first_index(
                    self@.loaded_libs,
                    lib_has(pe),
                    0,
                );
                if i >= 0 {
                    res matches Ok(LoadModulePlan::Loaded(m)) && m == self@.loaded_mods[i].1
                } else if li < 0 {
                    res is Err && res->Err_0.message@ == "Library not found for module: "@
                        + module_name@
                } else {
                    res matches Ok(LoadModulePlan::Load { name: n, path: p }) && n@ == name && p@
                        == self@.loaded_libs[li].0
                }
            }),
    {
        let name = self.get_module_name(module_name);
        if let Some(m) = self.loaded_module(name.as_str()) {
            return Ok(LoadModulePlan::Loaded(m));
        }
        match self.find_lib_by_module(name.as_str()) {
            Some(path) => Ok(LoadModulePlan::Load { name, path }),
            None => {
                let mut msg = chars_of("Library not found for module: ");
                append_chars(&mut msg, &chars_of(module_name));
                Err(AppError { message: string_of(&msg) })
            },
        }
    }
}

/// The views of `key=value` entries.
pub open spec fn entry_views(v: Seq<(String, String)>) -> Seq<(Seq<char>, Seq<char>)> {
    v.map_values(|p: (String, String)| (p.0@, p.1@))
}

/// The loader's settings and state as `key=value` entries.
pub open spec fn spec_ld_entries(v: LdConfigView) -> Seq<(Seq<char>, Seq<char>)> {
    seq![
        ("ld.path"@, v.lib_dir),
        ("ld.no_load"@, bool_text(v.no_load)),
        ("ld.load_libs"@, join(v.load_libs, ","@)),
        ("ld.load_mods"@, join(v.load_mods, ","@)),
    ] + v.loaded_libs.map_values(
        |l: (Seq<char>, Seq<(Seq<char>, ModuleId, Seq<Seq<char>>)>, bool, Seq<char>)| ("ld.loaded_libs"@, l.0),
    ) + v.loaded_mods.map_values(|m: (Seq<char>, ModuleId, Seq<char>)| ("ld.loaded_mods"@, m.0))
}

/// The text of a boolean.
pub fn bool_text_exec(b: bool) -> (res: String)
    ensures
        res@ == bool_text(b),
{
    if b {
        string_of(&chars_of("true"))
    } else {
        string_of(&chars_of("false"))
    }
}

impl LdConfig {
    /// The settings and state as `key=value` entries: the settings, then
    /// each loaded library, then each loaded module.
    pub fn iter_config(&self) -> (res: Vec<(String, String)>)
        ensures
            entry_views(res@) == spec_ld_entries(self@),
    {
        let ghost v = self@;
        let mut res: Vec<(String, String)> = Vec::new();
        res.push((string_of(&chars_of("ld.path")), self.lib_dir.clone()));
        res.push((string_of(&chars_of("ld.no_load")), bool_text_exec(self.no_load)));
        res.push((string_of(&chars_of("ld.load_libs")), strings_join(&self.load_libs, ",")));
        res.push((string_of(&chars_of("ld.load_mods")), strings_join(&self.load_mods, ",")));
        let ghost head = seq![
            ("ld.path"@, v.lib_dir),
            ("ld.no_load"@, bool_text(v.no_load)),
            ("ld.load_libs"@, join(v.load_libs, ","@)),
            ("ld.load_mods"@, join(v.load_mods, ","@)),
        ];
        assert(entry_views(res@) =~= head);
        let ghost libs = v.loaded_libs.map_values(
            |l: (Seq<char>, Seq<(Seq<char>, ModuleId, Seq<Seq<char>>)>, bool, Seq<char>)| ("ld.loaded_libs"@, l.0),
        );
        for i in 0..self.loaded_libs.len()
            invariant
                v == self@,
                libs == v.loaded_libs.map_values(
                    |l: (Seq<char>, Seq<(Seq<char>, ModuleId, Seq<Seq<char>>)>, bool, Seq<char>)|
                        ("ld.loaded_libs"@, l.0),
                ),
                entry_views(res@) == head + libs.take(i as int),
        {
            let key = string_of(&chars_of("ld.loaded_libs"));
            let path = self.loaded_libs[i].0.clone();
            let ghost old_res = res@;
            res.push((key, path));
            assert(v.loaded_libs[i as int].0 == self.loaded_libs@[i as int].0@);
            assert(entry_views(res@) =~= entry_views(old_res).push((key@, path@)));
            assert(libs.take(i + 1) =~= libs.take(i as int).push(libs[i as int]));
        }
        assert(libs.take(self.loaded_libs.len() as int) =~= libs);
        let ghost mods = v.loaded_mods.map_values(
            |m: (Seq<char>, ModuleId, Seq<char>)| ("ld.loaded_mods"@, m.0),
        );
        for i in 0..self.loaded_mods.len()
            invariant
                v == self@,
                mods == v.loaded_mods.map_values(
                    |m: (Seq<char>, ModuleId, Seq<char>)| ("ld.loaded_mods"@, m.0),
                ),
                entry_views(res@) == head + libs + mods.take(i as int),
        {
            let key = string_of(&chars_of("ld.loaded_mods"));
            let name = self.loaded_mods[i].0.clone();
            let ghost old_res = res@;
            res.push((key, name));
            assert(v.loaded_mods[i as int].0 == self.loaded_mods@[i as int].0@);
            assert(entry_views(res@) =~= entry_views(old_res).push((key@, name@)));
            assert(mods.take(i + 1) =~= mods.take(i as int).push(mods[i as int]));
        }
        assert(mods.take(self.loaded_mods.len() as int) =~= mods);
        res
    }
}

/// The index of the first module of the name.
fn find_meta(mods: &Vec<AppModuleMeta>, name: &str) -> (res: Option<usize>)
    ensures
        ({
            let mv = mods@.map_values(|m: AppModuleMeta| meta_entry(m));
            let pe = mod_named(name@);
            match res {
                Some(j) => j < mods.len() && j as int == first_index(mv, pe, 0),
                None => first_index(mv, pe, 0) == -1,
            }
        }),
{
    let ghost mv = mods@.map_values(|m: AppModuleMeta| meta_entry(m));
    let ghost pe = mod_named(name@);
    for j in 0..mods.len()
        invariant
            mv == mods@.map_values(|m: AppModuleMeta| meta_entry(m)),
            pe == (mod_named(name@)),
            first_index(mv, pe, 0) == first_index(mv, pe, j as int),
    {
        assert(mv[j as int] == meta_entry(mods@[j as int]));
        if str_eq(mods[j].name.as_str(), name) {
            return Some(j);
        }
    }
    None
}


// ---------------------------------------------------------------------
// What the loader does at boot and on its notifies
// ---------------------------------------------------------------------

/// What the loader does on a notify.
#[derive(Debug, Clone, Copy, PartialEq, Eq, Structural)]
pub enum LdNotify {
    ShowConfig,
    LoadModule,
    LoadLibrary,
    CloseLibrary,
    Nothing,
}

pub open spec fn spec_ld_notify(notify: Seq<char>) -> LdNotify {
    if notify == crate::modules::config_mod::NT_CONFIG_DISPLAY@ {
        LdNotify::ShowConfig
    } else if notify == NT_LD_LOAD_MODULE@ {
        LdNotify::LoadModule
    } else if notify == NT_LD_LOAD_LIBRARY@ {
        LdNotify::LoadLibrary
    } else if notify == NT_LD_CLOSE_LIBRARY@ {
        LdNotify::CloseLibrary
    } else {
        LdNotify::Nothing
    }
}

pub fn ld_notify(notify: &str) -> (res: LdNotify)
    ensures
        res == spec_ld_notify(notify@),
{
    if str_eq(notify, crate::modules::config_mod::NT_CONFIG_DISPLAY) {
        LdNotify::ShowConfig
    } else if str_eq(notify, NT_LD_LOAD_MODULE) {
        LdNotify::LoadModule
    } else if str_eq(notify, NT_LD_LOAD_LIBRARY) {
        LdNotify::LoadLibrary
    } else if str_eq(notify, NT_LD_CLOSE_LIBRARY) {
        LdNotify::CloseLibrary
    } else {
        LdNotify::Nothing
    }
}

impl LdConfig {
    /// The module that boot loads for the command, once the listed
    /// libraries and modules are loaded: none when loading is off or no
    /// command is given; else the module of a loaded library that runs
    /// the command, if any.
    pub fn boot_command_module(&self, cmd: &str) -> (res: Option<String>)
        ensures
            (self@.no_load || cmd@.len() == 0) ==> res is None,
            !self@.no_load && cmd@.len() > 0 ==> ({
                let libs = self@.loaded_libs;
                let pe = mod_with_cmd(cmd@);
                let i = first_index(libs, lib_has(pe), 0);
                if i < 0 {
                    res is None
                } else {
                    res is Some && res->Some_0@ == libs[i].1[first_index(libs[i].1, pe, 0)].0
                }
            }),
    {
        if self.no_load || cmd.unicode_len() == 0 {
            None
        } else {
            self.find_module_by_command(cmd)
        }
    }
}

} // verus!