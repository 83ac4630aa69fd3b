use crate::event::AppEvent;
use crate::handlers::ModuleId;
use crate::text::{chars_of, hex, hex_exec, lower_chars, replace, replace_exec, string_of, to_lower};
use vstd::prelude::*;

verus! {

/// What a module declares of itself: its name, the modules it depends on,
/// the notifies it sends and handles, the events it hooks, and the
/// commands it runs.
#[derive(Debug)]
pub struct AppModuleMeta {
    pub module: ModuleId,
    pub name: String,
    pub depends: Vec<ModuleId>,
    pub sends: Vec<String>,
    pub notifies: Vec<String>,
    pub hooks: Vec<(AppEvent, String)>,
    pub commands: Vec<String>,
}

/// The name without `MOD_`, in lower case.
pub open spec fn spec_name_short(name: Seq<char>) -> Seq<char> {
    to_lower(replace(name, "MOD_"@, Seq::empty()))
}

/// How `{:p}` shows an address.
pub open spec fn spec_pointer_text(addr: nat) -> Seq<char> {
    "0x"@ + hex(addr)
}

impl AppModuleMeta {
    /// The name without its `MOD_` prefix (or any `MOD_` in it), in lower
    /// case: `MOD_CMD` is `cmd`.
    pub fn name_short(&self) -> (res: String)
        ensures
            res@ == spec_name_short(self.name@),
    {
        let name = chars_of(self.name.as_str());
        let pat = chars_of("MOD_");
        let empty: Vec<char> = Vec::new();
        let replaced = replace_exec(&name, &pat, &empty);
        proof {
            assert(empty@ =~= Seq::<char>::empty());
        }
        string_of(&lower_chars(&replaced))
    }

    /// The metadata of a module that gives none: its address as its name,
    /// and nothing else.
    pub fn fallback(module: ModuleId) -> (res: Self)
        ensures
            res.module == module,
            res.name@ == spec_pointer_text(module as nat),
            res.depends@.len() == 0,
            res.sends@.len() == 0,
            res.notifies@.len() == 0,
            res.hooks@.len() == 0,
            res.commands@.len() == 0,
    {
        let mut name = chars_of("0x");
        let digits = hex_exec(module as u64);
        crate::text::append_chars(&mut name, &digits);
        AppModuleMeta {
            module,
            name: string_of(&name),
            depends: Vec::new(),
            sends: Vec::new(),
            notifies: Vec::new(),
            hooks: Vec::new(),
            commands: Vec::new(),
        }
    }

    /// The metadata of a module: what it answered to `META`, else the
    /// fallback that names it by its address.
    pub fn answered_or_fallback(answered: Option<AppModuleMeta>, module: ModuleId) -> (res: Self)
        ensures
            answered is Some ==> res == answered->Some_0,
            answered is None ==> res.module == module && res.name@ == spec_pointer_text(
                module as nat,
            ) && res.depends@.len() == 0 && res.sends@.len() == 0 && res.notifies@.len() == 0
                && res.hooks@.len() == 0 && res.commands@.len() == 0,
    {
        match answered {
            Some(m) => m,
            None => AppModuleMeta::fallback(module),
        }
    }

    /// Whether the module runs the command.
    pub fn has_command(&self, cmd: &str) -> (res: bool)
        ensures
            res == exists|i: int| 0 <= i < self.commands@.len() && self.commands@[i]@ == cmd@,
    {
        for i in 0..self.commands.len()
            invariant
                forall|j: int| 0 <= j < i ==> self.commands@[j]@ != cmd@,
        {
            if crate::text::str_eq(self.commands[i].as_str(), cmd) {
                return true;
            }
        }
        false
    }
}

fn copy_strings(v: &Vec<String>) -> (res: Vec<String>)
    ensures
        res@ == v@,
{
    let mut res: Vec<String> = Vec::new();
    for i in 0..v.len()
        invariant
            res@ == v@.take(i as int),
    {
        res.push(v[i].clone());
        assert(res@ =~= v@.take(i + 1));
    }
    assert(v@.take(v.len() as int) =~= v@);
    res
}

impl Clone for AppModuleMeta {
    /// A copy of every field.
    fn clone(&self) -> (res: Self)
        ensures
            res.module == self.module,
            res.name == self.name,
            res.depends@ == self.depends@,
            res.sends@ == self.sends@,
            res.notifies@ == self.notifies@,
            res.hooks@ == self.hooks@,
            res.commands@ == self.commands@,
    {
        let mut hooks: Vec<(AppEvent, String)> = Vec::new();
        for i in 0..self.hooks.len()
            invariant
                hooks@ == self.hooks@.take(i as int),
        {
            hooks.push((self.hooks[i].0, self.hooks[i].1.clone()));
            assert(hooks@ =~= self.hooks@.take(i + 1));
        }
        assert(self.hooks@.take(self.hooks.len() as int) =~= self.hooks@);
        let mut depends: Vec<ModuleId> = Vec::new();
        for i in 0..self.depends.len()
            invariant
                depends@ == self.depends@.take(i as int),
        {
            depends.push(self.depends[i]);
            assert(depends@ =~= self.depends@.take(i + 1));
        }
        assert(self.depends@.take(self.depends.len() as int) =~= self.depends@);
        AppModuleMeta {
            module: self.module,
            name: self.name.clone(),
            depends,
            sends: copy_strings(&self.sends),
            notifies: copy_strings(&self.notifies),
            hooks,
            commands: copy_strings(&self.commands),
        }
    }
}

/// The metadata of the modules of one library.
#[derive(Debug)]
pub struct LdMeta {
    pub lib: String,
    pub mods: Vec<AppModuleMeta>,
}

} // verus!
