//! Resolving `require`: the files a module is looked for in, what a call does next, the
//! modules already loaded, and the directories of the modules being loaded.
use std::collections::HashMap;
use vstd::prelude::*;
use crate::script_api::{get_by_text, has_text_key, insert_by_text, stored_at_text, text_reads};
use crate::text::{chars_of, push_char};

verus! {

broadcast use vstd::std_specs::hash::group_hash_axioms;

/// Whether `s` holds the character `c`.
pub open spec fn has_char(s: Seq<char>, c: char) -> bool {
    exists|i: int| 0 <= i < s.len() && s[i] == c
}

/// The path, relative to a script directory, of the module that `require` loads: a name
/// holding `/` or `\` is a path already; in any other name each `.` separates directories.
pub open spec fn module_path_spec(name: Seq<char>) -> Seq<char> {
    if has_char(name, '/') || has_char(name, '\\') {
        name
    } else {
        name.map_values(|c: char| if c == '.' { '/' } else { c })
    }
}

/// The relative path of a required module (see `module_path_spec`).
pub fn module_relative_path(name: &str) -> (res: String)
    ensures
        res@ == module_path_spec(name@),
{
    let cs = chars_of(name);
    let mut has_sep = false;
    let mut i: usize = 0;
    while i < cs.len()
        invariant
            i <= cs@.len(),
            cs@ == name@,
            has_sep == (exists|j: int| 0 <= j < i && (cs@[j] == '/' || cs@[j] == '\\')),
        decreases cs@.len() - i,
    {
        if cs[i] == '/' || cs[i] == '\\' {
            has_sep = true;
        }
        i = i + 1;
    }
    assert(has_sep == (has_char(name@, '/') || has_char(name@, '\\'))) by {
        if has_char(name@, '/') {
            let j = choose|j: int| 0 <= j < name@.len() && name@[j] == '/';
            assert(cs@[j] == '/');
        }
        if has_char(name@, '\\') {
            let j = choose|j: int| 0 <= j < name@.len() && name@[j] == '\\';
            assert(cs@[j] == '\\');
        }
    }
    let mut out = String::new();
    let mut j: usize = 0;
    while j < cs.len()
        invariant
            j <= cs@.len(),
            cs@ == name@,
            has_sep == (has_char(name@, '/') || has_char(name@, '\\')),
            out@ == module_path_spec(name@).take(j as int),
            module_path_spec(name@).len() == name@.len(),
        decreases cs@.len() - j,
    {
        let c = cs[j];
        let d = if !has_sep && c == '.' {
            '/'
        } else {
            c
        };
        push_char(&mut out, d);
        assert(module_path_spec(name@).take(j + 1) =~= module_path_spec(name@).take(j as int).push(d));
        j = j + 1;
    }
    assert(module_path_spec(name@).take(j as int) =~= module_path_spec(name@));
    out
}

/// The files tried for module `name`, in order, each as a directory and a path relative to
/// it: `<p>.lua`, then `<p>/init.lua` (with `p` the module's path), first under the
/// directory of the module being loaded, where there is one, then under the script
/// directory.
pub open spec fn candidates_spec(
    name: Seq<char>,
    current_dir: Option<Seq<char>>,
    script_dir: Seq<char>,
) -> Seq<(Seq<char>, Seq<char>)> {
    let p = module_path_spec(name);
    let in_script = seq![(script_dir, p + ".lua"@), (script_dir, p + "/init.lua"@)];
    match current_dir {
        Some(d) => seq![(d, p + ".lua"@), (d, p + "/init.lua"@)] + in_script,
        None => in_script,
    }
}

/// The text of a directory that may be absent.
pub open spec fn dir_view(dir: Option<&str>) -> Option<Seq<char>> {
    match dir {
        Some(d) => Some(d@),
        None => None,
    }
}

fn joined(a: &str, b: &str) -> (res: String)
    ensures
        res@ == a@ + b@,
{
    let mut s = String::from_str(a);
    s.append(b);
    s
}

/// The files `require` tries for module `name` (see `candidates_spec`).
pub fn require_candidates(name: &str, current_dir: Option<&str>, script_dir: &str) -> (res: Vec<(String, String)>)
    ensures
        res.deep_view() == candidates_spec(name@, dir_view(current_dir), script_dir@),
{
    let p = module_relative_path(name);
    let mut out: Vec<(String, String)> = Vec::new();
    match current_dir {
        Some(d) => {
            out.push((String::from_str(d), joined(p.as_str(), ".lua")));
            out.push((String::from_str(d), joined(p.as_str(), "/init.lua")));
        },
        None => {},
    }
    out.push((String::from_str(script_dir), joined(p.as_str(), ".lua")));
    out.push((String::from_str(script_dir), joined(p.as_str(), "/init.lua")));
    assert(out.deep_view() =~= candidates_spec(name@, dir_view(current_dir), script_dir@));
    out
}

/// What a call of `require` does next.
pub enum RequireAction {
    /// Answer the module already loaded under that name.
    Cached,
    /// Answer the global table or function of that name, and keep it as loaded.
    Global,
    /// Load the file of the candidate with this index.
    Load { candidate: usize },
    /// Fail with this message.
    NotFound { message: String },
}

/// The message of a `require` whose module is found nowhere.
pub open spec fn not_found_spec(name: Seq<char>) -> Seq<char> {
    "module '"@ + name + "' not found"@
}

/// The next step of `require(name)`: a module already loaded first, then a global table or
/// function of that name, then the first candidate file found (`found`, its index), else
/// the not-found error.
pub fn require_step(cached: bool, global_is_table_or_function: bool, found: Option<usize>, name: &str) -> (res: RequireAction)
    ensures
        cached ==> res is Cached,
        !cached && global_is_table_or_function ==> res is Global,
        !cached && !global_is_table_or_function && found is Some ==> (res matches RequireAction::Load { candidate } && candidate == found->0),
        !cached && !global_is_table_or_function && found is None ==> (res matches RequireAction::NotFound { message } && message@ == not_found_spec(name@)),
{
    if cached {
        RequireAction::Cached
    } else if global_is_table_or_function {
        RequireAction::Global
    } else {
        match found {
            Some(i) => RequireAction::Load { candidate: i },
            None => {
                let message = joined(joined("module '", name).as_str(), "' not found");
                RequireAction::NotFound { message }
            },
        }
    }
}

/// What `require` keeps for a loaded module: the value it returned, or `true` where it
/// returned nothing (`nil`).
pub enum ModuleValue<T> {
    Value(T),
    True,
}

/// What is kept for a module that returned `result` (`None` standing for `nil`).
pub open spec fn module_value_spec<T>(result: Option<T>) -> ModuleValue<T> {
    match result {
        Some(v) => ModuleValue::Value(v),
        None => ModuleValue::True,
    }
}

/// What is kept, and answered, for a module that returned `result`.
pub fn module_value<T>(result: Option<T>) -> (res: ModuleValue<T>)
    ensures
        res == module_value_spec(result),
{
    match result {
        Some(v) => ModuleValue::Value(v),
        None => ModuleValue::True,
    }
}

/// The modules that `require` has loaded, by name.
pub struct ModuleCache<T> {
    modules: HashMap<String, ModuleValue<T>>,
}

impl<T> View for ModuleCache<T> {
    type V = Map<String, ModuleValue<T>>;

    closed spec fn view(&self) -> Map<String, ModuleValue<T>> {
        self.modules@
    }
}

impl<T> ModuleCache<T> {
    /// No module loaded.
    pub fn new() -> (res: Self)
        ensures
            res@ == Map::<String, ModuleValue<T>>::empty(),
    {
        ModuleCache { modules: HashMap::new() }
    }

    /// What was kept for module `name`, if it was loaded.
    pub fn get(&self, name: &str) -> (res: Option<&ModuleValue<T>>)
        ensures
            match res {
                Some(v) => text_reads(self@, name@, *v),
                None => !has_text_key(self@, name@),
            },
    {
        get_by_text(&self.modules, name)
    }

    /// Keeps what module `name` returned: its value, or `true` for `nil`.
    pub fn store(&mut self, name: String, result: Option<T>)
        ensures
            stored_at_text(old(self)@, final(self)@, name, module_value_spec(result)),
    {
        let v = module_value(result);
        insert_by_text(&mut self.modules, name, v);
    }
}

/// The directories of the modules being loaded, innermost last; the script directory at the
/// bottom.
pub struct ModuleDirs {
    stack: Vec<String>,
}

impl View for ModuleDirs {
    type V = Seq<Seq<char>>;

    closed spec fn view(&self) -> Seq<Seq<char>> {
        self.stack@.map_values(|d: String| d@)
    }
}

impl ModuleDirs {
    /// Only the script directory.
    pub fn new(script_dir: String) -> (res: Self)
        ensures
            res@ == seq![script_dir@],
    {
        let mut stack = Vec::new();
        stack.push(script_dir);
        let res = ModuleDirs { stack };
        assert(res@ =~= seq![script_dir@]);
        res
    }

    /// The directory of the module being loaded (the innermost one), if any.
    pub fn current(&self) -> (res: Option<&str>)
        ensures
            match res {
                Some(d) => self@.len() > 0 && d@ == self@.last(),
                None => self@.len() == 0,
            },
    {
        let n = self.stack.len();
        if n == 0 {
            None
        } else {
            Some(self.stack[n - 1].as_str())
        }
    }

    /// Enters the directory of a module about to be loaded.
    pub fn enter(&mut self, dir: String)
        ensures
            final(self)@ == old(self)@.push(dir@),
    {
        self.stack.push(dir);
        assert(self@ =~= old(self)@.push(dir@));
    }

    /// Leaves the directory of the module just loaded.
    pub fn leave(&mut self)
        ensures
            final(self)@ == (if old(self)@.len() == 0 {
                old(self)@
            } else {
                old(self)@.drop_last()
            }),
    {
        if self.stack.len() > 0 {
            self.stack.pop();
            assert(self@ =~= old(self)@.drop_last());
        }
    }
}

/// Loading a module leaves the directories as they were: leaving undoes entering.
pub proof fn lemma_leave_undoes_enter(dirs: Seq<Seq<char>>, dir: Seq<char>)
    ensures
        dirs.push(dir).len() > 0,
        dirs.push(dir).drop_last() == dirs,
{
    assert(dirs.push(dir).drop_last() =~= dirs);
}

} // verus!
