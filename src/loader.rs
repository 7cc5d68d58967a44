//! The module loader: parses each source unit once, records its imports,
//! and orders modules so that every module follows the modules it imports.
use vstd::prelude::*;
use crate::ast::{Module, Stmt};
use crate::error::CompileError;
use crate::parser::{parse_source, parse_text, stmts_view, StmtV, PErr};
use crate::text::push_str;
use crate::codegen::wasm::{add_unique, add_unique_name};

verus! {

/// A module as names: its own and those it imports.
pub type ModuleView = (Seq<char>, Seq<Seq<char>>);

/// The texts of a list of strings.
pub open spec fn names_of(v: Seq<String>) -> Seq<Seq<char>> {
    v.map_values(|s: String| s@)
}

/// The loaded modules, in load order, and where to look for more. The host
/// reads files; the loader decides what to read and parses what it gets.
pub struct ModuleLoader {
    loaded_modules: Vec<Module>,
    search_paths: Vec<String>,
}

/// Some module placed before position `k` of `order` is the `m`-th import
/// of the module at position `k`.
pub open spec fn imported_before(ms: Seq<ModuleView>, order: Seq<int>, k: int, m: int) -> bool {
    exists|j: int| 0 <= j < k && ms[order[j]].0 == ms[order[k]].1[m]
}

/// `order` lists modules of `ms` by index, each once, every one after all
/// the modules it imports.
pub open spec fn dependency_order(ms: Seq<ModuleView>, order: Seq<int>) -> bool {
    &&& forall|k: int| 0 <= k < order.len() ==> 0 <= #[trigger] order[k] < ms.len()
    &&& forall|i: int, j: int| 0 <= i < j < order.len() ==> order[i] != order[j]
    &&& forall|k: int, m: int|
        0 <= k < order.len() && 0 <= m < ms[order[k]].1.len() ==> #[trigger] imported_before(ms, order, k, m)
}

/// The `m`-th import of module `i` names a placed module.
pub open spec fn import_ready(ms: Seq<ModuleView>, placed: Seq<bool>, i: int, m: int) -> bool {
    exists|j: int| 0 <= j < ms.len() && placed[j] && ms[j].0 == ms[i].1[m]
}

/// Some loaded module imports a module that is not loaded.
pub open spec fn import_missing(ms: Seq<ModuleView>) -> bool {
    exists|i: int, m: int| 0 <= i < ms.len() && 0 <= m < ms[i].1.len() && #[trigger] index_of(ms, ms[i].1[m]) is None
}

/// Module `i` imports some module marked in `u`.
pub open spec fn imports_into(ms: Seq<ModuleView>, u: Seq<bool>, i: int) -> bool {
    exists|m: int|
        #![trigger ms[i].1[m]]
        0 <= m < ms[i].1.len() && match index_of(ms, ms[i].1[m]) {
            Some(j) => u[j],
            None => false,
        }
}

/// Some non-empty set of modules each import a module of the set: in a
/// finite set this means the imports go round in a cycle.
pub open spec fn has_cycle(ms: Seq<ModuleView>) -> bool {
    exists|u: Seq<bool>|
        #![trigger u.len()]
        u.len() == ms.len() && (exists|i: int| 0 <= i < u.len() && u[i]) && forall|i: int|
            0 <= i < ms.len() && u[i] ==> #[trigger] imports_into(ms, u, i)
}

/// `o` is `i` as flattening keeps it: a function of a module other than
/// the root is named `prefix.function`; anything else is unchanged.
pub open spec fn renamed(o: Stmt, i: Stmt, prefix: Seq<char>, is_root: bool) -> bool {
    match i {
        Stmt::Function { name, params, return_type, body, exported } => match o {
            Stmt::Function { name: n2, params: p2, return_type: r2, body: b2, exported: e2 } => {
                &&& n2@ == if is_root { name@ } else { prefix + "."@ + name@ }
                &&& p2 == params
                &&& r2 == return_type
                &&& b2 == body
                &&& e2 == exported
            },
            _ => false,
        },
        _ => o == i,
    }
}

/// `out` is the statements `ss` of one module without its imports, each
/// kept as `renamed` states.
pub open spec fn flat_part(out: Seq<Stmt>, ss: Seq<Stmt>, prefix: Seq<char>, is_root: bool) -> bool
    decreases ss.len(),
{
    if ss.len() == 0 {
        out.len() == 0
    } else if ss.last() is Import {
        flat_part(out, ss.drop_last(), prefix, is_root)
    } else {
        out.len() > 0 && renamed(out.last(), ss.last(), prefix, is_root) && flat_part(
            out.drop_last(),
            ss.drop_last(),
            prefix,
            is_root,
        )
    }
}

/// `out` holds, module after module in `order`, what flattening keeps of
/// each module's statements `srcs`.
pub open spec fn flat_all(
    out: Seq<Stmt>,
    srcs: Seq<Seq<Stmt>>,
    ms: Seq<ModuleView>,
    order: Seq<int>,
    root: Seq<char>,
) -> bool
    decreases order.len(),
{
    if order.len() == 0 {
        out.len() == 0
    } else {
        exists|cut: int|
            #![trigger out.subrange(0, cut)]
            0 <= cut <= out.len() && flat_all(out.subrange(0, cut), srcs, ms, order.drop_last(), root)
                && flat_part(
                out.subrange(cut, out.len() as int),
                srcs[order.last()],
                ms[order.last()].0,
                ms[order.last()].0 == root,
            )
    }
}

/// The modules not placed yet.
pub open spec fn unplaced(placed: Seq<bool>) -> Seq<bool> {
    placed.map_values(|b: bool| !b)
}

/// How many modules are not placed yet.
pub open spec fn count_unplaced(placed: Seq<bool>) -> nat
    decreases placed.len(),
{
    if placed.len() == 0 {
        0
    } else {
        count_unplaced(placed.drop_last()) + if placed.last() {
            0nat
        } else {
            1nat
        }
    }
}

proof fn lemma_place(placed: Seq<bool>, i: int)
    requires
        0 <= i < placed.len(),
        !placed[i],
    ensures
        count_unplaced(placed.update(i, true)) < count_unplaced(placed),
    decreases placed.len(),
{
    let u = placed.update(i, true);
    if i < placed.len() - 1 {
        assert(u.drop_last() =~= placed.drop_last().update(i, true));
        lemma_place(placed.drop_last(), i);
    } else {
        assert(u.drop_last() =~= placed.drop_last());
    }
}

/// The modules that `ss` imports, in order.
pub open spec fn import_names(ss: Seq<Stmt>) -> Seq<Seq<char>>
    decreases ss.len(),
{
    if ss.len() == 0 {
        seq![]
    } else {
        import_names(ss.drop_last()) + match ss.last() {
            Stmt::Import(m) => seq![m@],
            _ => seq![],
        }
    }
}

/// Texts separated by `, `.
pub open spec fn joined(ps: Seq<Seq<char>>) -> Seq<char>
    decreases ps.len(),
{
    if ps.len() == 0 {
        seq![]
    } else if ps.len() == 1 {
        ps[0]
    } else {
        joined(ps.drop_last()) + ", "@ + ps.last()
    }
}

/// The index of the module named `name`.
pub open spec fn index_of(ms: Seq<ModuleView>, name: Seq<char>) -> Option<int>
    decreases ms.len(),
{
    if ms.len() == 0 {
        None
    } else if ms.last().0 == name {
        Some(ms.len() - 1)
    } else {
        index_of(ms.drop_last(), name)
    }
}

proof fn lemma_index_of(ms: Seq<ModuleView>, name: Seq<char>)
    ensures
        index_of(ms, name) matches Some(i) ==> 0 <= i < ms.len() && ms[i].0 == name,
        index_of(ms, name) is None ==> forall|i: int| 0 <= i < ms.len() ==> #[trigger] ms[i].0 != name,
    decreases ms.len(),
{
    if ms.len() > 0 {
        lemma_index_of(ms.drop_last(), name);
        if ms.last().0 != name && index_of(ms, name) is None {
            assert forall|i: int| 0 <= i < ms.len() implies #[trigger] ms[i].0 != name by {
                if i < ms.len() - 1 {
                    assert(ms[i] == ms.drop_last()[i]);
                }
            }
        }
    }
}

impl ModuleLoader {
    /// The loaded modules as names.
    pub closed spec fn modules(&self) -> Seq<ModuleView> {
        self.loaded_modules@.map_values(
            |m: Module| (m.name@, names_of(m.imports@)),
        )
    }

    /// The search paths, in order.
    pub closed spec fn paths(&self) -> Seq<Seq<char>> {
        names_of(self.search_paths@)
    }

    /// The statements kept for each loaded module, in load order.
    pub closed spec fn sources(&self) -> Seq<Seq<Stmt>> {
        self.loaded_modules@.map_values(|m: Module| m.statements@)
    }

    /// No module is loaded twice.
    pub closed spec fn wf(&self) -> bool {
        forall|i: int, j: int|
            0 <= i < j < self.modules().len() ==> (#[trigger] self.modules()[i]).0 != (
            #[trigger] self.modules()[j]).0
    }

    /// A loader with no modules, searching `.` then `./stdlib`.
    pub fn new() -> (r: Self)
        ensures
            r.wf(),
            r.modules().len() == 0,
            r.paths() == seq!["."@, "./stdlib"@],
    {
        let r = ModuleLoader {
            loaded_modules: Vec::new(),
            search_paths: vec![String::from_str("."), String::from_str("./stdlib")],
        };
        assert(r.paths() =~= seq!["."@, "./stdlib"@]);
        r
    }

    /// Adds a directory to search, after the others.
    pub fn add_search_path(&mut self, path: String)
        ensures
            final(self).paths() == old(self).paths().push(path@),
            final(self).modules() == old(self).modules(),
            final(self).wf() == old(self).wf(),
    {
        self.search_paths.push(path);
        assert(self.paths() =~= old(self).paths().push(path@));
    }

    /// The search paths, in order.
    pub fn search_paths(&self) -> (r: &Vec<String>)
        ensures
            names_of(r@) == self.paths(),
    {
        &self.search_paths
    }

    /// How many modules are loaded.
    pub fn module_count(&self) -> (r: usize)
        ensures
            r == self.modules().len(),
    {
        self.loaded_modules.len()
    }

    fn find(&self, name: &str) -> (r: Option<usize>)
        ensures
            r matches Some(i) ==> index_of(self.modules(), name@) == Some(i as int),
            r is None <==> index_of(self.modules(), name@) is None,
    {
        let mut i: usize = self.loaded_modules.len();
        assert(self.modules().subrange(0, i as int) =~= self.modules());
        while i > 0
            invariant
                i <= self.loaded_modules@.len(),
                index_of(self.modules(), name@) == index_of(self.modules().subrange(0, i as int), name@),
            decreases i,
        {
            assert(self.modules().subrange(0, i as int).drop_last() =~= self.modules().subrange(0, i - 1));
            assert(self.modules()[i - 1].0 == self.loaded_modules@[i - 1].name@);
            if crate::text::str_eq(self.loaded_modules[i - 1].name.as_str(), name) {
                return Some(i - 1);
            }
            i = i - 1;
        }
        None
    }

    /// Whether a module of this name is loaded.
    pub fn is_loaded(&self, name: &str) -> (r: bool)
        ensures
            r == (index_of(self.modules(), name@) is Some),
    {
        self.find(name).is_some()
    }

    /// The loaded module of this name.
    pub fn get_module(&self, name: &str) -> (r: Option<&Module>)
        ensures
            r is None <==> index_of(self.modules(), name@) is None,
            r matches Some(m) ==> m.name@ == name@,
    {
        proof {
            lemma_index_of(self.modules(), name@);
        }
        match self.find(name) {
            Some(i) => {
                assert(self.modules()[i as int] == (
                    self.loaded_modules@[i as int].name@,
                    names_of(self.loaded_modules@[i as int].imports@),
                ));
                assert(index_of(self.modules(), name@) == Some(i as int));
                assert(self.modules()[i as int].0 == name@);
                let m = &self.loaded_modules[i];
                assert(m.name@ == name@);
                Some(m)
            },
            None => None,
        }
    }

    /// The files that may hold module `name`: `<path>/<name>.ax` for each
    /// search path, in order.
    pub fn candidate_files(&self, name: &str) -> (r: Vec<String>)
        ensures
            r@.len() == self.paths().len(),
            forall|k: int|
                0 <= k < r@.len() ==> (#[trigger] r@[k])@ == self.paths()[k] + "/"@ + name@ + ".ax"@,
    {
        let mut out: Vec<String> = Vec::new();
        let mut k: usize = 0;
        while k < self.search_paths.len()
            invariant
                k <= self.search_paths@.len(),
                out@.len() == k,
                forall|j: int|
                    0 <= j < k ==> (#[trigger] out@[j])@ == self.paths()[j] + "/"@ + name@ + ".ax"@,
            decreases self.search_paths@.len() - k,
        {
            let mut f = self.search_paths[k].clone();
            push_str(&mut f, "/");
            push_str(&mut f, name);
            push_str(&mut f, ".ax");
            assert(f@ == self.paths()[k as int] + "/"@ + name@ + ".ax"@);
            out.push(f);
            k = k + 1;
        }
        out
    }

    /// The diagnostic for a module that no search path holds; its hint
    /// lists the paths searched.
    pub fn not_found_error(&self, name: &str) -> (r: CompileError)
        ensures
            r.message@ == "Module '"@ + name@ + "' not found in search paths"@,
            r.help matches Some(h) && h@ == "Searched for '"@ + name@ + ".ax' in: "@ + joined(self.paths()),
    {
        let mut msg = String::from_str("Module '");
        push_str(&mut msg, name);
        push_str(&mut msg, "' not found in search paths");
        let mut help = String::from_str("Searched for '");
        push_str(&mut help, name);
        push_str(&mut help, ".ax' in: ");
        let ghost head = help@;
        let mut k: usize = 0;
        while k < self.search_paths.len()
            invariant
                k <= self.search_paths@.len(),
                help@ == head + joined(self.paths().subrange(0, k as int)),
            decreases self.search_paths@.len() - k,
        {
            let ghost before = help@;
            if k > 0 {
                push_str(&mut help, ", ");
            }
            push_str(&mut help, self.search_paths[k].as_str());
            k = k + 1;
            assert(self.paths().subrange(0, k as int).drop_last() =~= self.paths().subrange(0, k - 1));
            assert(self.paths()[k - 1] == self.search_paths@[k - 1]@);
            assert(help@ =~= head + joined(self.paths().subrange(0, k as int)));
        }
        assert(self.paths().subrange(0, k as int) =~= self.paths());
        CompileError::new(msg.as_str(), 0, 0).help(help.as_str())
    }

    /// Parses `source` as module `name` and keeps its statements, with the
    /// names its `import` statements give, in order. A module already loaded
    /// stays as it is: the first load wins. A parse error is returned as it
    /// is, and nothing is kept.
    pub fn load_module(&mut self, name: &str, source: &str) -> (r: Result<(), CompileError>)
        requires
            old(self).wf(),
        ensures
            final(self).wf(),
            final(self).paths() == old(self).paths(),
            index_of(old(self).modules(), name@) is Some ==> final(self).modules() == old(self).modules()
                && final(self).sources() == old(self).sources() && r is Ok,
            index_of(old(self).modules(), name@) is None ==> (r is Ok <==> parse_text(source@) is Ok),
            index_of(old(self).modules(), name@) is None && r is Ok ==> parse_text(source@) == Ok::<
                Seq<StmtV>,
                PErr,
            >(stmts_view(final(self).sources().last())),
            index_of(old(self).modules(), name@) is None ==> match r {
                Ok(_) => final(self).modules().len() == old(self).modules().len() + 1
                    && final(self).modules().drop_last() == old(self).modules()
                    && final(self).sources().drop_last() == old(self).sources()
                    && final(self).modules().last().0 == name@
                    && final(self).modules().last().1 == import_names(final(self).sources().last())
                    && index_of(final(self).modules(), name@) == Some(old(self).modules().len() as int),
                Err(_) => final(self).modules() == old(self).modules() && final(self).sources() == old(self).sources(),
            },
    {
        if self.find(name).is_some() {
            return Ok(());
        }
        proof {
            lemma_index_of(self.modules(), name@);
        }
        let statements = parse_source(source)?;
        let mut imports: Vec<String> = Vec::new();
        let mut i: usize = 0;
        while i < statements.len()
            invariant
                i <= statements@.len(),
                names_of(imports@) == import_names(statements@.subrange(0, i as int)),
            decreases statements@.len() - i,
        {
            let ghost before_names = names_of(imports@);
            assert(statements@.subrange(0, i + 1).drop_last() =~= statements@.subrange(0, i as int));
            match &statements[i] {
                Stmt::Import(m) => {
                    imports.push(m.clone());
                    assert(names_of(imports@) =~= before_names.push(m@));
                },
                _ => {},
            }
            i = i + 1;
        }
        assert(statements@.subrange(0, i as int) =~= statements@);
        let ghost before = self.modules();
        let ghost before_sources = self.sources();
        self.loaded_modules.push(Module { name: name.to_owned(), imports, statements });
        assert(self.modules().drop_last() =~= before);
        assert(self.sources().drop_last() =~= before_sources);
        assert(self.wf()) by {
            assert forall|i: int, j: int| 0 <= i < j < self.modules().len() implies (
            #[trigger] self.modules()[i]).0 != (#[trigger] self.modules()[j]).0 by {
                if j == self.modules().len() - 1 {
                    assert(self.modules()[i] == before[i]);
                } else {
                    assert(self.modules()[i] == before[i]);
                    assert(self.modules()[j] == before[j]);
                }
            }
        }
        Ok(())
    }

    /// The modules that loaded modules import but that are not loaded yet,
    /// each once, in order of first mention.
    pub fn missing_imports(&self) -> (r: Vec<String>)
        ensures
            forall|k: int|
                0 <= k < r@.len() ==> index_of(self.modules(), #[trigger] names_of(r@)[k]) is None,
            forall|i: int, m: int|
                0 <= i < self.modules().len() && 0 <= m < self.modules()[i].1.len() && index_of(
                    self.modules(),
                    #[trigger] self.modules()[i].1[m],
                ) is None ==> names_of(r@).contains(self.modules()[i].1[m]),
    {
        let mut out: Vec<String> = Vec::new();
        let mut i: usize = 0;
        while i < self.loaded_modules.len()
            invariant
                i <= self.loaded_modules@.len(),
                forall|k: int|
                    0 <= k < out@.len() ==> index_of(self.modules(), #[trigger] names_of(out@)[k]) is None,
                forall|a: int, m: int|
                    0 <= a < i && 0 <= m < self.modules()[a].1.len() && index_of(
                        self.modules(),
                        #[trigger] self.modules()[a].1[m],
                    ) is None ==> names_of(out@).contains(self.modules()[a].1[m]),
            decreases self.loaded_modules@.len() - i,
        {
            let imports = &self.loaded_modules[i].imports;
            assert(self.modules()[i as int].1 == names_of(imports@));
            let mut m: usize = 0;
            while m < imports.len()
                invariant
                    i < self.loaded_modules@.len(),
                    imports@ == self.loaded_modules@[i as int].imports@,
                    self.modules()[i as int].1 == names_of(imports@),
                    m <= imports@.len(),
                    forall|k: int|
                        0 <= k < out@.len() ==> index_of(self.modules(), #[trigger] names_of(out@)[k]) is None,
                    forall|a: int, mm: int|
                        0 <= a < i && 0 <= mm < self.modules()[a].1.len() && index_of(
                            self.modules(),
                            #[trigger] self.modules()[a].1[mm],
                        ) is None ==> names_of(out@).contains(self.modules()[a].1[mm]),
                    forall|mm: int|
                        0 <= mm < m && index_of(self.modules(), #[trigger] self.modules()[i as int].1[mm])
                            is None ==> names_of(out@).contains(self.modules()[i as int].1[mm]),
                decreases imports@.len() - m,
            {
                let name = &imports[m];
                assert(self.modules()[i as int].1[m as int] == name@);
                if !self.is_loaded(name.as_str()) {
                    let ghost before = names_of(out@);
                    add_unique_name(&mut out, name);
                    proof {
                        let after = names_of(out@);
                        lemma_add_unique(before, name@);
                        assert forall|k: int| 0 <= k < out@.len() implies index_of(self.modules(), #[trigger] after[k]) is None by {
                            if k < before.len() {
                                assert(after[k] == before[k]);
                            }
                        }
                    }
                }
                m = m + 1;
            }
            i = i + 1;
        }
        out
    }

    fn cycle_error(&self, a: usize, b: usize) -> (r: CompileError)
        requires
            a < self.modules().len(),
            b < self.modules().len(),
    {
        let mut msg = String::from_str("Import cycle between modules '");
        push_str(&mut msg, self.loaded_modules[a].name.as_str());
        push_str(&mut msg, "' and '");
        push_str(&mut msg, self.loaded_modules[b].name.as_str());
        push_str(&mut msg, "'");
        CompileError::new(msg.as_str(), 0, 0).help("A module cannot import itself, directly or through other modules")
    }

    /// An order of the loaded modules, by index, in which every module
    /// follows the modules it imports; it holds `root`. Fails when `root`
    /// or an imported module is not loaded, and when modules import each
    /// other in a cycle.
    pub fn load_order(&self, root: &str) -> (r: Result<Vec<usize>, CompileError>)
        requires
            self.wf(),
        ensures
            r matches Ok(order) ==> dependency_order(self.modules(), order@.map_values(|i: usize| i as int))
                && exists|k: int| 0 <= k < order@.len() && self.modules()[order@[k] as int].0 == root@,
            index_of(self.modules(), root@) is None ==> r is Err,
            r is Err ==> index_of(self.modules(), root@) is None || import_missing(self.modules()) || has_cycle(
                self.modules(),
            ),
    {
        let ghost ms = self.modules();
        let n = self.loaded_modules.len();
        let root_idx = match self.find(root) {
            Some(i) => i,
            None => {
                return Err(self.not_found_error(root));
            },
        };
        proof {
            lemma_index_of(ms, root@);
        }
        let mut placed: Vec<bool> = Vec::new();
        let mut i: usize = 0;
        while i < n
            invariant
                n == ms.len(),
                i <= n,
                placed@.len() == i,
                forall|j: int| 0 <= j < i ==> !(#[trigger] placed@[j]),
            decreases n - i,
        {
            placed.push(false);
            i = i + 1;
        }
        let mut order: Vec<usize> = Vec::new();
        while !placed[root_idx]
            invariant
                ms == self.modules(),
                n == ms.len(),
                root_idx < n,
                ms[root_idx as int].0 == root@,
                placed@.len() == n,
                forall|k: int| 0 <= k < order@.len() ==> (#[trigger] order@[k]) < n && placed@[order@[k] as int],
                forall|j: int| 0 <= j < n && #[trigger] placed@[j] ==> exists|k: int| 0 <= k < order@.len() && order@[k] == j,
                dependency_order(ms, order@.map_values(|i: usize| i as int)),
            decreases count_unplaced(placed@),
        {
            let mut progress = false;
            let ghost c0 = count_unplaced(placed@);
            let ghost p0 = placed@;
            let mut i: usize = 0;
            while i < n
                invariant
                    ms == self.modules(),
                    n == ms.len(),
                    root_idx < n,
                    ms[root_idx as int].0 == root@,
                    i <= n,
                    placed@.len() == n,
                    count_unplaced(placed@) <= c0,
                    progress ==> count_unplaced(placed@) < c0,
                    !progress ==> placed@ == p0,
                    !p0[root_idx as int],
                    !progress ==> forall|a: int| 0 <= a < i && !placed@[a] ==> #[trigger] imports_into(ms, unplaced(placed@), a) || exists|m: int|
                        0 <= m < ms[a].1.len() && #[trigger] index_of(ms, ms[a].1[m]) is None,
                    forall|k: int| 0 <= k < order@.len() ==> (#[trigger] order@[k]) < n && placed@[order@[k] as int],
                    forall|j: int| 0 <= j < n && #[trigger] placed@[j] ==> exists|k: int| 0 <= k < order@.len() && order@[k] == j,
                    dependency_order(ms, order@.map_values(|i: usize| i as int)),
                decreases n - i,
            {
                if !placed[i] && self.imports_placed(i, &placed) {
                    proof {
                        lemma_order_grow(ms, order@, placed@, i as int);
                    }
                    let ghost old_order = order@;
                    proof {
                        lemma_place(placed@, i as int);
                    }
                    order.push(i);
                    placed.set(i, true);
                    assert(order@.map_values(|x: usize| x as int) =~= old_order.map_values(|x: usize| x as int).push(i as int));
                    assert forall|j: int| 0 <= j < n && #[trigger] placed@[j] implies exists|k: int| 0 <= k < order@.len() && order@[k] == j by {
                        if j == i {
                            assert(order@[order@.len() - 1] == j);
                        } else {
                            let k = choose|k: int| 0 <= k < old_order.len() && old_order[k] == j;
                            assert(order@[k] == j);
                        }
                    }
                    progress = true;
                } else if !placed[i] {
                    proof {
                        let u = unplaced(placed@);
                        let m = choose|m: int|
                            #![trigger ms[i as int].1[m]]
                            0 <= m < ms[i as int].1.len() && match index_of(ms, ms[i as int].1[m]) {
                                Some(j) => !placed@[j],
                                None => true,
                            };
                        lemma_index_of(ms, ms[i as int].1[m]);
                        match index_of(ms, ms[i as int].1[m]) {
                            Some(j) => {
                                assert(u[j]);
                                assert(imports_into(ms, u, i as int));
                            },
                            None => {},
                        }
                    }
                }
                i = i + 1;
            }
            if !progress {
                proof {
                    let u = unplaced(placed@);
                    if !import_missing(ms) {
                        assert forall|a: int| 0 <= a < ms.len() && u[a] implies #[trigger] imports_into(ms, u, a) by {
                            assert(!placed@[a]);
                            if !imports_into(ms, u, a) {
                                let m = choose|m: int| 0 <= m < ms[a].1.len() && #[trigger] index_of(ms, ms[a].1[m]) is None;
                                assert(import_missing(ms));
                            }
                        }
                        assert(u[root_idx as int] == !placed@[root_idx as int]);
                        assert(u[root_idx as int]);
                        assert(u.len() == ms.len());
                        assert(has_cycle(ms));
                    }
                }
                let mut a: usize = 0;
                while a < n
                    invariant
                        n == self.modules().len(),
                        ms == self.modules(),
                        import_missing(ms) || has_cycle(ms),
                        placed@.len() == n,
                        a <= n,
                    decreases n - a,
                {
                    if !placed[a] {
                        let imports = &self.loaded_modules[a].imports;
                        let mut m: usize = 0;
                        while m < imports.len()
                            invariant
                                n == self.modules().len(),
                                ms == self.modules(),
                                import_missing(ms) || has_cycle(ms),
                                placed@.len() == n,
                                a < n,
                                m <= imports@.len(),
                            decreases imports@.len() - m,
                        {
                            match self.find(imports[m].as_str()) {
                                Some(b) => {
                                    proof {
                                        lemma_index_of(self.modules(), imports@[m as int]@);
                                    }
                                    if !placed[b] {
                                        return Err(self.cycle_error(a, b));
                                    }
                                },
                                None => {
                                    return Err(self.not_found_error(imports[m].as_str()));
                                },
                            }
                            m = m + 1;
                        }
                    }
                    a = a + 1;
                }
                return Err(self.cycle_error(root_idx, root_idx));
            }
        }
        assert(placed@[root_idx as int]);
        assert(exists|k: int| 0 <= k < order@.len() && order@[k] == root_idx);
        let ghost j = choose|k: int| 0 <= k < order@.len() && order@[k] == root_idx;
        assert(self.modules()[order@[j] as int].0 == root@);
        assert(dependency_order(self.modules(), order@.map_values(|i: usize| i as int)));
        Ok(order)
    }

    /// Whether every module that module `i` imports is loaded and placed.
    fn imports_placed(&self, i: usize, placed: &Vec<bool>) -> (r: bool)
        requires
            i < self.modules().len(),
            placed@.len() == self.modules().len(),
        ensures
            r ==> forall|m: int|
                0 <= m < self.modules()[i as int].1.len() ==> #[trigger] import_ready(
                    self.modules(),
                    placed@,
                    i as int,
                    m,
                ),
            !r ==> exists|m: int|
                #![trigger self.modules()[i as int].1[m]]
                0 <= m < self.modules()[i as int].1.len() && match index_of(self.modules(), self.modules()[i as int].1[m]) {
                    Some(j) => !placed@[j],
                    None => true,
                },
    {
        let imports = &self.loaded_modules[i].imports;
        assert(self.modules()[i as int].1 == names_of(imports@));
        let mut m: usize = 0;
        while m < imports.len()
            invariant
                i < self.modules().len(),
                placed@.len() == self.modules().len(),
                self.modules()[i as int].1 == names_of(imports@),
                m <= imports@.len(),
                forall|mm: int| 0 <= mm < m ==> #[trigger] import_ready(self.modules(), placed@, i as int, mm),
            decreases imports@.len() - m,
        {
            match self.find(imports[m].as_str()) {
                Some(j) => {
                    proof {
                        lemma_index_of(self.modules(), imports@[m as int]@);
                    }
                    if !placed[j] {
                        assert(self.modules()[i as int].1[m as int] == imports@[m as int]@);
                        return false;
                    }
                    assert(self.modules()[j as int].0 == self.modules()[i as int].1[m as int]);
                    assert(placed@[j as int]);
                    assert(import_ready(self.modules(), placed@, i as int, m as int));
                },
                None => {
                    assert(self.modules()[i as int].1[m as int] == imports@[m as int]@);
                    return false;
                },
            }
            m = m + 1;
        }
        assert(self.modules()[i as int].1.len() == imports@.len());
        true
    }

    /// The statements of all loaded modules, each module after those it
    /// imports; imports are dropped, and a function of a module other than
    /// `root` is named `module.function`, as calls into it are. The loader
    /// is left empty of statements.
    pub fn flatten(&mut self, root: &str) -> (r: Result<Vec<Stmt>, CompileError>)
        requires
            old(self).wf(),
        ensures
            r is Err ==> index_of(old(self).modules(), root@) is None || import_missing(old(self).modules())
                || has_cycle(old(self).modules()),
            r matches Ok(out) ==> exists|order: Seq<int>|
                #[trigger] dependency_order(old(self).modules(), order) && flat_all(
                    out@,
                    old(self).sources(),
                    old(self).modules(),
                    order,
                    root@,
                ) && exists|k: int| 0 <= k < order.len() && old(self).modules()[order[k]].0 == root@,
    {
        let ghost ms = self.modules();
        let ghost srcs = self.sources();
        let order = self.load_order(root)?;
        let ghost ord = order@.map_values(|i: usize| i as int);
        assert forall|j: int| 0 <= j < order@.len() implies (#[trigger] order@[j]) < self.loaded_modules@.len() by {
            assert(ord[j] == order@[j] as int);
        }
        let mut out: Vec<Stmt> = Vec::new();
        let mut k: usize = 0;
        assert(ord.subrange(0, 0) =~= Seq::<int>::empty());
        while k < order.len()
            invariant
                self.loaded_modules@.len() == ms.len(),
                self.modules() == ms,
                srcs.len() == ms.len(),
                ord == order@.map_values(|i: usize| i as int),
                dependency_order(ms, ord),
                k <= order@.len(),
                forall|j: int| 0 <= j < order@.len() ==> (#[trigger] order@[j]) < self.loaded_modules@.len(),
                forall|j: int|
                    0 <= j < ms.len() && (forall|kk: int| 0 <= kk < k ==> order@[kk] != j) ==> #[trigger] self.sources()[j]
                        == srcs[j],
                flat_all(out@, srcs, ms, ord.subrange(0, k as int), root@),
            decreases order@.len() - k,
        {
            let idx = order[k];
            assert(ord[k as int] == idx as int);
            assert(forall|kk: int| 0 <= kk < k ==> order@[kk] != idx) by {
                assert forall|kk: int| 0 <= kk < k implies order@[kk] != idx by {
                    assert(ord[kk] != ord[k as int]);
                }
            }
            assert(self.sources()[idx as int] == srcs[idx as int]);
            let ghost before_mods = self.loaded_modules@;
            let ghost src0 = self.sources();
            let mut stmts: Vec<Stmt> = Vec::new();
            std::mem::swap(&mut stmts, &mut self.loaded_modules[idx].statements);
            assert(stmts@ == srcs[idx as int]);
            assert(self.modules() =~= ms) by {
                assert forall|j: int| 0 <= j < ms.len() implies self.modules()[j] == ms[j] by {
                    assert(self.loaded_modules@[j].name == before_mods[j].name);
                    assert(self.loaded_modules@[j].imports == before_mods[j].imports);
                }
            }
            let is_root = crate::text::str_eq(self.loaded_modules[idx].name.as_str(), root);
            let prefix = self.loaded_modules[idx].name.clone();
            assert(prefix@ == ms[idx as int].0);
            let ghost ss = stmts@;
            assert(ss.len() == stmts.len());
            let mut taken: Vec<Stmt> = Vec::new();
            let mut c: usize = 0;
            while stmts.len() > 0
                invariant
                    c <= ss.len(),
                    ss.len() <= usize::MAX,
                    stmts@ == ss.subrange(c as int, ss.len() as int),
                    flat_part(taken@, ss.subrange(0, c as int), prefix@, is_root),
                decreases stmts@.len(),
            {
                assert(c < ss.len());
                let st = stmts.remove(0);
                assert(st == ss[c as int]);
                assert(ss.subrange(0, c + 1).drop_last() =~= ss.subrange(0, c as int));
                let ghost before_taken = taken@;
                match st {
                    Stmt::Import(_) => {},
                    Stmt::Function { name, params, return_type, body, exported } => {
                        let name = if is_root {
                            name
                        } else {
                            let mut q = prefix.clone();
                            push_str(&mut q, ".");
                            push_str(&mut q, name.as_str());
                            q
                        };
                        taken.push(Stmt::Function { name, params, return_type, body, exported });
                        assert(taken@.drop_last() =~= before_taken);
                    },
                    other => {
                        taken.push(other);
                        assert(taken@.drop_last() =~= before_taken);
                    },
                }
                c = c + 1;
                assert(stmts@ =~= ss.subrange(c as int, ss.len() as int));
            }
            assert(ss.subrange(0, c as int) =~= ss);
            let ghost prev_out = out@;
            let ghost part = taken@;
            out.append(&mut taken);
            proof {
                let o2 = ord.subrange(0, k + 1);
                assert(o2.drop_last() =~= ord.subrange(0, k as int));
                assert(o2.last() == idx as int);
                assert(out@.subrange(0, prev_out.len() as int) =~= prev_out);
                assert(out@.subrange(prev_out.len() as int, out@.len() as int) =~= part);
                assert(is_root == (ms[idx as int].0 == root@));
            }
            assert forall|j: int|
                0 <= j < ms.len() && (forall|kk: int| 0 <= kk < k + 1 ==> order@[kk] != j) implies #[trigger] self.sources()[j]
                    == srcs[j] by {
                assert(order@[k as int] != j);
                assert(j != idx as int);
                assert(self.loaded_modules@[j] == before_mods[j]);
                assert(self.sources()[j] == self.loaded_modules@[j].statements@);
                assert(forall|kk: int| 0 <= kk < k ==> order@[kk] != j);
                assert(src0[j] == srcs[j]);
                assert(src0[j] == before_mods[j].statements@);
            }
            k = k + 1;
        }
        assert(ord.subrange(0, k as int) =~= ord);
        proof {
            let kr = choose|kk: int| 0 <= kk < order@.len() && ms[order@[kk] as int].0 == root@;
            assert(ord[kr] == order@[kr] as int);
            assert(dependency_order(ms, ord) && flat_all(out@, srcs, ms, ord, root@) && exists|kk: int|
                0 <= kk < ord.len() && ms[ord[kk]].0 == root@);
        }
        Ok(out)
    }
}

proof fn lemma_add_unique(keys: Seq<Seq<char>>, s: Seq<char>)
    ensures
        add_unique(keys, s).contains(s),
        forall|x: Seq<char>| keys.contains(x) ==> #[trigger] add_unique(keys, s).contains(x),
        add_unique(keys, s).len() >= keys.len(),
        forall|k: int| 0 <= k < keys.len() ==> #[trigger] add_unique(keys, s)[k] == keys[k],
        add_unique(keys, s).len() > keys.len() ==> add_unique(keys, s).last() == s,
{
    if !keys.contains(s) {
        assert(keys.push(s)[keys.len() as int] == s);
        assert forall|x: Seq<char>| keys.contains(x) implies #[trigger] add_unique(keys, s).contains(x) by {
            let k = choose|k: int| 0 <= k < keys.len() && keys[k] == x;
            assert(keys.push(s)[k] == x);
        }
    }
}


proof fn lemma_order_grow(ms: Seq<ModuleView>, order: Seq<usize>, placed: Seq<bool>, i: int)
    requires
        dependency_order(ms, order.map_values(|x: usize| x as int)),
        0 <= i < ms.len(),
        placed.len() == ms.len(),
        !placed[i],
        forall|k: int| 0 <= k < order.len() ==> (#[trigger] order[k]) < ms.len() && placed[order[k] as int],
        forall|j: int| 0 <= j < ms.len() && #[trigger] placed[j] ==> exists|k: int| 0 <= k < order.len() && order[k] == j,
        forall|m: int| 0 <= m < ms[i].1.len() ==> #[trigger] import_ready(ms, placed, i, m),
    ensures
        dependency_order(ms, order.map_values(|x: usize| x as int).push(i)),
{
    let o = order.map_values(|x: usize| x as int);
    let o2 = o.push(i);
    assert forall|k: int| 0 <= k < o2.len() implies 0 <= #[trigger] o2[k] < ms.len() by {
        if k < o.len() {
            assert(o2[k] == order[k] as int);
        }
    }
    assert forall|a: int, b: int| 0 <= a < b < o2.len() implies o2[a] != o2[b] by {
        if b == o.len() {
            assert(o2[a] == order[a] as int);
            assert(placed[order[a] as int]);
        } else {
            assert(o2[a] == o[a] && o2[b] == o[b]);
        }
    }
    assert forall|k: int, m: int|
        0 <= k < o2.len() && 0 <= m < ms[o2[k]].1.len() implies #[trigger] imported_before(ms, o2, k, m) by {
        if k < o.len() {
            assert(o2[k] == o[k]);
            assert(imported_before(ms, o, k, m));
            let j = choose|j: int| 0 <= j < k && ms[o[j]].0 == ms[o[k]].1[m];
            assert(o2[j] == o[j]);
        } else {
            assert(o2[k] == i);
            assert(import_ready(ms, placed, i, m));
            let jj = choose|j: int| 0 <= j < ms.len() && placed[j] && ms[j].0 == ms[i].1[m];
            let p = choose|p: int| 0 <= p < order.len() && order[p] == jj;
            assert(o2[p] == jj);
            assert(ms[o2[p]].0 == ms[o2[k]].1[m]);
        }
    }
}

} // verus!
