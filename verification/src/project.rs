//! A project is the union of all `.surf` files discovered under a root,
//! grouped by their `module` header.

use vstd::prelude::*;
use indexmap::IndexMap;
use crate::decl::{Decl, ModuleFile};
use crate::ident::QualifiedName;
use crate::span::{FileId, FileRegistry};
use crate::diagnostic::lemma_concat_map_append;
use crate::index_map::{module_entries, key_index, lemma_key_index, lemma_key_index_same_keys, modules_new, modules_get_index_of, modules_insert};

verus! {

#[derive(Debug)]
pub struct Project {
    pub files: FileRegistry,
    pub modules: IndexMap<String, ModuleAggregate>,
}

/// Every declaration of one module, gathered from all of its files.
#[derive(Debug)]
pub struct ModuleAggregate {
    pub name: QualifiedName,
    pub private: bool,
    pub files: Vec<FileId>,
    pub decls: Vec<Decl>,
}

impl ModuleAggregate {
    pub fn new(name: QualifiedName) -> (r: ModuleAggregate)
        ensures
            r.name == name,
            !r.private,
            r.files@.len() == 0,
            r.decls@.len() == 0,
    {
        ModuleAggregate { name, private: false, files: Vec::new(), decls: Vec::new() }
    }
}

/// A module aggregate with the given name, privacy, files and
/// declarations.
pub open spec fn aggregate_is(a: ModuleAggregate, name: QualifiedName, private: bool, files: Seq<FileId>, decls: Seq<Decl>) -> bool {
    &&& a.name == name
    &&& a.private == private
    &&& a.files@ == files
    &&& a.decls@ == decls
}

/// The content of a module aggregate.
pub struct ModuleView {
    pub name: QualifiedName,
    pub private: bool,
    pub files: Seq<FileId>,
    pub decls: Seq<Decl>,
}

impl View for ModuleAggregate {
    type V = ModuleView;

    open spec fn view(&self) -> ModuleView {
        ModuleView { name: self.name, private: self.private, files: self.files@, decls: self.decls@ }
    }
}

/// The module table as keys with module contents, in first-seen order.
pub open spec fn module_views(m: IndexMap<String, ModuleAggregate>) -> Seq<(Seq<char>, ModuleView)> {
    module_entries(m).map_values(|e: (Seq<char>, ModuleAggregate)| (e.0, e.1@))
}

/// The module table after adding one parsed file: a module seen before
/// keeps its place, becomes private if the file's header is, and gains
/// the file and its declarations; a new module goes last.
pub open spec fn spec_ingest(before: Seq<(Seq<char>, ModuleView)>, file: FileId, parsed: ModuleFile) -> Seq<(Seq<char>, ModuleView)> {
    let key = parsed.header.name.spec_dotted();
    match key_index(before, key) {
        Some(i) => before.update(i, (key, ModuleView {
            name: before[i].1.name,
            private: before[i].1.private || parsed.header.private,
            files: before[i].1.files.push(file),
            decls: before[i].1.decls + parsed.decls@,
        })),
        None => before.push((key, ModuleView {
            name: parsed.header.name,
            private: parsed.header.private,
            files: seq![file],
            decls: parsed.decls@,
        })),
    }
}

/// The module table after adding each parsed file in turn.
pub open spec fn ingest_all(start: Seq<(Seq<char>, ModuleView)>, parsed: Seq<(FileId, ModuleFile)>) -> Seq<(Seq<char>, ModuleView)>
    decreases parsed.len(),
{
    if parsed.len() == 0 {
        start
    } else {
        spec_ingest(ingest_all(start, parsed.drop_last()), parsed.last().0, parsed.last().1)
    }
}

impl Project {
    /// The modules in first-seen order.
    pub open spec fn spec_modules(&self) -> Seq<ModuleAggregate> {
        module_entries(self.modules).map_values(|e: (Seq<char>, ModuleAggregate)| e.1)
    }

    pub fn new() -> (r: Project)
        ensures
            module_entries(r.modules).len() == 0,
            r.files.spec_entries().len() == 0,
    {
        Project { files: FileRegistry::new(), modules: modules_new() }
    }

    /// Add one parsed file to the module it declares. A module seen for
    /// the first time is appended; otherwise its entry keeps its place,
    /// becomes private if this file's header is, and gains the file id
    /// and the file's declarations at the end.
    pub fn ingest_file(&mut self, file: FileId, parsed: ModuleFile)
        ensures
            final(self).files == old(self).files,
            module_views(final(self).modules) == spec_ingest(module_views(old(self).modules), file, parsed),
            module_entries(final(self).modules).len() == match key_index(module_entries(old(self).modules), parsed.header.name.spec_dotted()) {
                Some(_) => module_entries(old(self).modules).len(),
                None => module_entries(old(self).modules).len() + 1,
            },
            ({
                let before = module_entries(old(self).modules);
                let after = module_entries(final(self).modules);
                let key = parsed.header.name.spec_dotted();
                match key_index(before, key) {
                    Some(i) => {
                        &&& after[i].0 == key
                        &&& aggregate_is(after[i].1, before[i].1.name,
                                before[i].1.private || parsed.header.private,
                                before[i].1.files@.push(file), before[i].1.decls@ + parsed.decls@)
                        &&& forall|j: int| 0 <= j < after.len() && j != i ==> after[j] == before[j]
                    },
                    None => {
                        &&& after.subrange(0, before.len() as int) == before
                        &&& after.last().0 == key
                        &&& aggregate_is(after.last().1, parsed.header.name,
                                parsed.header.private, seq![file], parsed.decls@)
                    },
                }
            }),
    {
        let key = parsed.header.name.dotted();
        let ghost before = module_entries(self.modules);
        let ghost vbefore = module_views(self.modules);
        proof {
            lemma_key_index(before, key@);
            assert forall|j: int| 0 <= j < before.len() implies before[j].0 == vbefore[j].0 by {}
            lemma_key_index_same_keys(before, vbefore, key@);
        }
        let ModuleFile { header, uses: _, decls, span: _ } = parsed;
        match modules_get_index_of(&self.modules, key.as_str()) {
            None => {
                let mut agg = ModuleAggregate::new(header.name);
                agg.private = agg.private || header.private;
                agg.files.push(file);
                let mut decls = decls;
                agg.decls.append(&mut decls);
                proof {
                    assert(agg.files@ =~= seq![file]);
                    assert(agg.decls@ =~= parsed.decls@);
                }
                let ghost agg_view = agg@;
                let _ = modules_insert(&mut self.modules, key, agg);
                proof {
                    let after = module_entries(self.modules);
                    assert(after.subrange(0, before.len() as int) =~= before);
                    assert(module_views(self.modules) =~= vbefore.push((key@, agg_view)));
                }
            },
            Some(i) => {
                let placeholder = ModuleAggregate::new(header.name.clone());
                let k2 = key.clone();
                let old_agg = modules_insert(&mut self.modules, k2, placeholder);
                match old_agg {
                    Some(prev) => {
                        let mut agg = prev;
                        agg.private = agg.private || header.private;
                        agg.files.push(file);
                        let mut decls = decls;
                        agg.decls.append(&mut decls);
                        let ghost mid = module_entries(self.modules);
                        proof {
                            lemma_key_index(mid, key@);
                            assert(mid.len() == before.len());
                            assert forall|j: int| 0 <= j < mid.len() implies mid[j].0 == before[j].0 by {}
                            assert(key_index(mid, key@) == Some(i as int)) by {
                                lemma_key_index_same_keys(before, mid, key@);
                            }
                        }
                        let ghost agg_view = agg@;
                        let _ = modules_insert(&mut self.modules, key, agg);
                        proof {
                            assert(module_views(self.modules) =~= vbefore.update(i as int, (key@, agg_view)));
                        }
                    },
                    None => {
                        proof {
                            assert(false);
                        }
                    },
                }
            },
        }
    }
}

// ---- laws ----

/// No key occurs twice.
pub open spec fn keys_distinct(e: Seq<(Seq<char>, ModuleView)>) -> bool {
    forall|i: int, j: int| 0 <= i < j < e.len() ==> (#[trigger] e[i]).0 != (#[trigger] e[j]).0
}

/// Ingesting files keeps one entry per module, and every ingested file's
/// module has an entry.
pub proof fn lemma_ingest_groups_by_module(start: Seq<(Seq<char>, ModuleView)>, parsed: Seq<(FileId, ModuleFile)>)
    requires
        keys_distinct(start),
    ensures
        keys_distinct(ingest_all(start, parsed)),
        forall|i: int| 0 <= i < parsed.len()
            ==> key_index(ingest_all(start, parsed), (#[trigger] parsed[i]).1.header.name.spec_dotted()) is Some,
        ingest_all(start, parsed).len() >= start.len(),
    decreases parsed.len(),
{
    if parsed.len() > 0 {
        let pre = parsed.drop_last();
        lemma_ingest_groups_by_module(start, pre);
        let before = ingest_all(start, pre);
        let (file, pf) = parsed.last();
        let key = pf.header.name.spec_dotted();
        let after = ingest_all(start, parsed);
        lemma_key_index(before, key);
        lemma_key_index(after, key);
        match key_index(before, key) {
            Some(k) => {
                assert forall|j: int| 0 <= j < before.len() implies before[j].0 == after[j].0 by {}
                assert forall|i: int| 0 <= i < parsed.len()
                    implies key_index(after, (#[trigger] parsed[i]).1.header.name.spec_dotted()) is Some by {
                    let ki = parsed[i].1.header.name.spec_dotted();
                    lemma_key_index_same_keys(before, after, ki);
                    if i < pre.len() {
                        assert(pre[i] == parsed[i]);
                    }
                }
            },
            None => {
                assert(after == before.push((key, ModuleView {
                    name: pf.header.name,
                    private: pf.header.private,
                    files: seq![file],
                    decls: pf.decls@,
                })));
                assert forall|i: int, j: int| 0 <= i < j < after.len() implies (#[trigger] after[i]).0 != (#[trigger] after[j]).0 by {
                    if j == before.len() {
                        assert(after[i] == before[i]);
                    } else {
                        assert(after[i] == before[i]);
                        assert(after[j] == before[j]);
                    }
                }
                assert forall|i: int| 0 <= i < parsed.len()
                    implies key_index(after, (#[trigger] parsed[i]).1.header.name.spec_dotted()) is Some by {
                    let ki = parsed[i].1.header.name.spec_dotted();
                    assert(after.drop_last() =~= before);
                    if i < pre.len() {
                        assert(pre[i] == parsed[i]);
                    }
                }
            },
        }
    }
}

/// The parsed files whose header names module `key`, in order.
pub open spec fn files_of(parsed: Seq<(FileId, ModuleFile)>, key: Seq<char>) -> Seq<(FileId, ModuleFile)> {
    crate::diagnostic::concat_map(parsed, |p: (FileId, ModuleFile)|
        if p.1.header.name.spec_dotted() == key { seq![p] } else { Seq::empty() })
}

/// The declarations of all files of module `key`, file by file.
pub open spec fn decls_of(parsed: Seq<(FileId, ModuleFile)>, key: Seq<char>) -> Seq<Decl> {
    crate::diagnostic::concat_map(files_of(parsed, key), |p: (FileId, ModuleFile)| p.1.decls@)
}

/// Ingesting files from an empty table gives module `key` an entry
/// exactly when some file's header names it, and that entry holds the
/// declarations of all such files, in file order.
pub proof fn lemma_ingest_collects_files(parsed: Seq<(FileId, ModuleFile)>, key: Seq<char>)
    ensures
        key_index(ingest_all(Seq::empty(), parsed), key) is Some <==> files_of(parsed, key).len() > 0,
        key_index(ingest_all(Seq::empty(), parsed), key) matches Some(i) ==> {
            &&& ingest_all(Seq::empty(), parsed)[i].0 == key
            &&& ingest_all(Seq::empty(), parsed)[i].1.decls == decls_of(parsed, key)
            &&& ingest_all(Seq::empty(), parsed)[i].1.name.spec_dotted() == key
        },
    decreases parsed.len(),
{
    let f = |p: (FileId, ModuleFile)| if p.1.header.name.spec_dotted() == key { seq![p] } else { Seq::<(FileId, ModuleFile)>::empty() };
    let g = |p: (FileId, ModuleFile)| p.1.decls@;
    if parsed.len() > 0 {
        let pre = parsed.drop_last();
        lemma_ingest_collects_files(pre, key);
        let before = ingest_all(Seq::empty(), pre);
        let after = ingest_all(Seq::empty(), parsed);
        let (file, pf) = parsed.last();
        let lk = pf.header.name.spec_dotted();
        assert(files_of(parsed, key) == files_of(pre, key) + f(parsed.last()));
        assert(decls_of(parsed, key) == crate::diagnostic::concat_map(files_of(pre, key) + f(parsed.last()), g));
        lemma_concat_map_append(files_of(pre, key), f(parsed.last()), g);
        lemma_key_index(before, lk);
        lemma_key_index(before, key);
        lemma_key_index(after, key);
        match key_index(before, lk) {
            Some(k) => {
                lemma_key_index_same_keys(before, after, key);
                if lk == key {
                    assert(f(parsed.last()) =~= seq![parsed.last()]);
                    assert(crate::diagnostic::concat_map(seq![parsed.last()], g) =~= pf.decls@) by {
                        reveal_with_fuel(crate::diagnostic::concat_map, 2);
                        assert(seq![parsed.last()].drop_last() =~= Seq::<(FileId, ModuleFile)>::empty());
                    }
                } else {
                    assert(f(parsed.last()) =~= Seq::<(FileId, ModuleFile)>::empty());
                    assert(decls_of(parsed, key) =~= decls_of(pre, key));
                }
            },
            None => {
                assert(after == before.push((lk, ModuleView {
                    name: pf.header.name,
                    private: pf.header.private,
                    files: seq![file],
                    decls: pf.decls@,
                })));
                assert(after.drop_last() =~= before);
                if lk == key {
                    assert(f(parsed.last()) =~= seq![parsed.last()]);
                    assert(crate::diagnostic::concat_map(seq![parsed.last()], g) =~= pf.decls@) by {
                        reveal_with_fuel(crate::diagnostic::concat_map, 2);
                        assert(seq![parsed.last()].drop_last() =~= Seq::<(FileId, ModuleFile)>::empty());
                    }
                    assert(files_of(pre, key).len() == 0);
                    assert(decls_of(pre, key) =~= Seq::<Decl>::empty());
                    assert(decls_of(parsed, key) =~= pf.decls@);
                } else {
                    assert(f(parsed.last()) =~= Seq::<(FileId, ModuleFile)>::empty());
                    assert(decls_of(parsed, key) =~= decls_of(pre, key));
                }
            },
        }
    }
}

} // verus!
