//! The symbols of one file, scope by scope, each scope keyed by name.
use vstd::prelude::*;
use indexmap::IndexMap;
use crate::common::{qualified, views};
use crate::paths::{import_names, import_names_file};
use crate::ts::import::Import;
use crate::ts::symbol_table::{after, first_import, ScopeID, ScopeIds};
use crate::ts2::entries::{
    entries_inserted, entries_of, entry_get, entry_get_mut, entry_insert, entry_named, entry_names,
    entry_values, keys_unique, new_entries,
};
use crate::ts2::function::Function;
use crate::ts2::type_alias::TypeAlias;
use crate::ts2::types::{Type, named_type};

verus! {

broadcast use vstd::seq_lib::group_seq_properties;

/// A symbol we've discovered in the source code.
#[derive(Debug, PartialEq)]
pub struct Symbol {
    pub kind: SymbolKind,
    pub source: Source,
}

/// The type of the symbol.
/// Contains all the metadata associated with that type of symbol
#[derive(Debug, PartialEq)]
pub enum SymbolKind {
    Function(Function),
    TypeAlias(TypeAlias),
    Type(Type),
}

/// The source of the symbol.
#[derive(Debug, Clone, Copy, PartialEq, Eq)]
pub struct Source {
    pub offset_start_bytes: usize,
    pub offset_end_bytes: usize,
}

/// A symbol with the fully qualified name it was declared under.
#[derive(Debug, PartialEq)]
pub struct TableEntry {
    pub symbol: Symbol,
    pub fqn: String,
}

/// One scope of a file, with the symbols declared in it by name.
#[derive(Debug, PartialEq)]
pub struct Scope {
    pub identifier: Option<String>,
    pub id: ScopeID,
    pub parent: Option<ScopeID>,
    /// The position of the parent scope in its table.
    pub parent_at: Option<usize>,
    pub entries: IndexMap<String, TableEntry>,
    pub imports: Vec<Import>,
}

/// A module that keeps track of all the symbols and their
/// scopes in a file.
///
/// The table starts in the global scope, and new scopes
/// can be added by calling `push_scope`.
///
/// When looking up a symbol, the caller needs to know the
/// scope ID of the scope they're looking in.
#[derive(Debug, PartialEq)]
pub struct SymbolTable {
    pub file: String,
    pub scopes: Vec<Scope>,
    /// The position of the current scope.
    pub current: usize,
}

/// The name a symbol is declared under.
pub open spec fn symbol_name(s: Symbol) -> Seq<char> {
    match s.kind {
        SymbolKind::Function(f) => f.identifier@,
        SymbolKind::TypeAlias(a) => a.identifier@,
        SymbolKind::Type(t) => named_type(t),
    }
}

impl Symbol {
    pub fn identifier(&self) -> (r: &str)
        ensures
            r@ == symbol_name(*self),
    {
        match &self.kind {
            SymbolKind::Function(f) => f.identifier.as_str(),
            SymbolKind::TypeAlias(a) => a.identifier.as_str(),
            SymbolKind::Type(t) => t.identifier(),
        }
    }
}

impl SymbolKind {
    pub fn function(&self) -> (r: Option<&Function>)
        ensures
            match *self {
                SymbolKind::Function(f) => r == Some(&f),
                _ => r is None,
            },
    {
        match self {
            SymbolKind::Function(f) => Some(f),
            _ => None,
        }
    }

    pub fn type_alias(&self) -> (r: Option<&TypeAlias>)
        ensures
            match *self {
                SymbolKind::TypeAlias(a) => r == Some(&a),
                _ => r is None,
            },
    {
        match self {
            SymbolKind::TypeAlias(a) => Some(a),
            _ => None,
        }
    }

    pub fn as_function(&self) -> (r: Option<&Function>)
        ensures
            match *self {
                SymbolKind::Function(f) => r == Some(&f),
                _ => r is None,
            },
    {
        self.function()
    }

    pub fn as_type_alias(&self) -> (r: Option<&TypeAlias>)
        ensures
            match *self {
                SymbolKind::TypeAlias(a) => r == Some(&a),
                _ => r is None,
            },
    {
        self.type_alias()
    }

    pub fn as_type(&self) -> (r: Option<&Type>)
        ensures
            match *self {
                SymbolKind::Type(t) => r == Some(&t),
                _ => r is None,
            },
    {
        match self {
            SymbolKind::Type(t) => Some(t),
            _ => None,
        }
    }

    pub fn as_type_mut(&mut self) -> (r: Option<&mut Type>)
        ensures
            match *old(self) {
                SymbolKind::Type(t) => match r {
                    Some(m) => *m == t && *final(self) == SymbolKind::Type(*final(m)),
                    None => false,
                },
                _ => r is None && *final(self) == *old(self),
            },
    {
        match self {
            SymbolKind::Type(t) => Some(t),
            _ => None,
        }
    }
}

/// Scope 0 is the root and the only one without a parent, every other
/// scope's parent comes before it and is named by its identifier, and no
/// scope holds two entries of one name.
pub open spec fn scopes_wf(scopes: Seq<Scope>) -> bool {
    &&& scopes.len() >= 1
    &&& scopes[0].parent is None
    &&& scopes[0].parent_at is None
    &&& forall|i: int|
        0 < i < scopes.len() ==> ((#[trigger] scopes[i]).parent_at matches Some(p) && p < i && scopes[i].parent
            == Some(scopes[p as int].id))
    &&& forall|i: int| 0 <= i < scopes.len() ==> keys_unique(entries_of(#[trigger] scopes[i].entries))
}

/// The entry that a lookup of `name` from scope `id` finds: the one of
/// that name in the scope, else in its parent, and so on up.
pub open spec fn lookup_entry(scopes: Seq<Scope>, name: Seq<char>, id: int) -> Option<TableEntry>
    decreases id,
{
    if 0 <= id < scopes.len() {
        match entry_named(entries_of(scopes[id].entries), name) {
            Some(e) => Some(e),
            None => match scopes[id].parent_at {
                Some(p) => if 0 <= p < id {
                    lookup_entry(scopes, name, p as int)
                } else {
                    None
                },
                None => None,
            },
        }
    } else {
        None
    }
}

/// The import that brings `name` into scope `id`: the first one in that
/// scope, else the one in its parent scope, and so on up.
pub open spec fn import_for(scopes: Seq<Scope>, name: Seq<char>, id: int) -> Option<Import>
    decreases id,
{
    if 0 <= id < scopes.len() {
        match first_import(scopes[id].imports@, name) {
            Some(i) => Some(i),
            None => match scopes[id].parent_at {
                Some(p) => if 0 <= p < id {
                    import_for(scopes, name, p as int)
                } else {
                    None
                },
                None => None,
            },
        }
    } else {
        None
    }
}

/// The names of the named scopes from the root down to `id`.
pub open spec fn scope_names(scopes: Seq<Scope>, id: int) -> Seq<Seq<char>>
    decreases id,
{
    if 0 <= id < scopes.len() {
        let above = match scopes[id].parent_at {
            Some(p) => if 0 <= p < id {
                scope_names(scopes, p as int)
            } else {
                Seq::empty()
            },
            None => Seq::empty(),
        };
        match scopes[id].identifier {
            Some(n) => above.push(n@),
            None => above,
        }
    } else {
        Seq::empty()
    }
}

/// The entries of every scope, scope by scope.
pub open spec fn all_entries_of(scopes: Seq<Scope>) -> Seq<TableEntry>
    decreases scopes.len(),
{
    if scopes.len() == 0 {
        Seq::empty()
    } else {
        all_entries_of(scopes.drop_last()) + entries_of(scopes.last().entries).map_values(
            |p: (Seq<char>, TableEntry)| p.1,
        )
    }
}

/// The imports of every scope, scope by scope.
pub open spec fn all_imports_of(scopes: Seq<Scope>) -> Seq<Import>
    decreases scopes.len(),
{
    if scopes.len() == 0 {
        Seq::empty()
    } else {
        all_imports_of(scopes.drop_last()) + scopes.last().imports@
    }
}

/// The name whose declaration the return type of a function entry still
/// waits for.
pub open spec fn pending_name(e: TableEntry) -> Option<Seq<char>> {
    match e.symbol.kind {
        SymbolKind::Function(f) => match f.return_type {
            Some(Type::Identifier(n, None)) => Some(n@),
            _ => None,
        },
        _ => None,
    }
}

/// `e` with the return type of its function resolved to `fqn`.
pub open spec fn with_return_fqn(e: TableEntry, fqn: String) -> TableEntry {
    match e.symbol.kind {
        SymbolKind::Function(f) => match f.return_type {
            Some(Type::Identifier(n, _)) => TableEntry {
                symbol: Symbol {
                    kind: SymbolKind::Function(
                        Function {
                            identifier: f.identifier,
                            documentation: f.documentation,
                            is_exported: f.is_exported,
                            return_type: Some(Type::Identifier(n, Some(fqn))),
                        },
                    ),
                    source: e.symbol.source,
                },
                fqn: e.fqn,
            },
            _ => e,
        },
        _ => e,
    }
}

/// `e` resolved to `target` where it waits for a resolution and one was
/// found, else unchanged.
pub open spec fn resolved_with(e: TableEntry, target: Option<String>) -> TableEntry {
    match target {
        Some(fqn) => if pending_name(e) is Some {
            with_return_fqn(e, fqn)
        } else {
            e
        },
        None => e,
    }
}

/// Where the pending return type of an entry of scope `s` resolves within
/// the file: the fully qualified name of the entry a lookup of its name
/// from `s` finds.
pub open spec fn local_target(scopes: Seq<Scope>, s: int, e: TableEntry) -> Option<String> {
    match pending_name(e) {
        Some(n) => match lookup_entry(scopes, n, s) {
            Some(found) => Some(found.fqn),
            None => None,
        },
        None => None,
    }
}

/// The first of `tables` whose file the import path `source`, written in
/// `file`, names.
pub open spec fn first_table(tables: Seq<&SymbolTable>, file: Seq<char>, source: Seq<char>) -> Option<int>
    decreases tables.len(),
{
    if tables.len() == 0 {
        None
    } else if import_names_file(file, source, tables[0].file@) {
        Some(0)
    } else {
        match first_table(tables.drop_first(), file, source) {
            Some(k) => Some(k + 1),
            None => None,
        }
    }
}

/// Where the pending return type of an entry of scope `s` of `t` resolves
/// through an import: the import that brings its name into `s` names a
/// file, and the first of `tables` with that file is looked up from its
/// root scope.
pub open spec fn imported_target(t: SymbolTable, tables: Seq<&SymbolTable>, s: int, e: TableEntry) -> Option<String> {
    match pending_name(e) {
        Some(n) => match import_for(t.scopes@, n, s) {
            Some(imp) => match first_table(tables, t.file@, imp.source@) {
                Some(k) => match lookup_entry(tables[k].scopes@, n, 0) {
                    Some(found) => Some(found.fqn),
                    None => None,
                },
                None => None,
            },
            None => None,
        },
        None => None,
    }
}

/// `entries` with each resolved as `targets` says, position by position.
pub open spec fn resolved_entries(
    entries: Seq<(Seq<char>, TableEntry)>,
    targets: Seq<Option<String>>,
) -> Seq<(Seq<char>, TableEntry)> {
    Seq::new(entries.len(), |i: int| (entries[i].0, resolved_with(entries[i].1, targets[i])))
}

/// Two lists of scopes that differ at most in the entries.
pub open spec fn same_but_entries(a: Seq<Scope>, b: Seq<Scope>) -> bool {
    &&& a.len() == b.len()
    &&& forall|s: int| 0 <= s < a.len() ==> {
        &&& (#[trigger] b[s]).identifier == a[s].identifier
        &&& b[s].id == a[s].id
        &&& b[s].parent == a[s].parent
        &&& b[s].parent_at == a[s].parent_at
        &&& b[s].imports == a[s].imports
    }
}

impl SymbolTable {
    pub open spec fn wf(self) -> bool {
        &&& scopes_wf(self.scopes@)
        &&& self.current < self.scopes@.len()
    }

    /// The identifier of the current scope.
    pub open spec fn current_id(self) -> ScopeID {
        self.scopes@[self.current as int].id
    }

    /// The fully qualified name for `name` declared in the current scope:
    /// the file, then the names of the named scopes from the root down,
    /// then the name.
    pub open spec fn fqn_for(self, name: Seq<char>) -> Seq<char> {
        self.file@ + qualified(scope_names(self.scopes@, self.current as int).push(name))
    }

    /// An empty table of the file `path`, its root scope's identifier the
    /// next one `ids` hands out.
    pub fn new(path: &str, ids: &mut ScopeIds) -> (r: Self)
        ensures
            r.wf(),
            r.file@ == path@,
            r.scopes@.len() == 1,
            r.scopes@[0].identifier is None,
            entries_of(r.scopes@[0].entries).len() == 0,
            r.scopes@[0].imports@.len() == 0,
            r.scopes@[0].id == old(ids)@,
            final(ids)@ == after(old(ids)@),
            r.current == 0,
    {
        let root = ids.take();
        let mut scopes: Vec<Scope> = Vec::new();
        scopes.push(
            Scope {
                identifier: None,
                id: root,
                parent: None,
                parent_at: None,
                entries: new_entries(),
                imports: Vec::new(),
            },
        );
        SymbolTable { file: path.to_owned(), scopes, current: 0 }
    }

    /// The entry `identifier` names in the scope `scope_id`: declared there
    /// or in a scope around it, the innermost first.
    pub fn lookup(&self, identifier: &str, scope_id: ScopeID) -> (r: Option<&TableEntry>)
        requires
            self.wf(),
            position_of(self.scopes@, scope_id as int) is Some,
        ensures
            match lookup_entry(self.scopes@, identifier@, position_of(self.scopes@, scope_id as int).unwrap()) {
                Some(e) => r == Some(&e),
                None => r is None,
            },
    {
        let at = find_scope(&self.scopes, scope_id).unwrap();
        self.lookup_at(identifier, at)
    }

    /// The entry `identifier` names in the scope at position `at`.
    fn lookup_at(&self, identifier: &str, at: usize) -> (r: Option<&TableEntry>)
        requires
            self.wf(),
            at < self.scopes@.len(),
        ensures
            match lookup_entry(self.scopes@, identifier@, at as int) {
                Some(e) => r == Some(&e),
                None => r is None,
            },
        decreases at,
    {
        let scope = &self.scopes[at];
        match entry_get(&scope.entries, identifier) {
            Some(e) => Some(e),
            None => match scope.parent_at {
                Some(p) => {
                    assert(at > 0);
                    self.lookup_at(identifier, p)
                },
                None => None,
            },
        }
    }

    /// The import that brings `identifier` into the scope `scope_id`.
    pub fn lookup_import(&self, identifier: &str, scope_id: ScopeID) -> (r: Option<&Import>)
        requires
            self.wf(),
            position_of(self.scopes@, scope_id as int) is Some,
        ensures
            match import_for(self.scopes@, identifier@, position_of(self.scopes@, scope_id as int).unwrap()) {
                Some(i) => r == Some(&i),
                None => r is None,
            },
    {
        let at = find_scope(&self.scopes, scope_id).unwrap();
        self.import_at(identifier, at)
    }

    /// The import that brings `identifier` into the scope at position `at`.
    fn import_at(&self, identifier: &str, at: usize) -> (r: Option<&Import>)
        requires
            self.wf(),
            at < self.scopes@.len(),
        ensures
            match import_for(self.scopes@, identifier@, at as int) {
                Some(i) => r == Some(&i),
                None => r is None,
            },
        decreases at,
    {
        let scope = &self.scopes[at];
        match crate::ts::symbol_table::SymbolTable::first_import_in(&scope.imports, identifier) {
            Some(i) => Some(i),
            None => match scope.parent_at {
                Some(p) => {
                    assert(at > 0);
                    self.import_at(identifier, p)
                },
                None => None,
            },
        }
    }

    /// The entries of every scope, scope by scope.
    pub fn all_entries(&self) -> (r: Vec<&TableEntry>)
        ensures
            r@.map_values(|e: &TableEntry| *e) == all_entries_of(self.scopes@),
    {
        let mut out: Vec<&TableEntry> = Vec::new();
        let mut s: usize = 0;
        while s < self.scopes.len()
            invariant
                s <= self.scopes@.len(),
                out@.map_values(|e: &TableEntry| *e) == all_entries_of(self.scopes@.take(s as int)),
            decreases self.scopes@.len() - s,
        {
            let values = entry_values(&self.scopes[s].entries);
            let ghost es = entries_of(self.scopes@[s as int].entries).map_values(
                |p: (Seq<char>, TableEntry)| p.1,
            );
            let ghost before = out@.map_values(|e: &TableEntry| *e);
            let mut k: usize = 0;
            while k < values.len()
                invariant
                    k <= values@.len(),
                    values@.len() == es.len(),
                    forall|i: int| 0 <= i < values@.len() ==> *(#[trigger] values@[i]) == es[i],
                    out@.map_values(|e: &TableEntry| *e) == before + es.take(k as int),
                decreases values@.len() - k,
            {
                let ghost prev = out@;
                out.push(values[k]);
                assert(out@.map_values(|e: &TableEntry| *e) =~= prev.map_values(|e: &TableEntry| *e).push(es[k as int]));
                assert(es.take(k + 1) =~= es.take(k as int).push(es[k as int]));
                k += 1;
            }
            proof {
                assert(es.take(es.len() as int) =~= es);
                assert(self.scopes@.take(s + 1).drop_last() =~= self.scopes@.take(s as int));
            }
            s += 1;
        }
        assert(self.scopes@.take(self.scopes@.len() as int) =~= self.scopes@);
        out
    }

    /// The imports of every scope, scope by scope.
    pub fn all_imports(&self) -> (r: Vec<&Import>)
        ensures
            r@.map_values(|i: &Import| *i) == all_imports_of(self.scopes@),
    {
        let mut out: Vec<&Import> = Vec::new();
        let mut s: usize = 0;
        while s < self.scopes.len()
            invariant
                s <= self.scopes@.len(),
                out@.map_values(|i: &Import| *i) == all_imports_of(self.scopes@.take(s as int)),
            decreases self.scopes@.len() - s,
        {
            let imports = &self.scopes[s].imports;
            let ghost before = out@.map_values(|i: &Import| *i);
            let mut k: usize = 0;
            while k < imports.len()
                invariant
                    k <= imports@.len(),
                    out@.map_values(|i: &Import| *i) == before + imports@.take(k as int),
                decreases imports@.len() - k,
            {
                let ghost prev = out@;
                out.push(&imports[k]);
                assert(out@.map_values(|i: &Import| *i) =~= prev.map_values(|i: &Import| *i).push(imports@[k as int]));
                assert(imports@.take(k + 1) =~= imports@.take(k as int).push(imports@[k as int]));
                k += 1;
            }
            proof {
                assert(imports@.take(imports@.len() as int) =~= imports@);
                assert(self.scopes@.take(s + 1).drop_last() =~= self.scopes@.take(s as int));
            }
            s += 1;
        }
        assert(self.scopes@.take(self.scopes@.len() as int) =~= self.scopes@);
        out
    }
}

/// `after` is `before` with an entry for `symbol`, whose fully qualified
/// name reads `fqn`, stored under `key`.
pub open spec fn entry_added(
    before: Seq<(Seq<char>, TableEntry)>,
    after: Seq<(Seq<char>, TableEntry)>,
    key: Seq<char>,
    symbol: Symbol,
    fqn: Seq<char>,
) -> bool {
    exists|e: TableEntry| e.symbol == symbol && e.fqn@ == fqn && after == entries_inserted(before, key, e)
}

/// What `push_scope` does: `t1` is `t0` with a new empty scope named `name`
/// inside the current one, which becomes current; `id` is its identifier.
pub open spec fn scope_pushed(t0: SymbolTable, t1: SymbolTable, name: Seq<char>, id: usize) -> bool {
    &&& t1.wf()
    &&& t1.current == t0.scopes@.len()
    &&& t1.scopes@.len() == t0.scopes@.len() + 1
    &&& t1.scopes@.drop_last() == t0.scopes@
    &&& t1.scopes@.last().identifier matches Some(n) && n@ == name
    &&& t1.scopes@.last().id == id
    &&& t1.scopes@.last().parent == Some(t0.current_id())
    &&& t1.scopes@.last().parent_at == Some(t0.current)
    &&& entries_of(t1.scopes@.last().entries).len() == 0
    &&& t1.scopes@.last().imports@.len() == 0
    &&& t1.file == t0.file
}

/// What `pop_scope` does: `t1` is `t0` with the parent of the current
/// scope current, or unchanged in the root scope; `id` is the identifier
/// of the scope left.
pub open spec fn scope_popped(t0: SymbolTable, t1: SymbolTable, id: usize) -> bool {
    &&& t1.wf()
    &&& id == t0.current_id()
    &&& t1.current == (match t0.scopes@[t0.current as int].parent_at {
        Some(p) => p,
        None => t0.current,
    })
    &&& t1.file == t0.file
    &&& t1.scopes == t0.scopes
}

/// The position of the first scope from `from` on whose identifier is `id`.
pub open spec fn position_from(scopes: Seq<Scope>, id: int, from: int) -> Option<int>
    decreases scopes.len() - from,
{
    if from < 0 || from >= scopes.len() {
        None
    } else if scopes[from].id == id {
        Some(from)
    } else {
        position_from(scopes, id, from + 1)
    }
}

/// The position of the scope whose identifier is `id`.
pub open spec fn position_of(scopes: Seq<Scope>, id: int) -> Option<int> {
    position_from(scopes, id, 0)
}

pub proof fn lemma_position_from(scopes: Seq<Scope>, id: int, from: int)
    requires
        0 <= from,
    ensures
        match position_from(scopes, id, from) {
            Some(p) => from <= p < scopes.len() && scopes[p].id == id && forall|j: int| from <= j < p ==> scopes[j].id
                != id,
            None => forall|j: int| from <= j < scopes.len() ==> scopes[j].id != id,
        },
    decreases scopes.len() - from,
{
    if from < scopes.len() && scopes[from].id != id {
        lemma_position_from(scopes, id, from + 1);
    }
}

/// The position of the scope whose identifier is `id`.
fn find_scope(scopes: &Vec<Scope>, id: ScopeID) -> (r: Option<usize>)
    ensures
        match r {
            Some(p) => position_of(scopes@, id as int) == Some(p as int) && p < scopes@.len(),
            None => position_of(scopes@, id as int) is None,
        },
{
    proof {
        lemma_position_from(scopes@, id as int, 0);
    }
    let mut i: usize = 0;
    while i < scopes.len()
        invariant
            i <= scopes@.len(),
            position_of(scopes@, id as int) == position_from(scopes@, id as int, i as int),
        decreases scopes@.len() - i,
    {
        if scopes[i].id == id {
            return Some(i);
        }
        i += 1;
    }
    None
}

/// The resolution targets of the entries of scope `s`, computed within the
/// file.
pub open spec fn local_targets(scopes: Seq<Scope>, s: int) -> Seq<Option<String>> {
    entries_of(scopes[s].entries).map_values(|p: (Seq<char>, TableEntry)| local_target(scopes, s, p.1))
}

/// The resolution targets of the entries of scope `s` of `t`, computed
/// through imports.
pub open spec fn imported_targets(t: SymbolTable, tables: Seq<&SymbolTable>, s: int) -> Seq<Option<String>> {
    entries_of(t.scopes@[s].entries).map_values(
        |p: (Seq<char>, TableEntry)| imported_target(t, tables, s, p.1),
    )
}

/// `t1` is `t0` with the entries of each scope `s` resolved as
/// `targets(s)` says.
pub open spec fn resolved_as(t0: SymbolTable, t1: SymbolTable, targets: spec_fn(int) -> Seq<Option<String>>) -> bool {
    &&& t1.wf()
    &&& t1.file == t0.file
    &&& t1.current == t0.current
    &&& same_but_entries(t0.scopes@, t1.scopes@)
    &&& forall|s: int| 0 <= s < t0.scopes@.len() ==> entries_of(#[trigger] t1.scopes@[s].entries)
        == resolved_entries(entries_of(t0.scopes@[s].entries), targets(s))
}

/// The name a function entry's return type waits to be resolved under.
fn pending(e: &TableEntry) -> (r: Option<&str>)
    ensures
        match pending_name(*e) {
            Some(n) => r matches Some(x) && x@ == n,
            None => r is None,
        },
{
    match &e.symbol.kind {
        SymbolKind::Function(f) => match &f.return_type {
            Some(Type::Identifier(n, None)) => Some(n.as_str()),
            _ => None,
        },
        _ => None,
    }
}

/// Resolves the pending return type of `e`, if it has one, to `fqn`.
fn set_return_fqn(e: &mut TableEntry, fqn: String)
    ensures
        *final(e) == resolved_with(*old(e), Some(fqn)),
{
    match &mut e.symbol.kind {
        SymbolKind::Function(f) => match &mut f.return_type {
            Some(Type::Identifier(_, slot)) => {
                if slot.is_none() {
                    *slot = Some(fqn);
                }
            },
            _ => {},
        },
        _ => {},
    }
}

/// The position of the first of `tables` whose file an import of `source`
/// written in `file` names.
fn find_table(tables: &[&SymbolTable], file: &str, source: &str) -> (r: Option<usize>)
    ensures
        match r {
            Some(k) => k < tables@.len() && first_table(tables@, file@, source@) == Some(k as int),
            None => first_table(tables@, file@, source@) is None,
        },
{
    let mut k: usize = 0;
    while k < tables.len()
        invariant
            k <= tables@.len(),
            forall|j: int| 0 <= j < k ==> !import_names_file(file@, source@, (#[trigger] tables@[j]).file@),
        decreases tables@.len() - k,
    {
        if import_names(file, source, tables[k].file.as_str()) {
            proof {
                lemma_first_table(tables@, file@, source@, k as int);
            }
            return Some(k);
        }
        k += 1;
    }
    proof {
        lemma_first_table(tables@, file@, source@, k as int);
    }
    None
}

proof fn lemma_first_table(tables: Seq<&SymbolTable>, file: Seq<char>, source: Seq<char>, k: int)
    requires
        0 <= k <= tables.len(),
        forall|j: int| 0 <= j < k ==> !import_names_file(file, source, (#[trigger] tables[j]).file@),
    ensures
        k < tables.len() && import_names_file(file, source, tables[k].file@) ==> first_table(
            tables,
            file,
            source,
        ) == Some(k),
        k == tables.len() ==> first_table(tables, file, source) is None,
    decreases k,
{
    if k > 0 {
        let rest = tables.drop_first();
        assert forall|j: int| 0 <= j < k - 1 implies !import_names_file(file, source, (#[trigger] rest[j]).file@) by {
            assert(rest[j] == tables[j + 1]);
        }
        lemma_first_table(rest, file, source, k - 1);
        if k < tables.len() {
            assert(rest[k - 1] == tables[k]);
        }
    }
}

impl SymbolTable {
    /// Constructs a fully qualified name for the given identifier in the
    /// current scope: the file, then the names of the named scopes from the
    /// root down, then the identifier.
    pub fn construct_fqn(&self, identifier: &str) -> (r: String)
        requires
            self.wf(),
        ensures
            r@ == self.fqn_for(identifier@),
    {
        let names = self.scope_name_list(self.current);
        let mut out = self.file.clone();
        crate::common::push_parts(&mut out, &names);
        crate::common::push_part(&mut out, identifier);
        proof {
            crate::common::lemma_qualified_push(views(names@), identifier@);
        }
        out
    }

    /// The names of the named scopes from the root down to `id`.
    fn scope_name_list(&self, id: ScopeID) -> (r: Vec<String>)
        requires
            self.wf(),
            id < self.scopes@.len(),
        ensures
            views(r@) == scope_names(self.scopes@, id as int),
        decreases id,
    {
        let scope = &self.scopes[id];
        let mut above = match scope.parent_at {
            Some(p) => {
                assert(id > 0);
                self.scope_name_list(p)
            },
            None => Vec::new(),
        };
        assert(scope.parent_at is None ==> views(above@) =~= Seq::<Seq<char>>::empty());
        match &scope.identifier {
            Some(n) => {
                let ghost before = above@;
                above.push(n.clone());
                assert(views(above@) =~= views(before).push(n@));
            },
            None => {},
        }
        above
    }

    /// Declares `symbol` under `identifier` in the current scope, with the
    /// fully qualified name of that identifier there; a symbol already
    /// declared there under that name is replaced in place.
    pub fn add_symbol(&mut self, identifier: &str, symbol: Symbol)
        requires
            old(self).wf(),
        ensures
            final(self).wf(),
            final(self).file == old(self).file,
            final(self).current == old(self).current,
            same_but_entries(old(self).scopes@, final(self).scopes@),
            forall|s: int| 0 <= s < old(self).scopes@.len() && s != old(self).current
                ==> #[trigger] final(self).scopes@[s] == old(self).scopes@[s],
            entry_added(
                entries_of(old(self).scopes@[old(self).current as int].entries),
                entries_of(final(self).scopes@[old(self).current as int].entries),
                identifier@,
                symbol,
                old(self).fqn_for(identifier@),
            ),
    {
        let fqn = self.construct_fqn(identifier);
        let c = self.current;
        let ghost before = entries_of(self.scopes@[c as int].entries);
        let entry = TableEntry { symbol, fqn };
        let ghost e = entry;
        proof {
            crate::ts2::entries::lemma_inserted(before, identifier@, e);
        }
        entry_insert(&mut self.scopes[c].entries, identifier.to_owned(), entry);
        assert(entries_of(self.scopes@[c as int].entries) == entries_inserted(before, identifier@, e));
    }

    pub fn add_import(&mut self, import: Import)
        requires
            old(self).wf(),
        ensures
            final(self).wf(),
            final(self).file == old(self).file,
            final(self).current == old(self).current,
            final(self).scopes@.len() == old(self).scopes@.len(),
            forall|i: int| 0 <= i < old(self).scopes@.len() && i != old(self).current
                ==> #[trigger] final(self).scopes@[i] == old(self).scopes@[i],
            final(self).scopes@[old(self).current as int].identifier
                == old(self).scopes@[old(self).current as int].identifier,
            final(self).scopes@[old(self).current as int].id
                == old(self).scopes@[old(self).current as int].id,
            final(self).scopes@[old(self).current as int].parent
                == old(self).scopes@[old(self).current as int].parent,
            final(self).scopes@[old(self).current as int].parent_at
                == old(self).scopes@[old(self).current as int].parent_at,
            final(self).scopes@[old(self).current as int].entries
                == old(self).scopes@[old(self).current as int].entries,
            final(self).scopes@[old(self).current as int].imports@
                == old(self).scopes@[old(self).current as int].imports@.push(import),
    {
        let c = self.current;
        self.scopes[c].imports.push(import);
    }

    /// Create a new scope with the given name, inside the current one, and
    /// make it the current scope; its identifier is the next one `ids`
    /// hands out.
    pub fn push_scope(&mut self, name: &str, ids: &mut ScopeIds) -> (r: ScopeID)
        requires
            old(self).wf(),
        ensures
            scope_pushed(*old(self), *final(self), name@, r),
            r == old(ids)@,
            final(ids)@ == after(old(ids)@),
    {
        let id = ids.take();
        let at = self.scopes.len();
        let cur = self.current;
        let parent = self.scopes[cur].id;
        let scope = Scope {
            id,
            identifier: Some(name.to_owned()),
            parent: Some(parent),
            parent_at: Some(cur),
            entries: new_entries(),
            imports: Vec::new(),
        };
        self.scopes.push(scope);
        self.current = at;
        assert(self.scopes@.drop_last() =~= old(self).scopes@);
        id
    }

    /// Pop the current scope, and set the current scope to the parent.
    ///
    /// If the current scope has no parent, (aka, it's the global scope), this is a no-op.
    ///
    /// Returns the popped scope ID.
    pub fn pop_scope(&mut self) -> (r: ScopeID)
        requires
            old(self).wf(),
        ensures
            scope_popped(*old(self), *final(self), r),
    {
        let current = self.current;
        if let Some(parent_at) = self.scopes[current].parent_at {
            assert(current > 0);
            self.current = parent_at;
        }
        self.scopes[current].id
    }

    pub fn root_scope(&self) -> (r: &Scope)
        requires
            self.wf(),
        ensures
            *r == self.scopes@[0],
            r.parent is None,
    {
        &self.scopes[0]
    }

    pub fn current_scope(&self) -> (r: &Scope)
        requires
            self.wf(),
        ensures
            *r == self.scopes@[self.current as int],
            r.id == self.current_id(),
    {
        &self.scopes[self.current]
    }

    /// Returns true if the import path resolves to the symbol table's path
    /// from the perspective of the current symbol table's path.
    ///
    /// i.e. if a file `foo/bar.ts` imports `../fizz.ts`, this function
    /// returns true for symbol table with the path `fizz.ts`.
    pub fn matches_import_path(&self, symbol_table_path: &str, import: &Import) -> (r: bool)
        ensures
            r == import_names_file(self.file@, import.source@, symbol_table_path@),
    {
        import_names(self.file.as_str(), import.source.as_str(), symbol_table_path)
    }

    /// Resolves the return types of functions that name a type declared in
    /// this file: each takes the fully qualified name of what a lookup of
    /// that name from the function's scope finds.
    pub fn resolve_types(&mut self)
        requires
            old(self).wf(),
        ensures
            resolved_as(*old(self), *final(self), |s: int| local_targets(old(self).scopes@, s)),
    {
        let targets = self.local_target_lists();
        self.apply_targets(targets);
    }

    /// Same as `resolve_types`, but resolves imports across files: the
    /// name's import gives the file, which `all_tables` is searched for,
    /// and the name is looked up from the root scope of the table found.
    pub fn resolve_imported_types(&mut self, all_tables: &[&SymbolTable])
        requires
            old(self).wf(),
            forall|k: int| 0 <= k < all_tables@.len() ==> (#[trigger] all_tables@[k]).wf(),
        ensures
            resolved_as(*old(self), *final(self), |s: int| imported_targets(*old(self), all_tables@, s)),
    {
        let targets = self.imported_target_lists(all_tables);
        self.apply_targets(targets);
    }

    /// The resolution targets of every entry, computed within the file.
    fn local_target_lists(&self) -> (r: Vec<Vec<Option<String>>>)
        requires
            self.wf(),
        ensures
            r@.len() == self.scopes@.len(),
            forall|s: int| 0 <= s < r@.len() ==> (#[trigger] r@[s])@ == local_targets(self.scopes@, s),
    {
        let mut out: Vec<Vec<Option<String>>> = Vec::new();
        let mut s: usize = 0;
        while s < self.scopes.len()
            invariant
                self.wf(),
                s <= self.scopes@.len(),
                out@.len() == s,
                forall|j: int| 0 <= j < s ==> (#[trigger] out@[j])@ == local_targets(self.scopes@, j),
            decreases self.scopes@.len() - s,
        {
            let values = entry_values(&self.scopes[s].entries);
            let ghost es = entries_of(self.scopes@[s as int].entries);
            let mut row: Vec<Option<String>> = Vec::new();
            let mut i: usize = 0;
            while i < values.len()
                invariant
                    self.wf(),
                    s < self.scopes@.len(),
                    es == entries_of(self.scopes@[s as int].entries),
                    i <= values@.len(),
                    values@.len() == es.len(),
                    forall|k: int| 0 <= k < values@.len() ==> *(#[trigger] values@[k]) == es[k].1,
                    row@.len() == i,
                    forall|k: int| 0 <= k < i ==> (#[trigger] row@[k]) == local_target(self.scopes@, s as int, es[k].1),
                decreases values@.len() - i,
            {
                let e = values[i];
                let target = match pending(e) {
                    Some(name) => match self.lookup_at(name, s) {
                        Some(found) => Some(found.fqn.clone()),
                        None => None,
                    },
                    None => None,
                };
                row.push(target);
                i += 1;
            }
            assert(row@ =~= local_targets(self.scopes@, s as int));
            out.push(row);
            s += 1;
        }
        out
    }

    /// The resolution targets of every entry, computed through imports.
    fn imported_target_lists(&self, tables: &[&SymbolTable]) -> (r: Vec<Vec<Option<String>>>)
        requires
            self.wf(),
            forall|k: int| 0 <= k < tables@.len() ==> (#[trigger] tables@[k]).wf(),
        ensures
            r@.len() == self.scopes@.len(),
            forall|s: int| 0 <= s < r@.len() ==> (#[trigger] r@[s])@ == imported_targets(*self, tables@, s),
    {
        let mut out: Vec<Vec<Option<String>>> = Vec::new();
        let mut s: usize = 0;
        while s < self.scopes.len()
            invariant
                self.wf(),
                forall|k: int| 0 <= k < tables@.len() ==> (#[trigger] tables@[k]).wf(),
                s <= self.scopes@.len(),
                out@.len() == s,
                forall|j: int| 0 <= j < s ==> (#[trigger] out@[j])@ == imported_targets(*self, tables@, j),
            decreases self.scopes@.len() - s,
        {
            let values = entry_values(&self.scopes[s].entries);
            let ghost es = entries_of(self.scopes@[s as int].entries);
            let mut row: Vec<Option<String>> = Vec::new();
            let mut i: usize = 0;
            while i < values.len()
                invariant
                    self.wf(),
                    forall|k: int| 0 <= k < tables@.len() ==> (#[trigger] tables@[k]).wf(),
                    s < self.scopes@.len(),
                    es == entries_of(self.scopes@[s as int].entries),
                    i <= values@.len(),
                    values@.len() == es.len(),
                    forall|k: int| 0 <= k < values@.len() ==> *(#[trigger] values@[k]) == es[k].1,
                    row@.len() == i,
                    forall|k: int| 0 <= k < i ==> (#[trigger] row@[k]) == imported_target(*self, tables@, s as int, es[k].1),
                decreases values@.len() - i,
            {
                let e = values[i];
                let target = match pending(e) {
                    Some(name) => match self.import_at(name, s) {
                        Some(import) => match find_table(tables, self.file.as_str(), import.source.as_str()) {
                            Some(k) => {
                                let table = tables[k];
                                match table.lookup_at(name, 0) {
                                    Some(found) => Some(found.fqn.clone()),
                                    None => None,
                                }
                            },
                            None => None,
                        },
                        None => None,
                    },
                    None => None,
                };
                row.push(target);
                i += 1;
            }
            assert(row@ =~= imported_targets(*self, tables@, s as int));
            out.push(row);
            s += 1;
        }
        out
    }

    /// Resolves the entries of each scope `s` as `targets[s]` says,
    /// position by position.
    fn apply_targets(&mut self, targets: Vec<Vec<Option<String>>>)
        requires
            old(self).wf(),
            targets@.len() == old(self).scopes@.len(),
            forall|s: int| 0 <= s < targets@.len() ==> (#[trigger] targets@[s])@.len()
                == entries_of(old(self).scopes@[s].entries).len(),
        ensures
            resolved_as(*old(self), *final(self), |s: int| targets@[s]@),
    {
        let ghost t0 = *self;
        let mut s: usize = 0;
        while s < self.scopes.len()
            invariant
                self.wf(),
                self.file == t0.file,
                self.current == t0.current,
                same_but_entries(t0.scopes@, self.scopes@),
                targets@.len() == t0.scopes@.len(),
                forall|j: int| 0 <= j < targets@.len() ==> (#[trigger] targets@[j])@.len()
                    == entries_of(t0.scopes@[j].entries).len(),
                s <= self.scopes@.len(),
                forall|j: int| 0 <= j < s ==> entries_of(#[trigger] self.scopes@[j].entries)
                    == resolved_entries(entries_of(t0.scopes@[j].entries), targets@[j]@),
                forall|j: int| s <= j < self.scopes@.len() ==> #[trigger] self.scopes@[j] == t0.scopes@[j],
            decreases self.scopes@.len() - s,
        {
            let names = entry_names(&self.scopes[s].entries);
            let ghost es = entries_of(t0.scopes@[s as int].entries);
            let row = &targets[s];
            let mut i: usize = 0;
            while i < names.len()
                invariant
                    self.wf(),
                    self.file == t0.file,
                    self.current == t0.current,
                    same_but_entries(t0.scopes@, self.scopes@),
                    s < self.scopes@.len(),
                    es == entries_of(t0.scopes@[s as int].entries),
                    keys_unique(es),
                    row@.len() == es.len(),
                    names@.len() == es.len(),
                    forall|k: int| 0 <= k < names@.len() ==> (#[trigger] names@[k])@ == es[k].0,
                    i <= names@.len(),
                    entries_of(self.scopes@[s as int].entries) == Seq::new(
                        es.len(),
                        |k: int| if k < i { (es[k].0, resolved_with(es[k].1, row@[k])) } else { es[k] },
                    ),
                    forall|j: int| 0 <= j < s ==> entries_of(#[trigger] self.scopes@[j].entries)
                        == resolved_entries(entries_of(t0.scopes@[j].entries), targets@[j]@),
                    forall|j: int| s < j < self.scopes@.len() ==> #[trigger] self.scopes@[j] == t0.scopes@[j],
                decreases names@.len() - i,
            {
                let ghost cur = entries_of(self.scopes@[s as int].entries);
                let ghost scopes_before = self.scopes@;
                if let Some(fqn) = &row[i] {
                    let fqn = fqn.clone();
                    proof {
                        assert(crate::ts2::entries::same_keys(es, cur));
                        crate::ts2::entries::lemma_key_index_unique(es, i as int);
                        crate::ts2::entries::lemma_key_index_same_keys(es, cur, es[i as int].0);
                    }
                    match entry_get_mut(&mut self.scopes[s].entries, names[i].as_str()) {
                        Some(e) => set_return_fqn(e, fqn),
                        None => {},
                    }
                    assert(entries_of(self.scopes@[s as int].entries) =~= Seq::new(
                        es.len(),
                        |k: int| if k < i + 1 { (es[k].0, resolved_with(es[k].1, row@[k])) } else { es[k] },
                    ));
                } else {
                    assert(cur =~= Seq::new(
                        es.len(),
                        |k: int| if k < i + 1 { (es[k].0, resolved_with(es[k].1, row@[k])) } else { es[k] },
                    ));
                }
                proof {
                    let now = entries_of(self.scopes@[s as int].entries);
                    assert forall|a: int, b: int| 0 <= a < b < now.len() implies now[a].0 != now[b].0 by {
                        assert(now[a].0 == es[a].0);
                        assert(now[b].0 == es[b].0);
                    }
                }
                i += 1;
            }
            assert(entries_of(self.scopes@[s as int].entries) =~= resolved_entries(es, targets@[s as int]@));
            s += 1;
        }
    }
}

} // verus!
