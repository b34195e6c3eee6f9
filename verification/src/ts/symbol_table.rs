//! The symbols of one TypeScript file, with the scopes they were found in.
use vstd::prelude::*;
use crate::common::{qualified, views};
use crate::ts::import::Import;
use crate::ts::symbol::{
    exported, kind_children, kind_identifier, lemma_children_decrease, lemma_same_kind_refl,
    lemma_same_kind_slots, lemma_same_kind_trans, mark_exported, put_children, retargeted,
    retargeted_all, take_children, Symbol, SymbolKind,
};
use crate::ts::types::Type;
use crate::paths::{import_names, import_names_file};

verus! {

broadcast use vstd::seq_lib::group_seq_properties;

/// The scope identifier, drawn from a `ScopeIds` counter.
pub type ScopeID = usize;

/// Hands out scope identifiers, each larger than every one handed out
/// before; threaded through every table whose identifiers must differ.
#[derive(Clone, Copy, Debug)]
pub struct ScopeIds {
    next: ScopeID,
}

impl View for ScopeIds {
    type V = ScopeID;

    /// The identifier handed out next.
    closed spec fn view(&self) -> ScopeID {
        self.next
    }
}

impl ScopeIds {
    /// A counter that has handed out nothing yet.
    pub fn new() -> (r: Self)
        ensures
            r@ == 0,
    {
        ScopeIds { next: 0 }
    }

    /// The next identifier; every later one is larger, until the counter
    /// wraps around past the largest `usize`.
    pub fn take(&mut self) -> (r: ScopeID)
        ensures
            r == old(self)@,
            final(self)@ == after(old(self)@),
    {
        let r = self.next;
        self.next = if self.next < usize::MAX {
            self.next + 1
        } else {
            0
        };
        r
    }
}

/// The identifier a counter hands out after `id`: the next one, or 0 once
/// the largest `usize` has been handed out.
pub open spec fn after(id: ScopeID) -> ScopeID {
    if id < usize::MAX {
        (id + 1) as usize
    } else {
        0
    }
}

/// One scope of a file: named when it belongs to a named declaration.
#[derive(Debug, PartialEq)]
pub struct Scope {
    pub identifier: Option<String>,
    pub id: ScopeID,
    pub parent: Option<ScopeID>,
    /// The position of the parent scope in its table.
    pub parent_at: Option<usize>,
    pub imports: Vec<Import>,
}

/// A module that keeps track of all the symbols and their
/// scopes in a file.
///
/// The table starts in the global scope, and new scopes
/// can be added by calling `push_scope`.
///
/// When looking up a symbol, the caller needs to know the
/// scope ID of the scope they're looking in.
#[derive(Debug, PartialEq)]
pub struct SymbolTable {
    pub file: String,
    pub scopes: Vec<Scope>,
    pub symbols: Vec<Symbol>,
    /// The position of the current scope.
    pub current: usize,
    /// The names, innermost last, that qualify the symbols being parsed.
    pub fqn_parts: Vec<String>,
}

/// Scope 0 is the root and the only one without a parent, and every other
/// scope's parent comes before it and is named by its identifier.
pub open spec fn scopes_wf(scopes: Seq<Scope>) -> bool {
    &&& scopes.len() >= 1
    &&& scopes[0].parent is None
    &&& scopes[0].parent_at is None
    &&& forall|i: int|
        0 < i < scopes.len() ==> ((#[trigger] scopes[i]).parent_at matches Some(p) && p < i && scopes[i].parent
            == Some(scopes[p as int].id))
}

/// The position of the first scope from `from` on whose identifier is `id`.
pub open spec fn position_from(scopes: Seq<Scope>, id: int, from: int) -> Option<int>
    decreases scopes.len() - from,
{
    if from < 0 || from >= scopes.len() {
        None
    } else if scopes[from].id == id {
        Some(from)
    } else {
        position_from(scopes, id, from + 1)
    }
}

/// The position of the scope whose identifier is `id`.
pub open spec fn position_of(scopes: Seq<Scope>, id: int) -> Option<int> {
    position_from(scopes, id, 0)
}

pub proof fn lemma_position_from(scopes: Seq<Scope>, id: int, from: int)
    requires
        0 <= from,
    ensures
        match position_from(scopes, id, from) {
            Some(p) => from <= p < scopes.len() && scopes[p].id == id && forall|j: int| from <= j < p ==> scopes[j].id
                != id,
            None => forall|j: int| from <= j < scopes.len() ==> scopes[j].id != id,
        },
    decreases scopes.len() - from,
{
    if from < scopes.len() && scopes[from].id != id {
        lemma_position_from(scopes, id, from + 1);
    }
}

/// Whether the scope `id` is the scope at position `start` or one around
/// it.
pub open spec fn in_chain(scopes: Seq<Scope>, start: int, id: int) -> bool
    decreases start,
{
    if 0 <= start < scopes.len() {
        if scopes[start].id == id {
            true
        } else {
            match scopes[start].parent_at {
                Some(p) => if 0 <= p < start {
                    in_chain(scopes, p as int, id)
                } else {
                    false
                },
                None => false,
            }
        }
    } else {
        false
    }
}

/// The names of the named scopes from the root down to the scope at
/// position `id`.
pub open spec fn scope_names(scopes: Seq<Scope>, id: int) -> Seq<Seq<char>>
    decreases id,
{
    if 0 <= id < scopes.len() {
        let above = match scopes[id].parent_at {
            Some(p) => if 0 <= p < id {
                scope_names(scopes, p as int)
            } else {
                Seq::empty()
            },
            None => Seq::empty(),
        };
        match scopes[id].identifier {
            Some(n) => above.push(n@),
            None => above,
        }
    } else {
        Seq::empty()
    }
}

/// The first import among `imports` that brings in `name`.
pub open spec fn first_import(imports: Seq<Import>, name: Seq<char>) -> Option<Import>
    decreases imports.len(),
{
    if imports.len() == 0 {
        None
    } else if views(imports[0].names@).contains(name) {
        Some(imports[0])
    } else {
        first_import(imports.drop_first(), name)
    }
}

/// The import that brings `name` into the scope at position `id`: the
/// first one in that scope, else the one in its parent scope, and so on up.
pub open spec fn import_for(scopes: Seq<Scope>, name: Seq<char>, id: int) -> Option<Import>
    decreases id,
{
    if 0 <= id < scopes.len() {
        match first_import(scopes[id].imports@, name) {
            Some(i) => Some(i),
            None => match scopes[id].parent_at {
                Some(p) => if 0 <= p < id {
                    import_for(scopes, name, p as int)
                } else {
                    None
                },
                None => None,
            },
        }
    } else {
        None
    }
}

/// Whether symbol `s` answers a lookup of `name` from scope `scope`: it is
/// declared in that scope or one around it, under that name.
pub open spec fn visible_as(scopes: Seq<Scope>, s: Symbol, name: Seq<char>, scope: int) -> bool {
    &&& kind_identifier(s.kind) == Some(name)
    &&& match position_of(scopes, scope) {
        Some(p) => in_chain(scopes, p, s.scope_id as int),
        None => s.scope_id == scope,
    }
}

/// Whether symbol `s` is declared in scope `id` under `name`.
pub open spec fn declared_in(s: Symbol, name: Seq<char>, id: int) -> bool {
    s.scope_id == id && kind_identifier(s.kind) == Some(name)
}

/// The position of the first symbol from `from` on declared in scope `id`
/// under `name`.
pub open spec fn first_in_scope(symbols: Seq<Symbol>, name: Seq<char>, id: int, from: int) -> Option<int>
    decreases symbols.len() - from,
{
    if from < 0 || from >= symbols.len() {
        None
    } else if declared_in(symbols[from], name, id) {
        Some(from)
    } else {
        first_in_scope(symbols, name, id, from + 1)
    }
}

/// The position of the symbol a lookup from the scope at position `pos`
/// finds: the first declared under `name` in that scope, else in the
/// nearest scope around it that declares one.
pub open spec fn lookup_at(scopes: Seq<Scope>, symbols: Seq<Symbol>, name: Seq<char>, pos: int) -> Option<int>
    decreases pos,
{
    if 0 <= pos < scopes.len() {
        match first_in_scope(symbols, name, scopes[pos].id as int, 0) {
            Some(i) => Some(i),
            None => match scopes[pos].parent_at {
                Some(p) => if 0 <= p < pos {
                    lookup_at(scopes, symbols, name, p as int)
                } else {
                    None
                },
                None => None,
            },
        }
    } else {
        None
    }
}

/// The position of the symbol a lookup of `name` from the scope `scope`
/// finds: from that scope outwards, or, for a scope the table does not
/// hold, among the symbols declared in it.
pub open spec fn lookup_from(scopes: Seq<Scope>, symbols: Seq<Symbol>, name: Seq<char>, scope: int) -> Option<int> {
    match position_of(scopes, scope) {
        Some(p) => lookup_at(scopes, symbols, name, p),
        None => first_in_scope(symbols, name, scope, 0),
    }
}

/// What `first_in_scope` finds is the first match from `from` on.
pub proof fn lemma_first_in_scope(symbols: Seq<Symbol>, name: Seq<char>, id: int, from: int)
    requires
        0 <= from,
    ensures
        match first_in_scope(symbols, name, id, from) {
            Some(i) => from <= i < symbols.len() && declared_in(symbols[i], name, id)
                && forall|j: int| from <= j < i ==> !declared_in(symbols[j], name, id),
            None => forall|j: int| from <= j < symbols.len() ==> !declared_in(symbols[j], name, id),
        },
    decreases symbols.len() - from,
{
    if from < symbols.len() && !declared_in(symbols[from], name, id) {
        lemma_first_in_scope(symbols, name, id, from + 1);
    }
}

proof fn lemma_lookup_at_found(scopes: Seq<Scope>, symbols: Seq<Symbol>, name: Seq<char>, pos: int)
    ensures
        lookup_at(scopes, symbols, name, pos) matches Some(i) ==> 0 <= i < symbols.len() && kind_identifier(
            symbols[i].kind,
        ) == Some(name) && in_chain(scopes, pos, symbols[i].scope_id as int),
    decreases pos,
{
    if 0 <= pos < scopes.len() {
        lemma_first_in_scope(symbols, name, scopes[pos].id as int, 0);
        if first_in_scope(symbols, name, scopes[pos].id as int, 0) is None {
            match scopes[pos].parent_at {
                Some(p) => if 0 <= p < pos {
                    lemma_lookup_at_found(scopes, symbols, name, p as int);
                },
                None => {},
            }
        }
    }
}

/// What a lookup finds is a symbol visible under the name.
pub proof fn lemma_lookup_from_found(scopes: Seq<Scope>, symbols: Seq<Symbol>, name: Seq<char>, scope: int)
    ensures
        lookup_from(scopes, symbols, name, scope) matches Some(i) ==> 0 <= i < symbols.len() && visible_as(
            scopes,
            symbols[i],
            name,
            scope,
        ),
{
    lemma_first_in_scope(symbols, name, scope, 0);
    match position_of(scopes, scope) {
        Some(p) => lemma_lookup_at_found(scopes, symbols, name, p),
        None => {},
    }
}

/// A symbol added last is found only where the lookup found nothing
/// before, in a scope nearer than those declaring the name before, or in
/// the same scope as none before it.
pub proof fn lemma_first_in_scope_push(symbols: Seq<Symbol>, s: Symbol, name: Seq<char>, id: int, from: int)
    requires
        0 <= from <= symbols.len(),
    ensures
        first_in_scope(symbols.push(s), name, id, from) == match first_in_scope(symbols, name, id, from) {
            Some(i) => Some(i),
            None => if declared_in(s, name, id) {
                Some(symbols.len() as int)
            } else {
                None
            },
        },
    decreases symbols.len() - from,
{
    let t = symbols.push(s);
    assert(t[symbols.len() as int] == s);
    if from < symbols.len() {
        assert(t[from] == symbols[from]);
        lemma_first_in_scope_push(symbols, s, name, id, from + 1);
    }
}

proof fn lemma_lookup_at_push(scopes: Seq<Scope>, symbols: Seq<Symbol>, s: Symbol, name: Seq<char>, pos: int)
    ensures
        !(kind_identifier(s.kind) == Some(name) && in_chain(scopes, pos, s.scope_id as int)) ==> lookup_at(
            scopes,
            symbols.push(s),
            name,
            pos,
        ) == lookup_at(scopes, symbols, name, pos),
        lookup_at(scopes, symbols, name, pos) is None ==> lookup_at(scopes, symbols.push(s), name, pos) == if kind_identifier(
            s.kind,
        ) == Some(name) && in_chain(scopes, pos, s.scope_id as int) {
            Some(symbols.len() as int)
        } else {
            None::<int>
        },
    decreases pos,
{
    if 0 <= pos < scopes.len() {
        lemma_first_in_scope_push(symbols, s, name, scopes[pos].id as int, 0);
        if first_in_scope(symbols, name, scopes[pos].id as int, 0) is None {
            match scopes[pos].parent_at {
                Some(p) => if 0 <= p < pos {
                    lemma_lookup_at_push(scopes, symbols, s, name, p as int);
                },
                None => {},
            }
        }
    }
}

/// Adding a symbol not visible from `scope` under `name` leaves the lookup
/// as it was; where the lookup found nothing, it finds the new symbol
/// exactly when that one is visible.
pub proof fn lemma_lookup_push(scopes: Seq<Scope>, symbols: Seq<Symbol>, s: Symbol, name: Seq<char>, scope: int)
    ensures
        !visible_as(scopes, s, name, scope) ==> lookup_from(scopes, symbols.push(s), name, scope) == lookup_from(
            scopes,
            symbols,
            name,
            scope,
        ),
        lookup_from(scopes, symbols, name, scope) is None ==> lookup_from(scopes, symbols.push(s), name, scope) == if visible_as(
            scopes,
            s,
            name,
            scope,
        ) {
            Some(symbols.len() as int)
        } else {
            None::<int>
        },
        s.scope_id == scope && kind_identifier(s.kind) == Some(name) ==> lookup_from(scopes, symbols.push(s), name, scope)
            == match first_in_scope(symbols, name, scope, 0) {
            Some(i) => Some(i),
            None => Some(symbols.len() as int),
        },
{
    lemma_first_in_scope_push(symbols, s, name, scope, 0);
    lemma_position_from(scopes, scope, 0);
    match position_of(scopes, scope) {
        Some(p) => {
            lemma_lookup_at_push(scopes, symbols, s, name, p);
            lemma_first_in_scope_push(symbols, s, name, scopes[p].id as int, 0);
        },
        None => {},
    }
}

impl SymbolTable {
    pub open spec fn wf(self) -> bool {
        &&& scopes_wf(self.scopes@)
        &&& self.current < self.scopes@.len()
    }

    /// The position of the symbol that a lookup of `name` from `scope` finds.
    pub open spec fn lookup_index(self, name: Seq<char>, scope: int) -> Option<int> {
        lookup_from(self.scopes@, self.symbols@, name, scope)
    }

    /// The fully qualified name of the symbol a lookup finds.
    pub open spec fn lookup_fqn(self, name: Seq<char>, scope: int) -> Option<String> {
        match self.lookup_index(name, scope) {
            Some(i) => Some(self.symbols@[i].fqn),
            None => None,
        }
    }

    /// The fully qualified name for `name` declared in the current scope.
    pub open spec fn fqn_for(self, name: Seq<char>) -> Seq<char> {
        self.file@ + qualified(
            scope_names(self.scopes@, self.current as int) + views(self.fqn_parts@),
        ) + seq![':', ':'] + name
    }

    /// The identifier of the current scope.
    pub open spec fn current_id(self) -> ScopeID {
        self.scopes@[self.current as int].id
    }

    /// Whether every scope identifier of the table is below `next`, so that
    /// a counter at `next` hands out only identifiers the table lacks.
    pub open spec fn ids_below(self, next: ScopeID) -> bool {
        forall|i: int| 0 <= i < self.scopes@.len() ==> (#[trigger] self.scopes@[i]).id < next
    }

    /// Whether two tables differ at most in their symbols.
    pub open spec fn same_but_symbols(self, other: Self) -> bool {
        &&& self.file == other.file
        &&& self.scopes == other.scopes
        &&& self.current == other.current
        &&& self.fqn_parts == other.fqn_parts
    }

    /// An empty table of the file `path`, its root scope's identifier the
    /// next one `ids` hands out.
    pub fn new(path: &str, ids: &mut ScopeIds) -> (r: Self)
        ensures
            r.wf(),
            r.file@ == path@,
            r.scopes@.len() == 1,
            r.scopes@[0].identifier is None,
            r.scopes@[0].imports@.len() == 0,
            r.scopes@[0].id == old(ids)@,
            final(ids)@ == after(old(ids)@),
            old(ids)@ < usize::MAX ==> r.ids_below(final(ids)@),
            r.symbols@.len() == 0,
            r.current == 0,
            r.fqn_parts@.len() == 0,
    {
        let root = ids.take();
        let mut scopes: Vec<Scope> = Vec::new();
        scopes.push(Scope { identifier: None, id: root, parent: None, parent_at: None, imports: Vec::new() });
        SymbolTable {
            file: path.to_owned(),
            scopes,
            symbols: Vec::new(),
            current: 0,
            fqn_parts: Vec::new(),
        }
    }

    /// The position of the symbol a lookup of `identifier` from `scope_id`
    /// finds: the scopes are searched from `scope_id` outwards.
    fn lookup_position(&self, identifier: &str, scope_id: ScopeID) -> (r: Option<usize>)
        requires
            self.wf(),
        ensures
            opt_int(r) == self.lookup_index(identifier@, scope_id as int),
            r matches Some(i) ==> i < self.symbols@.len(),
    {
        proof {
            lemma_lookup_from_found(self.scopes@, self.symbols@, identifier@, scope_id as int);
        }
        let mut cur = match find_scope(&self.scopes, scope_id) {
            Some(p) => p,
            None => return first_declared(&self.symbols, identifier, scope_id),
        };
        loop
            invariant
                self.wf(),
                cur < self.scopes@.len(),
                self.lookup_index(identifier@, scope_id as int) == lookup_at(
                    self.scopes@,
                    self.symbols@,
                    identifier@,
                    cur as int,
                ),
            decreases cur,
        {
            let found = first_declared(&self.symbols, identifier, self.scopes[cur].id);
            if found.is_some() {
                return found;
            }
            match self.scopes[cur].parent_at {
                Some(p) => {
                    assert(cur > 0);
                    cur = p;
                },
                None => return None,
            }
        }
    }

    /// The symbol named `identifier` that is visible from the scope
    /// `scope_id`: the first declared in that scope, else in the nearest
    /// scope around it that declares one.
    pub fn lookup(&self, identifier: &str, scope_id: ScopeID) -> (r: Option<&Symbol>)
        requires
            self.wf(),
        ensures
            match self.lookup_index(identifier@, scope_id as int) {
                Some(i) => r == Some(&self.symbols@[i]),
                None => r is None,
            },
    {
        match self.lookup_position(identifier, scope_id) {
            Some(i) => Some(&self.symbols[i]),
            None => None,
        }
    }

    /// As `lookup`, but the symbol found can be changed in place.
    pub fn lookup_mut(&mut self, identifier: &str, scope_id: ScopeID) -> (r: Option<&mut Symbol>)
        requires
            old(self).wf(),
        ensures
            final(self).same_but_symbols(*old(self)),
            match old(self).lookup_index(identifier@, scope_id as int) {
                Some(i) => r matches Some(s) && *s == old(self).symbols@[i]
                    && final(self).symbols@ == old(self).symbols@.update(i, *final(s)),
                None => r is None && final(self).symbols == old(self).symbols,
            },
    {
        match self.lookup_position(identifier, scope_id) {
            Some(i) => Some(&mut self.symbols[i]),
            None => None,
        }
    }

    /// The import that brings `identifier` into the scope `scope_id`.
    pub fn lookup_import(&self, identifier: &str, scope_id: ScopeID) -> (r: Option<&Import>)
        requires
            self.wf(),
            position_of(self.scopes@, scope_id as int) is Some,
        ensures
            match import_for(self.scopes@, identifier@, position_of(self.scopes@, scope_id as int).unwrap()) {
                Some(i) => r == Some(&i),
                None => r is None,
            },
    {
        let p = find_scope(&self.scopes, scope_id).unwrap();
        import_in(&self.scopes, identifier, p)
    }

    pub(crate) fn first_import_in<'a>(imports: &'a Vec<Import>, identifier: &str) -> (r: Option<&'a Import>)
        ensures
            match first_import(imports@, identifier@) {
                Some(i) => r == Some(&i),
                None => r is None,
            },
    {
        let mut i: usize = 0;
        assert(imports@.skip(0) =~= imports@);
        while i < imports.len()
            invariant
                i <= imports@.len(),
                first_import(imports@, identifier@) == first_import(imports@.skip(i as int), identifier@),
            decreases imports@.len() - i,
        {
            let names = &imports[i].names;
            let mut k: usize = 0;
            let mut found = false;
            while k < names.len()
                invariant
                    k <= names@.len(),
                    found == exists|j: int| 0 <= j < k && names@[j]@ == identifier@,
                decreases names@.len() - k,
            {
                if crate::ts::symbol::str_equal(names[k].as_str(), identifier) {
                    found = true;
                }
                k += 1;
            }
            proof {
                let vs = views(names@);
                if found {
                    let j = choose|j: int| 0 <= j < k && names@[j]@ == identifier@;
                    assert(vs[j] == identifier@);
                } else {
                    assert forall|j: int| 0 <= j < vs.len() implies vs[j] != identifier@ by {
                        assert(vs[j] == names@[j]@);
                    }
                }
                assert(imports@.skip(i as int)[0] == imports@[i as int]);
            }
            if found {
                return Some(&imports[i]);
            }
            assert(imports@.skip(i as int).drop_first() =~= imports@.skip(i + 1));
            i += 1;
        }
        None
    }

    pub fn all_symbols(&self) -> (r: &[Symbol])
        ensures
            r@ == self.symbols@,
    {
        self.symbols.as_slice()
    }

    /// The imports of every scope, scope by scope.
    pub fn all_imports(&self) -> (r: Vec<&Import>)
        ensures
            r@.map_values(|i: &Import| *i) == all_imports_of(self.scopes@),
    {
        let mut out: Vec<&Import> = Vec::new();
        let mut s: usize = 0;
        while s < self.scopes.len()
            invariant
                s <= self.scopes@.len(),
                out@.map_values(|i: &Import| *i) == all_imports_of(self.scopes@.take(s as int)),
            decreases self.scopes@.len() - s,
        {
            let imports = &self.scopes[s].imports;
            let ghost before = out@.map_values(|i: &Import| *i);
            let mut k: usize = 0;
            while k < imports.len()
                invariant
                    k <= imports@.len(),
                    out@.map_values(|i: &Import| *i) == before + imports@.take(k as int),
                decreases imports@.len() - k,
            {
                let ghost prev = out@;
                out.push(&imports[k]);
                assert(out@.map_values(|i: &Import| *i) =~= prev.map_values(|i: &Import| *i).push(imports@[k as int]));
                assert(imports@.take(k + 1) =~= imports@.take(k as int).push(imports@[k as int]));
                k += 1;
            }
            proof {
                assert(imports@.take(imports@.len() as int) =~= imports@);
                assert(self.scopes@.take(s + 1).drop_last() =~= self.scopes@.take(s as int));
            }
            s += 1;
        }
        assert(self.scopes@.take(self.scopes@.len() as int) =~= self.scopes@);
        out
    }

    pub fn add_symbol(&mut self, symbol: Symbol)
        ensures
            final(self).same_but_symbols(*old(self)),
            final(self).symbols@ == old(self).symbols@.push(symbol),
    {
        self.symbols.push(symbol);
    }

    /// Marks the symbol named `identifier`, visible from the current scope,
    /// as exported.
    pub fn export_symbol(&mut self, identifier: &str)
        requires
            old(self).wf(),
        ensures
            final(self).same_but_symbols(*old(self)),
            match old(self).lookup_index(identifier@, old(self).current_id() as int) {
                Some(i) => 0 <= i < old(self).symbols@.len() && final(self).symbols@ == old(self).symbols@.update(
                    i,
                    mark_exported(old(self).symbols@[i]),
                ),
                None => final(self).symbols == old(self).symbols,
            },
    {
        proof {
            lemma_lookup_from_found(self.scopes@, self.symbols@, identifier@, self.current_id() as int);
        }
        let scope = self.scopes[self.current].id;
        if let Some(symbol) = self.lookup_mut(identifier, scope) {
            symbol.mark_as_exported()
        }
    }

    /// Constructs a fully qualified name for the given identifier in the
    /// current scope: the file, then the names of the named scopes from the
    /// root down, then the qualifying names being parsed, then the identifier.
    pub fn construct_fqn(&self, identifier: &str) -> (r: String)
        requires
            self.wf(),
        ensures
            r@ == self.fqn_for(identifier@),
    {
        let names = self.scope_name_list(self.current);
        let mut out = self.file.clone();
        crate::common::push_parts(&mut out, &names);
        crate::common::push_parts(&mut out, &self.fqn_parts);
        proof {
            crate::common::lemma_qualified_concat(views(names@), views(self.fqn_parts@));
        }
        crate::common::push_part(&mut out, identifier);
        out
    }

    /// The names of the named scopes from the root down to `id`.
    fn scope_name_list(&self, id: ScopeID) -> (r: Vec<String>)
        requires
            self.wf(),
            id < self.scopes@.len(),
        ensures
            views(r@) == scope_names(self.scopes@, id as int),
        decreases id,
    {
        let scope = &self.scopes[id];
        let mut above = match scope.parent_at {
            Some(p) => {
                assert(id > 0);
                self.scope_name_list(p)
            },
            None => Vec::new(),
        };
        assert(scope.parent_at is None ==> views(above@) =~= Seq::<Seq<char>>::empty());
        match &scope.identifier {
            Some(n) => {
                let ghost before = above@;
                above.push(n.clone());
                assert(views(above@) =~= views(before).push(n@));
            },
            None => {},
        }
        above
    }

    pub fn add_import(&mut self, import: Import)
        requires
            old(self).wf(),
        ensures
            final(self).wf(),
            final(self).file == old(self).file,
            final(self).symbols == old(self).symbols,
            final(self).current == old(self).current,
            final(self).fqn_parts == old(self).fqn_parts,
            final(self).scopes@.len() == old(self).scopes@.len(),
            forall|i: int| 0 <= i < old(self).scopes@.len() && i != old(self).current
                ==> #[trigger] final(self).scopes@[i] == old(self).scopes@[i],
            final(self).scopes@[old(self).current as int].identifier
                == old(self).scopes@[old(self).current as int].identifier,
            final(self).scopes@[old(self).current as int].id
                == old(self).scopes@[old(self).current as int].id,
            final(self).scopes@[old(self).current as int].parent
                == old(self).scopes@[old(self).current as int].parent,
            final(self).scopes@[old(self).current as int].parent_at
                == old(self).scopes@[old(self).current as int].parent_at,
            final(self).scopes@[old(self).current as int].imports@
                == old(self).scopes@[old(self).current as int].imports@.push(import),
    {
        let c = self.current;
        self.scopes[c].imports.push(import);
    }

    /// Create a new scope with the given name, inside the current one, and
    /// make it the current scope.
    pub fn push_scope(&mut self, name: &str, ids: &mut ScopeIds) -> (r: ScopeID)
        requires
            old(self).wf(),
        ensures
            scope_pushed(*old(self), *final(self), Some(name@), r),
            r == old(ids)@,
            final(ids)@ == after(old(ids)@),
            old(self).ids_below(old(ids)@) && old(ids)@ < usize::MAX ==> final(self).ids_below(final(ids)@),
    {
        self.push_scope_named(Some(name.to_owned()), ids)
    }

    /// Create a new scope, named or not, inside the current one, and make it
    /// the current scope.
    pub fn push_scope_named(&mut self, name: Option<String>, ids: &mut ScopeIds) -> (r: ScopeID)
        requires
            old(self).wf(),
        ensures
            scope_pushed(*old(self), *final(self), opt_string_view(name), r),
            r == old(ids)@,
            final(ids)@ == after(old(ids)@),
            old(self).ids_below(old(ids)@) && old(ids)@ < usize::MAX ==> final(self).ids_below(final(ids)@),
    {
        let id = ids.take();
        let at = self.scopes.len();
        let cur = self.current;
        let parent = self.scopes[cur].id;
        self.scopes.push(Scope { id, identifier: name, parent: Some(parent), parent_at: Some(cur), imports: Vec::new() });
        self.current = at;
        assert(self.scopes@.drop_last() =~= old(self).scopes@);
        id
    }

    /// Pop the current scope, and set the current scope to the parent.
    ///
    /// If the current scope has no parent, (aka, it's the global scope), this is a no-op.
    ///
    /// Returns the popped scope ID.
    pub fn pop_scope(&mut self) -> (r: ScopeID)
        requires
            old(self).wf(),
        ensures
            scope_popped(*old(self), *final(self), r),
    {
        let current = self.current;
        if let Some(parent_at) = self.scopes[current].parent_at {
            assert(current > 0);
            self.current = parent_at;
        }
        self.scopes[current].id
    }

    /// Adds a name that qualifies the symbols parsed from now on.
    pub fn push_fqn(&mut self, part: &str)
        ensures
            views(final(self).fqn_parts@) == views(old(self).fqn_parts@).push(part@),
            final(self).fqn_parts@.len() == old(self).fqn_parts@.len() + 1,
            final(self).fqn_parts@.drop_last() == old(self).fqn_parts@,
            final(self).file == old(self).file,
            final(self).scopes == old(self).scopes,
            final(self).symbols == old(self).symbols,
            final(self).current == old(self).current,
    {
        self.fqn_parts.push(part.to_owned());
        assert(views(self.fqn_parts@) =~= views(old(self).fqn_parts@).push(part@));
    }

    /// Removes the innermost qualifying name, and returns it.
    pub fn pop_fqn(&mut self) -> (r: Option<String>)
        ensures
            old(self).fqn_parts@.len() > 0 ==> r == Some(old(self).fqn_parts@.last())
                && final(self).fqn_parts@ == old(self).fqn_parts@.drop_last(),
            old(self).fqn_parts@.len() == 0 ==> r is None && final(self).fqn_parts@
                == old(self).fqn_parts@,
            final(self).file == old(self).file,
            final(self).scopes == old(self).scopes,
            final(self).symbols == old(self).symbols,
            final(self).current == old(self).current,
    {
        self.fqn_parts.pop()
    }

    /// Type resolution within the file: every type identifier, at any depth
    /// in any symbol, is pointed at the fully qualified name of the symbol
    /// that a lookup of its name from its own scope finds. Identifiers that
    /// no symbol answers are left as they are.
    pub fn resolve_types(&mut self)
        requires
            old(self).wf(),
        ensures
            final(self).wf(),
            final(self).same_but_symbols(*old(self)),
            retargeted_all(old(self).symbols@, final(self).symbols@, local_targets(*old(self))),
    {
        let ghost t = *self;
        let entries = self.lookup_entries();
        let how = Resolver::Local(&entries);
        self.resolve_all(&how, Ghost(t));
    }

    /// Same as `resolve_types`, but resolves imports across files: a type
    /// identifier brought in by an import is pointed at the exported symbol
    /// of that name in the root scope of the first of `all_tables` whose
    /// file the import names.
    pub fn resolve_imported_types(&mut self, all_tables: &[&SymbolTable])
        requires
            old(self).wf(),
            forall|k: int| 0 <= k < all_tables@.len() ==> (#[trigger] all_tables@[k]).wf(),
        ensures
            final(self).wf(),
            final(self).same_but_symbols(*old(self)),
            retargeted_all(
                old(self).symbols@,
                final(self).symbols@,
                imported_targets(*old(self), all_tables@),
            ),
    {
        let ghost t = *self;
        let how = Resolver::Imported(all_tables);
        self.resolve_all(&how, Ghost(t));
    }

    fn resolve_all(&mut self, how: &Resolver, Ghost(t): Ghost<SymbolTable>)
        requires
            old(self).wf(),
            t == *old(self),
            resolver_ok(*how, t),
        ensures
            final(self).wf(),
            final(self).same_but_symbols(*old(self)),
            retargeted_all(old(self).symbols@, final(self).symbols@, resolver_targets(*how, t)),
    {
        let ghost tf = resolver_targets(*how, t);
        let mut i: usize = 0;
        while i < self.symbols.len()
            invariant
                t.wf(),
                self.same_but_symbols(t),
                resolver_ok(*how, t),
                tf == resolver_targets(*how, t),
                self.symbols@.len() == t.symbols@.len(),
                i <= self.symbols@.len(),
                forall|j: int| 0 <= j < i ==> retargeted(t.symbols@[j], #[trigger] self.symbols@[j], tf),
                forall|j: int| i <= j < self.symbols@.len() ==> #[trigger] self.symbols@[j] == t.symbols@[j],
            decreases self.symbols@.len() - i,
        {
            resolve_tree(&mut self.symbols[i], how, &self.scopes, self.file.as_str(), Ghost(t));
            i += 1;
        }
    }

    /// What a lookup sees of each symbol.
    fn lookup_entries(&self) -> (r: Vec<LookupEntry>)
        ensures
            mirrors(r@, self.symbols@),
    {
        let mut out: Vec<LookupEntry> = Vec::new();
        let mut i: usize = 0;
        while i < self.symbols.len()
            invariant
                i <= self.symbols@.len(),
                mirrors(out@, self.symbols@.take(i as int)),
            decreases self.symbols@.len() - i,
        {
            let s = &self.symbols[i];
            let identifier = match s.kind.identifier() {
                Some(n) => Some(n.to_owned()),
                None => None,
            };
            out.push(LookupEntry { identifier, scope_id: s.scope_id, fqn: s.fqn.clone() });
            assert(self.symbols@.take(i + 1) =~= self.symbols@.take(i as int).push(*s));
            i += 1;
        }
        assert(self.symbols@.take(self.symbols@.len() as int) =~= self.symbols@);
        out
    }

    pub fn root_scope(&self) -> (r: &Scope)
        requires
            self.wf(),
        ensures
            *r == self.scopes@[0],
            r.parent is None,
    {
        &self.scopes[0]
    }

    pub fn current_scope(&self) -> (r: &Scope)
        requires
            self.wf(),
        ensures
            *r == self.scopes@[self.current as int],
    {
        &self.scopes[self.current]
    }
}

/// The position of the scope whose identifier is `id`.
fn find_scope(scopes: &Vec<Scope>, id: ScopeID) -> (r: Option<usize>)
    ensures
        opt_int(r) == position_of(scopes@, id as int),
        r matches Some(p) ==> p < scopes@.len(),
{
    proof {
        lemma_position_from(scopes@, id as int, 0);
    }
    let mut i: usize = 0;
    while i < scopes.len()
        invariant
            i <= scopes@.len(),
            position_of(scopes@, id as int) == position_from(scopes@, id as int, i as int),
        decreases scopes@.len() - i,
    {
        if scopes[i].id == id {
            return Some(i);
        }
        i += 1;
    }
    None
}

/// The position of the first of `symbols` declared in scope `id` under
/// `identifier`.
fn first_declared(symbols: &Vec<Symbol>, identifier: &str, id: ScopeID) -> (r: Option<usize>)
    ensures
        opt_int(r) == first_in_scope(symbols@, identifier@, id as int, 0),
        r matches Some(i) ==> i < symbols@.len(),
{
    proof {
        lemma_first_in_scope(symbols@, identifier@, id as int, 0);
    }
    let mut i: usize = 0;
    while i < symbols.len()
        invariant
            i <= symbols@.len(),
            first_in_scope(symbols@, identifier@, id as int, 0) == first_in_scope(symbols@, identifier@, id as int, i as int),
        decreases symbols@.len() - i,
    {
        let sym = &symbols[i];
        let same_name = match sym.kind.identifier() {
            Some(n) => crate::ts::symbol::str_equal(n, identifier),
            None => false,
        };
        if sym.scope_id == id && same_name {
            return Some(i);
        }
        i += 1;
    }
    None
}

/// The import that brings `identifier` into the scope at position
/// `scope_id`.
fn import_in<'a>(scopes: &'a Vec<Scope>, identifier: &str, scope_id: ScopeID) -> (r: Option<&'a Import>)
    requires
        scopes_wf(scopes@),
        scope_id < scopes@.len(),
    ensures
        match import_for(scopes@, identifier@, scope_id as int) {
            Some(i) => r == Some(&i),
            None => r is None,
        },
    decreases scope_id,
{
    let scope = &scopes[scope_id];
    match SymbolTable::first_import_in(&scope.imports, identifier) {
        Some(i) => Some(i),
        None => match scope.parent_at {
            Some(parent_id) => {
                assert(scope_id > 0);
                import_in(scopes, identifier, parent_id)
            },
            None => None,
        },
    }
}

/// A symbol as a lookup sees it: its name, its scope and its fully
/// qualified name.
struct LookupEntry {
    identifier: Option<String>,
    scope_id: ScopeID,
    fqn: String,
}

pub open spec fn opt_string_view(o: Option<String>) -> Option<Seq<char>> {
    match o {
        Some(s) => Some(s@),
        None => None,
    }
}

/// Whether `entries` are what a lookup sees of `symbols`.
spec fn mirrors(entries: Seq<LookupEntry>, symbols: Seq<Symbol>) -> bool {
    &&& entries.len() == symbols.len()
    &&& forall|i: int|
        0 <= i < symbols.len() ==> opt_string_view(#[trigger] entries[i].identifier)
            == kind_identifier(symbols[i].kind) && entries[i].scope_id == symbols[i].scope_id
            && entries[i].fqn == symbols[i].fqn
}

/// The position of the first entry, among `entries`, of a symbol declared
/// in scope `id` under `identifier`.
fn first_declared_entry(entries: &Vec<LookupEntry>, identifier: &str, id: ScopeID, Ghost(symbols): Ghost<Seq<Symbol>>) -> (r: Option<usize>)
    requires
        mirrors(entries@, symbols),
    ensures
        opt_int(r) == first_in_scope(symbols, identifier@, id as int, 0),
        r matches Some(i) ==> i < entries@.len() && entries@[i as int].fqn == symbols[i as int].fqn,
{
    proof {
        lemma_first_in_scope(symbols, identifier@, id as int, 0);
    }
    let mut i: usize = 0;
    while i < entries.len()
        invariant
            i <= entries@.len(),
            mirrors(entries@, symbols),
            first_in_scope(symbols, identifier@, id as int, 0) == first_in_scope(symbols, identifier@, id as int, i as int),
        decreases entries@.len() - i,
    {
        let e = &entries[i];
        let same_name = match &e.identifier {
            Some(n) => crate::ts::symbol::str_equal(n.as_str(), identifier),
            None => false,
        };
        assert(opt_string_view(e.identifier) == kind_identifier(symbols[i as int].kind));
        if e.scope_id == id && same_name {
            return Some(i);
        }
        i += 1;
    }
    None
}

/// The fully qualified name of the symbol that a lookup of `identifier`
/// from `scope_id` finds, read from `entries`.
fn lookup_in_entries(
    scopes: &Vec<Scope>,
    entries: &Vec<LookupEntry>,
    identifier: &str,
    scope_id: ScopeID,
    Ghost(t): Ghost<SymbolTable>,
) -> (r: Option<String>)
    requires
        t.wf(),
        scopes@ == t.scopes@,
        mirrors(entries@, t.symbols@),
    ensures
        r == t.lookup_fqn(identifier@, scope_id as int),
{
    proof {
        lemma_lookup_from_found(t.scopes@, t.symbols@, identifier@, scope_id as int);
    }
    let mut cur = match find_scope(scopes, scope_id) {
        Some(p) => p,
        None => {
            return match first_declared_entry(entries, identifier, scope_id, Ghost(t.symbols@)) {
                Some(i) => Some(entries[i].fqn.clone()),
                None => None,
            };
        },
    };
    loop
        invariant
            t.wf(),
            scopes@ == t.scopes@,
            mirrors(entries@, t.symbols@),
            cur < scopes@.len(),
            t.lookup_index(identifier@, scope_id as int) == lookup_at(t.scopes@, t.symbols@, identifier@, cur as int),
        decreases cur,
    {
        match first_declared_entry(entries, identifier, scopes[cur].id, Ghost(t.symbols@)) {
            Some(i) => return Some(entries[i].fqn.clone()),
            None => {},
        }
        match scopes[cur].parent_at {
            Some(p) => {
                assert(cur > 0);
                cur = p;
            },
            None => return None,
        }
    }
}

/// The fully qualified names that the file's own type identifiers resolve
/// to: that of the symbol a lookup from the identifier's scope finds.
pub open spec fn local_targets(t: SymbolTable) -> spec_fn(Seq<char>, int) -> Option<String> {
    |name: Seq<char>, scope: int| t.lookup_fqn(name, scope)
}

/// The first of `tables` whose file an import of `source` in `file` names.
pub open spec fn first_table(tables: Seq<&SymbolTable>, file: Seq<char>, source: Seq<char>) -> Option<int>
    decreases tables.len(),
{
    if tables.len() == 0 {
        None
    } else if import_names_file(file, source, tables[0].file@) {
        Some(0)
    } else {
        match first_table(tables.drop_first(), file, source) {
            Some(k) => Some(k + 1),
            None => None,
        }
    }
}

/// The fully qualified name that `name`, used in scope `scope` of `t`,
/// resolves to through an import: the import that brings `name` into the
/// scope names a file, the first of `tables` with that file is looked up
/// from its root scope, and the symbol found counts only if it is exported.
pub open spec fn imported_fqn(t: SymbolTable, tables: Seq<&SymbolTable>, name: Seq<char>, scope: int) -> Option<String> {
    match position_of(t.scopes@, scope) {
        Some(p) => match import_for(t.scopes@, name, p) {
            Some(imp) => match first_table(tables, t.file@, imp.source@) {
                Some(k) => match tables[k].lookup_index(name, tables[k].scopes@[0].id as int) {
                    Some(j) => if exported(tables[k].symbols@[j]) {
                        Some(tables[k].symbols@[j].fqn)
                    } else {
                        None
                    },
                    None => None,
                },
                None => None,
            },
            None => None,
        },
        None => None,
    }
}

pub open spec fn imported_targets(t: SymbolTable, tables: Seq<&SymbolTable>) -> spec_fn(Seq<char>, int) -> Option<String> {
    |name: Seq<char>, scope: int| imported_fqn(t, tables, name, scope)
}

/// Which resolution a pass performs.
enum Resolver<'a> {
    Local(&'a Vec<LookupEntry>),
    Imported(&'a [&'a SymbolTable]),
}

spec fn resolver_ok(r: Resolver, t: SymbolTable) -> bool {
    match r {
        Resolver::Local(entries) => mirrors(entries@, t.symbols@),
        Resolver::Imported(tables) => forall|k: int| 0 <= k < tables@.len() ==> (#[trigger] tables@[k]).wf(),
    }
}

spec fn resolver_targets(r: Resolver, t: SymbolTable) -> spec_fn(Seq<char>, int) -> Option<String> {
    match r {
        Resolver::Local(_) => local_targets(t),
        Resolver::Imported(tables) => imported_targets(t, tables@),
    }
}

proof fn lemma_first_table(tables: Seq<&SymbolTable>, file: Seq<char>, source: Seq<char>, k: int)
    requires
        0 <= k <= tables.len(),
        forall|j: int| 0 <= j < k ==> !import_names_file(file, source, (#[trigger] tables[j]).file@),
    ensures
        k < tables.len() && import_names_file(file, source, tables[k].file@) ==> first_table(
            tables,
            file,
            source,
        ) == Some(k),
        k == tables.len() ==> first_table(tables, file, source) is None,
    decreases k,
{
    if k > 0 {
        let rest = tables.drop_first();
        assert forall|j: int| 0 <= j < k - 1 implies !import_names_file(file, source, (#[trigger] rest[j]).file@) by {
            assert(rest[j] == tables[j + 1]);
        }
        lemma_first_table(rest, file, source, k - 1);
        if k < tables.len() {
            assert(rest[k - 1] == tables[k]);
        }
    }
}

/// The position of the first of `tables` whose file an import of `source`
/// in `file` names.
fn find_table(tables: &[&SymbolTable], file: &str, source: &str) -> (r: Option<usize>)
    ensures
        opt_int(r) == first_table(tables@, file@, source@),
        r matches Some(k) ==> k < tables@.len(),
{
    let mut k: usize = 0;
    while k < tables.len()
        invariant
            k <= tables@.len(),
            forall|j: int| 0 <= j < k ==> !import_names_file(file@, source@, (#[trigger] tables@[j]).file@),
        decreases tables@.len() - k,
    {
        if import_names(file, source, tables[k].file.as_str()) {
            proof {
                lemma_first_table(tables@, file@, source@, k as int);
            }
            return Some(k);
        }
        k += 1;
    }
    proof {
        lemma_first_table(tables@, file@, source@, k as int);
    }
    None
}

/// Where `identifier`, used in scope `scope_id`, resolves to under `how`.
fn target_of(
    how: &Resolver,
    scopes: &Vec<Scope>,
    file: &str,
    identifier: &str,
    scope_id: ScopeID,
    Ghost(t): Ghost<SymbolTable>,
) -> (r: Option<String>)
    requires
        t.wf(),
        scopes@ == t.scopes@,
        file@ == t.file@,
        resolver_ok(*how, t),
    ensures
        r == (resolver_targets(*how, t))(identifier@, scope_id as int),
{
    match how {
        Resolver::Local(entries) => lookup_in_entries(scopes, entries, identifier, scope_id, Ghost(t)),
        Resolver::Imported(tables) => {
            let at = match find_scope(scopes, scope_id) {
                Some(p) => p,
                None => return None,
            };
            match import_in(scopes, identifier, at) {
                Some(imp) => match find_table(tables, file, imp.source.as_str()) {
                    Some(k) => {
                        let other: &SymbolTable = tables[k];
                        assert(other.wf());
                        match other.lookup(identifier, other.root_scope().id) {
                            Some(sym) => if sym.is_exported() {
                                Some(sym.fqn.clone())
                            } else {
                                None
                            },
                            None => None,
                        }
                    },
                    None => None,
                },
                None => None,
            }
        },
    }
}

/// Points every type identifier in `s`, at any depth, where `how` says it
/// leads.
fn resolve_tree(
    s: &mut Symbol,
    how: &Resolver,
    scopes: &Vec<Scope>,
    file: &str,
    Ghost(t): Ghost<SymbolTable>,
)
    requires
        t.wf(),
        scopes@ == t.scopes@,
        file@ == t.file@,
        resolver_ok(*how, t),
    ensures
        retargeted(*old(s), *final(s), resolver_targets(*how, t)),
    decreases *old(s),
{
    let ghost a = *s;
    let ghost tf = resolver_targets(*how, t);
    let scope = s.scope_id;
    let mut kids = take_children(&mut s.kind);
    let ghost old_kids = kids@;
    proof {
        lemma_children_decrease(a);
    }
    let mut i: usize = 0;
    while i < kids.len()
        invariant
            t.wf(),
            scopes@ == t.scopes@,
            file@ == t.file@,
            resolver_ok(*how, t),
            tf == resolver_targets(*how, t),
            old_kids == kind_children(a.kind),
            a == *old(s),
            old_kids.len() > 0 ==> decreases_to!(a => old_kids),
            kids@.len() == old_kids.len(),
            i <= kids@.len(),
            forall|j: int| 0 <= j < i ==> retargeted(old_kids[j], #[trigger] kids@[j], tf),
            forall|j: int| i <= j < kids@.len() ==> #[trigger] kids@[j] == old_kids[j],
        decreases kids@.len() - i,
    {
        proof {
            assert(decreases_to!(old_kids => old_kids[i as int]));
            assert(decreases_to!(a => old_kids[i as int]));
        }
        resolve_tree(&mut kids[i], how, scopes, file, Ghost(t));
        i += 1;
    }
    let ghost k1 = s.kind;
    proof {
        lemma_same_kind_slots(a.kind, k1);
    }
    put_children(&mut s.kind, kids);
    let ghost k2 = s.kind;
    proof {
        lemma_same_kind_trans(a.kind, k1, k2);
        lemma_same_kind_slots(a.kind, k2);
    }
    match &mut s.kind {
        SymbolKind::Type(Type::Identifier(n, r)) => {
            let found = target_of(how, scopes, file, n.as_str(), scope, Ghost(t));
            if let Some(f) = found {
                *r = Some(f);
            }
        },
        _ => {},
    }
    proof {
        match a.kind {
            SymbolKind::Type(Type::Identifier(_, _)) => {
                lemma_same_kind_refl(s.kind);
            },
            _ => {},
        }
        assert(retargeted_all(kind_children(a.kind), kind_children(s.kind), tf) || kind_children(a.kind).len() == 0);
    }
}

/// What `push_scope` does: `t1` is `t0` with a new scope, named `name`,
/// inside the current one, and that scope current; `id` is its id.
pub open spec fn scope_pushed(t0: SymbolTable, t1: SymbolTable, name: Option<Seq<char>>, id: usize) -> bool {
    &&& t1.wf()
    &&& t1.current == t0.scopes@.len()
    &&& t1.scopes@.len() == t0.scopes@.len() + 1
    &&& t1.scopes@.drop_last() == t0.scopes@
    &&& opt_string_view(t1.scopes@.last().identifier) == name
    &&& t1.scopes@.last().id == id
    &&& t1.scopes@.last().parent == Some(t0.current_id())
    &&& t1.scopes@.last().parent_at == Some(t0.current)
    &&& t1.scopes@.last().imports@.len() == 0
    &&& t1.file == t0.file
    &&& t1.symbols == t0.symbols
    &&& t1.fqn_parts == t0.fqn_parts
}

/// What `pop_scope` does: `t1` is `t0` with the parent of the current
/// scope current, or unchanged in the root scope; `id` is the identifier
/// of the scope left.
pub open spec fn scope_popped(t0: SymbolTable, t1: SymbolTable, id: usize) -> bool {
    &&& t1.wf()
    &&& id == t0.current_id()
    &&& t1.current == (match t0.scopes@[t0.current as int].parent_at {
        Some(p) => p,
        None => t0.current,
    })
    &&& t1.file == t0.file
    &&& t1.scopes == t0.scopes
    &&& t1.symbols == t0.symbols
    &&& t1.fqn_parts == t0.fqn_parts
}

pub open spec fn opt_int(o: Option<usize>) -> Option<int> {
    match o {
        Some(i) => Some(i as int),
        None => None,
    }
}

/// The imports of every scope, scope by scope.
pub open spec fn all_imports_of(scopes: Seq<Scope>) -> Seq<Import>
    decreases scopes.len(),
{
    if scopes.len() == 0 {
        Seq::empty()
    } else {
        all_imports_of(scopes.drop_last()) + scopes.last().imports@
    }
}

} // verus!
